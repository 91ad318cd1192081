//! The factions of the game, by the code the statistics service gives them.
use vstd::prelude::*;

verus! {

/// The faction name for a race code, if the code names one.
pub open spec fn race_name_of(code: i64) -> Option<Seq<char>> {
    if code == 0 {
        Some("random"@)
    } else if code == 1 {
        Some("human"@)
    } else if code == 2 {
        Some("orc"@)
    } else if code == 4 {
        Some("night elf"@)
    } else if code == 8 {
        Some("undead"@)
    } else {
        None
    }
}

/// The race code for "all races combined".
pub const ALL_RACES: i64 = 16;

pub fn race_name(code: i64) -> (r: Option<String>)
    ensures
        match r {
            Some(s) => race_name_of(code) == Some(s@),
            None => race_name_of(code) is None,
        },
{
    if code == 0 {
        Some("random".to_owned())
    } else if code == 1 {
        Some("human".to_owned())
    } else if code == 2 {
        Some("orc".to_owned())
    } else if code == 4 {
        Some("night elf".to_owned())
    } else if code == 8 {
        Some("undead".to_owned())
    } else {
        None
    }
}

} // verus!
