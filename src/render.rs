//! What each pane of the screen shows: the text summary of a player and the
//! row of winrates against each race.
use vstd::prelude::*;
use crate::fetch::{User, Stat, StatView, DetailWinrate, stats_view, winrate_for};
use crate::json::Real;

verus! {

/// Renders a float with exactly two digits after the decimal point.
pub trait Formatf64 {
    spec fn two_places_spec(&self) -> Seq<char>;

    fn to_string_two_bits(&self) -> (r: String)
        ensures
            r@ == self.two_places_spec(),
    ;
}

impl Formatf64 for Real {
    open spec fn two_places_spec(&self) -> Seq<char> {
        self.two_places@
    }

    fn to_string_two_bits(&self) -> (r: String) {
        self.two_places.clone()
    }
}

pub open spec fn digit_char(d: nat) -> char {
    if d == 0 {
        '0'
    } else if d == 1 {
        '1'
    } else if d == 2 {
        '2'
    } else if d == 3 {
        '3'
    } else if d == 4 {
        '4'
    } else if d == 5 {
        '5'
    } else if d == 6 {
        '6'
    } else if d == 7 {
        '7'
    } else if d == 8 {
        '8'
    } else {
        '9'
    }
}

/// The decimal digits of `n`, without leading zeros.
pub open spec fn digits_of(n: nat) -> Seq<char>
    decreases n,
{
    if n < 10 {
        seq![digit_char(n)]
    } else {
        digits_of(n / 10).push(digit_char(n % 10))
    }
}

/// `n` in decimal, with a leading `-` where it is negative.
pub open spec fn decimal_of(n: int) -> Seq<char> {
    if n < 0 {
        seq!['-'] + digits_of((-n) as nat)
    } else {
        digits_of(n as nat)
    }
}

fn digit_text(d: u64) -> (r: &'static str)
    requires
        d < 10,
    ensures
        r@ == seq![digit_char(d as nat)],
{
    proof {
        reveal_strlit("0");
        reveal_strlit("1");
        reveal_strlit("2");
        reveal_strlit("3");
        reveal_strlit("4");
        reveal_strlit("5");
        reveal_strlit("6");
        reveal_strlit("7");
        reveal_strlit("8");
        reveal_strlit("9");
    }
    if d == 0 {
        "0"
    } else if d == 1 {
        "1"
    } else if d == 2 {
        "2"
    } else if d == 3 {
        "3"
    } else if d == 4 {
        "4"
    } else if d == 5 {
        "5"
    } else if d == 6 {
        "6"
    } else if d == 7 {
        "7"
    } else if d == 8 {
        "8"
    } else {
        "9"
    }
}

fn push_digits(n: u64, out: &mut String)
    ensures
        final(out)@ == old(out)@ + digits_of(n as nat),
    decreases n,
{
    if n >= 10 {
        push_digits(n / 10, out);
    }
    out.append(digit_text(n % 10));
}

/// `n` in decimal.
pub fn decimal(n: i64) -> (r: String)
    ensures
        r@ == decimal_of(n as int),
{
    let mut out = String::new();
    if n < 0 {
        proof {
            reveal_strlit("-");
        }
        out.append("-");
        let magnitude: u64 = (0i128 - n as i128) as u64;
        push_digits(magnitude, &mut out);
    } else {
        push_digits(n as u64, &mut out);
    }
    out
}

pub open spec fn texts(v: Seq<String>) -> Seq<Seq<char>> {
    v.map_values(|s: String| s@)
}

/// The three lines of one statistic.
pub open spec fn stat_lines(s: StatView) -> Seq<Seq<char>> {
    seq![
        "Race: "@ + s.race,
        "Winrate: "@ + s.winrate.two_places@,
        "RankingPoints: "@ + decimal_of(s.ranking_point as int),
    ]
}

/// The lines of all statistics, in order.
pub open spec fn all_stat_lines(ss: Seq<StatView>) -> Seq<Seq<char>>
    decreases ss.len(),
{
    if ss.len() == 0 {
        Seq::empty()
    } else {
        all_stat_lines(ss.drop_last()) + stat_lines(ss.last())
    }
}

/// The text summary of a pane: the player's tag and the lines of each
/// statistic, or a placeholder where there is no player.
pub open spec fn summary_of(user: Option<User>) -> Seq<Seq<char>> {
    match user {
        Some(u) => seq!["User: "@ + u.user_id@] + all_stat_lines(stats_view(u.stats@)),
        None => seq!["did not get data"@],
    }
}

fn labelled(label: &str, text: &str) -> (r: String)
    ensures
        r@ == label@ + text@,
{
    let mut r = label.to_owned();
    r.append(text);
    r
}

/// The lines of a pane's text summary.
pub fn player_lines(user: &Option<User>) -> (r: Vec<String>)
    ensures
        texts(r@) == summary_of(*user),
{
    match user {
        None => {
            let mut r: Vec<String> = Vec::new();
            r.push("did not get data".to_owned());
            assert(texts(r@) =~= seq!["did not get data"@]);
            r
        },
        Some(u) => {
            let mut r: Vec<String> = Vec::new();
            r.push(labelled("User: ", u.user_id.as_str()));
            let ghost head = seq!["User: "@ + u.user_id@];
            assert(texts(r@) =~= head);
            let mut i: usize = 0;
            assert(stats_view(u.stats@).take(0) =~= Seq::<StatView>::empty());
            assert(head + Seq::<Seq<char>>::empty() =~= head);
            while i < u.stats.len()
                invariant
                    i <= u.stats@.len(),
                    head == seq!["User: "@ + u.user_id@],
                    texts(r@) == head + all_stat_lines(stats_view(u.stats@).take(i as int)),
                decreases u.stats@.len() - i,
            {
                let s: &Stat = &u.stats[i];
                let ghost before = texts(r@);
                r.push(labelled("Race: ", s.race.as_str()));
                let w = s.winrate.to_string_two_bits();
                r.push(labelled("Winrate: ", w.as_str()));
                let p = decimal(s.ranking_point);
                r.push(labelled("RankingPoints: ", p.as_str()));
                let ghost all = stats_view(u.stats@);
                assert(all.take(i + 1).drop_last() =~= all.take(i as int));
                assert(all.take(i + 1).last() == s@);
                assert(texts(r@) =~= before + stat_lines(s@));
                i = i + 1;
            }
            assert(stats_view(u.stats@).take(u.stats@.len() as int) =~= stats_view(u.stats@));
            r
        },
    }
}

/// What a cell of the winrate row shows for one race.
pub open spec fn cell_of(d: Seq<(Seq<char>, Real)>, race: Seq<char>) -> Seq<char> {
    match winrate_for(d, race) {
        Some(w) => w.two_places@,
        None => "no data"@,
    }
}

/// The winrate row of a pane: against random, human, orc, undead and night
/// elf, in that order; nothing where there is no player or no winrates.
pub open spec fn winrate_row_of(user: Option<User>) -> Option<Seq<Seq<char>>> {
    match user {
        Some(u) => match u.detail_winrate {
            Some(d) => Some(
                seq![
                    cell_of(d@, "random"@),
                    cell_of(d@, "human"@),
                    cell_of(d@, "orc"@),
                    cell_of(d@, "undead"@),
                    cell_of(d@, "night elf"@),
                ],
            ),
            None => None,
        },
        None => None,
    }
}

fn cell(d: &DetailWinrate, race: &str) -> (r: String)
    ensures
        r@ == cell_of(d@, race@),
{
    match d.get(race) {
        Some(w) => w.to_string_two_bits(),
        None => "no data".to_owned(),
    }
}

/// The cells of a pane's winrate row.
pub fn winrate_row(user: &Option<User>) -> (r: Option<Vec<String>>)
    ensures
        r matches Some(v) ==> winrate_row_of(*user) == Some(texts(v@)),
        r is None ==> winrate_row_of(*user) is None,
{
    match user {
        Some(u) => match &u.detail_winrate {
            Some(d) => {
                let mut v: Vec<String> = Vec::new();
                v.push(cell(d, "random"));
                v.push(cell(d, "human"));
                v.push(cell(d, "orc"));
                v.push(cell(d, "undead"));
                v.push(cell(d, "night elf"));
                assert(texts(v@) =~= winrate_row_of(*user)->0);
                Some(v)
            },
            None => None,
        },
        None => None,
    }
}

pub open spec fn winrate_header_of() -> Seq<Seq<char>> {
    seq!["VS Random"@, "VS Human"@, "VS Orc"@, "VS Undead"@, "VS Night Elf"@]
}

/// The header of the winrate row.
pub fn winrate_header() -> (r: Vec<String>)
    ensures
        texts(r@) == winrate_header_of(),
{
    let mut v: Vec<String> = Vec::new();
    v.push("VS Random".to_owned());
    v.push("VS Human".to_owned());
    v.push("VS Orc".to_owned());
    v.push("VS Undead".to_owned());
    v.push("VS Night Elf".to_owned());
    assert(texts(v@) =~= winrate_header_of());
    v
}

} // verus!
