//! Addresses of the statistics service, built from a percent-encoded player tag.
use vstd::prelude::*;

verus! {

/// What `urlencoding::encode` makes of a string.
pub uninterp spec fn url_encoded(s: Seq<char>) -> Seq<char>;

/// What `urlencoding::decode` makes of a string, where it succeeds.
pub uninterp spec fn url_decoded(s: Seq<char>) -> Option<Seq<char>>;

/// Relies on `urlencoding::encode`: every byte but ASCII letters, digits and
/// `-_.~` becomes `%XX`; the result depends on the string alone.
#[verifier::external_body]
fn url_encode(s: &str) -> (r: String)
    ensures
        r@ == url_encoded(s@),
{
    urlencoding::encode(s)
}

/// Where `t` is the encoding of a string, `r` holds that string.
pub open spec fn decodes_to_source(t: Seq<char>, r: Option<String>) -> bool {
    forall|s: Seq<char>| #[trigger] url_encoded(s) == t ==> (r matches Some(d) && d@ == s)
}

/// Relies on `urlencoding::decode`: it turns each `%XX` back into its byte and
/// reads the bytes as UTF-8, so that the encoding of a string decodes to it.
#[verifier::external_body]
fn url_decode(t: &str) -> (r: Option<String>)
    ensures
        r matches Some(d) ==> url_decoded(t@) == Some(d@),
        r is None ==> url_decoded(t@) is None,
        decodes_to_source(t@, r),
{
    urlencoding::decode(t).ok()
}

/// Encodes a player tag and decodes it again: the tag comes back unchanged.
pub fn round_trip(id: &str) -> (r: Option<String>)
    ensures
        r matches Some(s) && s@ == id@,
{
    let encoded = url_encode(id);
    url_decode(encoded.as_str())
}

pub open spec fn profile_url_of(id: Seq<char>) -> Seq<char> {
    "https://statistic-service.w3champions.com/api/players/"@ + url_encoded(id)
        + "/game-mode-stats?gateway=20&season=7"@
}

pub open spec fn detail_winrate_url_of(id: Seq<char>) -> Seq<char> {
    "https://website-backend.w3champions.com/api/player-stats/"@ + url_encoded(id)
        + "/race-on-map-versus-race?season=7"@
}

pub open spec fn ongoing_match_url_of(id: Seq<char>) -> Seq<char> {
    "https://statistic-service.w3champions.com/api/matches/ongoing/"@ + url_encoded(id)
}

/// The address of a player's statistics per game mode.
pub fn profile_url(id: &str) -> (r: String)
    ensures
        r@ == profile_url_of(id@),
{
    let mut r = "https://statistic-service.w3champions.com/api/players/".to_owned();
    let encoded = url_encode(id);
    r.append(encoded.as_str());
    r.append("/game-mode-stats?gateway=20&season=7");
    r
}

/// The address of a player's winrates against each race, map by map.
pub fn detail_winrate_url(id: &str) -> (r: String)
    ensures
        r@ == detail_winrate_url_of(id@),
{
    let mut r = "https://website-backend.w3champions.com/api/player-stats/".to_owned();
    let encoded = url_encode(id);
    r.append(encoded.as_str());
    r.append("/race-on-map-versus-race?season=7");
    r
}

/// The address of a player's ongoing match.
pub fn ongoing_match_url(id: &str) -> (r: String)
    ensures
        r@ == ongoing_match_url_of(id@),
{
    let mut r = "https://statistic-service.w3champions.com/api/matches/ongoing/".to_owned();
    let encoded = url_encode(id);
    r.append(encoded.as_str());
    r
}

} // verus!
