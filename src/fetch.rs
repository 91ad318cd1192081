//! The player data shown on screen, and how it is read from the statistics
//! service's responses.
use vstd::prelude::*;
use crate::json::{
    Json, Real, fold_json, index, as_int, as_real, as_text, as_elements, int_at, real_at, text_at,
    elements_at, lemma_fold_next, lemma_fold_fails, lemma_fold_settled,
};
use crate::race::{race_name, race_name_of, ALL_RACES};
use crate::url::round_trip;

verus! {

/// The statistics of one game mode.
pub struct Stat {
    pub race: String,
    pub winrate: Real,
    pub ranking_point: i64,
}

pub struct StatView {
    pub race: Seq<char>,
    pub winrate: Real,
    pub ranking_point: i64,
}

impl View for Stat {
    type V = StatView;

    open spec fn view(&self) -> StatView {
        StatView { race: self.race@, winrate: self.winrate, ranking_point: self.ranking_point }
    }
}

/// A player's winrates against each race, as (race name, winrate) pairs in
/// the order they were read. Where a name occurs more than once, the last pair
/// counts.
pub struct DetailWinrate {
    pub entries: Vec<(String, Real)>,
}

impl View for DetailWinrate {
    type V = Seq<(Seq<char>, Real)>;

    open spec fn view(&self) -> Seq<(Seq<char>, Real)> {
        self.entries@.map_values(|e: (String, Real)| (e.0@, e.1))
    }
}

/// The winrate recorded for `race`: the last pair that names it.
pub open spec fn winrate_for(d: Seq<(Seq<char>, Real)>, race: Seq<char>) -> Option<Real>
    decreases d.len(),
{
    if d.len() == 0 {
        None
    } else if d.last().0 == race {
        Some(d.last().1)
    } else {
        winrate_for(d.drop_last(), race)
    }
}

impl DetailWinrate {
    /// The winrate against `race`.
    pub fn get(&self, race: &str) -> (r: Option<&Real>)
        ensures
            match r {
                Some(w) => winrate_for(self@, race@) == Some(*w),
                None => winrate_for(self@, race@) is None,
            },
    {
        let key = race.to_owned();
        let mut i: usize = self.entries.len();
        assert(self@.take(i as int) =~= self@);
        while i > 0
            invariant
                i <= self.entries@.len(),
                key@ == race@,
                winrate_for(self@, race@) == winrate_for(self@.take(i as int), race@),
            decreases i,
        {
            assert(self@.take(i as int).drop_last() =~= self@.take(i - 1));
            if self.entries[i - 1].0 == key {
                return Some(&self.entries[i - 1].1);
            }
            i = i - 1;
        }
        None
    }
}

/// A player, with the statistics of each game mode and, where they could be
/// read, the winrates against each race.
pub struct User {
    pub user_id: String,
    pub stats: Vec<Stat>,
    pub detail_winrate: Option<DetailWinrate>,
}

pub open spec fn stats_view(v: Seq<Stat>) -> Seq<StatView> {
    v.map_values(|s: Stat| s@)
}

/// What the screen shows: the player, and the current opponent if one was found.
pub struct Data {
    pub user: Option<User>,
    pub opponent: Option<User>,
}

impl Data {
    /// The data at start: the player as read, and no opponent yet.
    pub fn new(user: Option<User>) -> (r: Data)
        ensures
            r.user == user,
            r.opponent is None,
    {
        Data { user, opponent: None }
    }
}

// ---- statistics per game mode ----

/// What one element of the statistics array gives: nothing where it is
/// malformed (a race code with no float `winrate` or no integer
/// `rankingPoints`), `Some(None)` where it is skipped (no integer race code, or
/// one that names no race), and the statistic otherwise.
pub open spec fn stat_entry(e: Json) -> Option<Option<StatView>> {
    match as_int(index(e, "race"@)) {
        None => Some(None),
        Some(code) => match (as_real(index(e, "winrate"@)), as_int(index(e, "rankingPoints"@))) {
            (Some(w), Some(p)) => match race_name_of(code) {
                Some(name) => Some(Some(StatView { race: name, winrate: w, ranking_point: p })),
                None => Some(None),
            },
            _ => None,
        },
    }
}

pub open spec fn stat_step() -> spec_fn(Seq<StatView>, Json) -> Option<Seq<StatView>> {
    |acc: Seq<StatView>, e: Json|
        match stat_entry(e) {
            None => None,
            Some(None) => Some(acc),
            Some(Some(s)) => Some(acc.push(s)),
        }
}

/// The statistics that a response of the statistics endpoint holds: it must
/// be an array, and one malformed element spoils the whole.
pub open spec fn stats_of(body: Json) -> Option<Seq<StatView>> {
    match as_elements(body) {
        Some(es) => fold_json(es, Seq::empty(), stat_step()),
        None => None,
    }
}

fn read_stat(e: &Json) -> (r: Option<Option<Stat>>)
    ensures
        r is None ==> stat_entry(*e) is None,
        r matches Some(None) ==> stat_entry(*e) == Some(None::<StatView>),
        r matches Some(Some(s)) ==> stat_entry(*e) == Some(Some(s@)),
{
    let code = match int_at(e, "race") {
        Some(c) => c,
        None => return Some(None),
    };
    let winrate = real_at(e, "winrate");
    let points = int_at(e, "rankingPoints");
    match (winrate, points) {
        (Some(w), Some(p)) => match race_name(code) {
            Some(name) => Some(Some(Stat { race: name, winrate: w.duplicate(), ranking_point: p })),
            None => Some(None),
        },
        _ => None,
    }
}

/// Reads the statistics out of a response of the statistics endpoint.
pub fn parse_stats(body: &Json) -> (r: Option<Vec<Stat>>)
    ensures
        r matches Some(v) ==> stats_of(*body) == Some(stats_view(v@)),
        r is None ==> stats_of(*body) is None,
{
    let es = match body.as_elements() {
        Some(es) => es,
        None => return None,
    };
    let mut out: Vec<Stat> = Vec::new();
    let mut i: usize = 0;
    assert(es@.take(0) =~= Seq::<Json>::empty());
    assert(stats_view(out@) =~= Seq::<StatView>::empty());
    while i < es.len()
        invariant
            i <= es@.len(),
            as_elements(*body) == Some(es@),
            fold_json(es@.take(i as int), Seq::empty(), stat_step()) == Some(stats_view(out@)),
        decreases es@.len() - i,
    {
        proof {
            lemma_fold_next(es@, i as int, Seq::empty(), stat_step());
        }
        match read_stat(&es[i]) {
            None => {
                proof {
                    lemma_fold_fails(es@, i + 1, Seq::empty(), stat_step());
                }
                return None;
            },
            Some(None) => {},
            Some(Some(s)) => {
                let ghost before = out@;
                out.push(s);
                assert(stats_view(out@) =~= stats_view(before).push(s@));
            },
        }
        i = i + 1;
    }
    assert(es@.take(es@.len() as int) =~= es@);
    Some(out)
}

/// What came back from one request to the statistics service.
pub enum Response {
    /// The request failed on the way: no connection, no answer, a bad status.
    Unreachable,
    /// An answer came whose body is not JSON.
    Unreadable,
    /// An answer with a JSON body.
    Body(Json),
}

/// The one failure that the dashboard does not turn into "no data".
#[derive(PartialEq, Eq, Structural, Debug)]
pub enum FetchError {
    /// The ongoing-match endpoint could not be reached.
    MatchUnreachable,
}

impl Data {
    /// The player `id` as the statistics endpoint's response gives them,
    /// without winrates per race: nothing where the request failed or the
    /// body cannot be read.
    pub fn fetch_player_profile(id: &str, resp: &Response) -> (r: Option<User>)
        ensures
            r is None <==> !(*resp matches Response::Body(b) && stats_of(b) is Some),
            r matches Some(u) ==> u.user_id@ == id@ && u.detail_winrate is None && (*resp matches Response::Body(
                b,
            ) && stats_of(b) == Some(stats_view(u.stats@))),
    {
        let body = match resp {
            Response::Body(b) => b,
            _ => return None,
        };
        let stats = match parse_stats(body) {
            Some(s) => s,
            None => return None,
        };
        match round_trip(id) {
            Some(user_id) => Some(User { user_id, stats, detail_winrate: None }),
            None => None,
        }
    }
}

// ---- winrates against each race ----

/// One element of `winLosses`: an integer race code that names a race, and a
/// float `winrate`.
pub open spec fn win_loss_entry(e: Json) -> Option<(Seq<char>, Real)> {
    match as_int(index(e, "race"@)) {
        None => None,
        Some(code) => match race_name_of(code) {
            None => None,
            Some(name) => match as_real(index(e, "winrate"@)) {
                None => None,
                Some(w) => Some((name, w)),
            },
        },
    }
}

pub open spec fn win_loss_step() -> spec_fn(Seq<(Seq<char>, Real)>, Json) -> Option<Seq<(Seq<char>, Real)>> {
    |acc: Seq<(Seq<char>, Real)>, e: Json|
        match win_loss_entry(e) {
            None => None,
            Some(p) => Some(acc.push(p)),
        }
}

/// One element of `winLossesOnMap`: the one whose `map` is "Overall" adds
/// each of its `winLosses`; the others add nothing.
pub open spec fn map_step() -> spec_fn(Seq<(Seq<char>, Real)>, Json) -> Option<Seq<(Seq<char>, Real)>> {
    |acc: Seq<(Seq<char>, Real)>, m: Json|
        if as_text(index(m, "map"@)) == Some("Overall"@) {
            match as_elements(index(m, "winLosses"@)) {
                None => None,
                Some(ws) => fold_json(ws, acc, win_loss_step()),
            }
        } else {
            Some(acc)
        }
}

/// One element of `raceWinsOnMapByPatch.All`: it must have an integer race
/// code; the one for all races combined adds each of its maps.
pub open spec fn race_step() -> spec_fn(Seq<(Seq<char>, Real)>, Json) -> Option<Seq<(Seq<char>, Real)>> {
    |acc: Seq<(Seq<char>, Real)>, r: Json|
        match as_int(index(r, "race"@)) {
            None => None,
            Some(code) => if code == ALL_RACES {
                match as_elements(index(r, "winLossesOnMap"@)) {
                    None => None,
                    Some(ms) => fold_json(ms, acc, map_step()),
                }
            } else {
                Some(acc)
            },
        }
}

/// The winrates against each race that a response of the per-race endpoint
/// holds; any missing field or wrong type on the way spoils the whole.
pub open spec fn detail_winrate_of(body: Json) -> Option<Seq<(Seq<char>, Real)>> {
    match as_elements(index(index(body, "raceWinsOnMapByPatch"@), "All"@)) {
        None => None,
        Some(rs) => fold_json(rs, Seq::empty(), race_step()),
    }
}

fn add_win_losses(ws: &Vec<Json>, start: DetailWinrate) -> (r: Option<DetailWinrate>)
    ensures
        r matches Some(d) ==> fold_json(ws@, start@, win_loss_step()) == Some(d@),
        r is None ==> fold_json(ws@, start@, win_loss_step()) is None,
{
    let ghost init = start@;
    let mut acc = start;
    let mut i: usize = 0;
    assert(ws@.take(0) =~= Seq::<Json>::empty());
    while i < ws.len()
        invariant
            i <= ws@.len(),
            init == start@,
            fold_json(ws@.take(i as int), init, win_loss_step()) == Some(acc@),
        decreases ws@.len() - i,
    {
        proof {
            lemma_fold_next(ws@, i as int, init, win_loss_step());
        }
        let e = &ws[i];
        let name = match int_at(e, "race") {
            Some(code) => race_name(code),
            None => None,
        };
        let w = real_at(e, "winrate");
        match (name, w) {
            (Some(name), Some(w)) => {
                let ghost before = acc@;
                let ghost named = name@;
                acc.entries.push((name, w.duplicate()));
                assert(acc@ =~= before.push((named, *w)));
            },
            _ => {
                proof {
                    assert(win_loss_entry(ws@[i as int]) is None);
                    lemma_fold_fails(ws@, i + 1, init, win_loss_step());
                }
                return None;
            },
        }
        i = i + 1;
    }
    assert(ws@.take(ws@.len() as int) =~= ws@);
    Some(acc)
}

fn add_maps(ms: &Vec<Json>, start: DetailWinrate) -> (r: Option<DetailWinrate>)
    ensures
        r matches Some(d) ==> fold_json(ms@, start@, map_step()) == Some(d@),
        r is None ==> fold_json(ms@, start@, map_step()) is None,
{
    let ghost init = start@;
    let mut acc = start;
    let mut i: usize = 0;
    assert(ms@.take(0) =~= Seq::<Json>::empty());
    while i < ms.len()
        invariant
            i <= ms@.len(),
            init == start@,
            fold_json(ms@.take(i as int), init, map_step()) == Some(acc@),
        decreases ms@.len() - i,
    {
        proof {
            lemma_fold_next(ms@, i as int, init, map_step());
        }
        let m = &ms[i];
        let overall = match text_at(m, "map") {
            Some(t) => *t == "Overall".to_owned(),
            None => false,
        };
        proof {
            reveal_strlit("Overall");
        }
        if overall {
            match elements_at(m, "winLosses") {
                Some(ws) => match add_win_losses(ws, acc) {
                    Some(d) => {
                        acc = d;
                    },
                    None => {
                        proof {
                            lemma_fold_fails(ms@, i + 1, init, map_step());
                        }
                        return None;
                    },
                },
                None => {
                    proof {
                        lemma_fold_fails(ms@, i + 1, init, map_step());
                    }
                    return None;
                },
            }
        }
        i = i + 1;
    }
    assert(ms@.take(ms@.len() as int) =~= ms@);
    Some(acc)
}

fn add_races(rs: &Vec<Json>, start: DetailWinrate) -> (r: Option<DetailWinrate>)
    ensures
        r matches Some(d) ==> fold_json(rs@, start@, race_step()) == Some(d@),
        r is None ==> fold_json(rs@, start@, race_step()) is None,
{
    let ghost init = start@;
    let mut acc = start;
    let mut i: usize = 0;
    assert(rs@.take(0) =~= Seq::<Json>::empty());
    while i < rs.len()
        invariant
            i <= rs@.len(),
            init == start@,
            fold_json(rs@.take(i as int), init, race_step()) == Some(acc@),
        decreases rs@.len() - i,
    {
        proof {
            lemma_fold_next(rs@, i as int, init, race_step());
        }
        let r = &rs[i];
        match int_at(r, "race") {
            None => {
                proof {
                    lemma_fold_fails(rs@, i + 1, init, race_step());
                }
                return None;
            },
            Some(code) => {
                if code == ALL_RACES {
                    match elements_at(r, "winLossesOnMap") {
                        Some(ms) => match add_maps(ms, acc) {
                            Some(d) => {
                                acc = d;
                            },
                            None => {
                                proof {
                                    lemma_fold_fails(rs@, i + 1, init, race_step());
                                }
                                return None;
                            },
                        },
                        None => {
                            proof {
                                lemma_fold_fails(rs@, i + 1, init, race_step());
                            }
                            return None;
                        },
                    }
                }
            },
        }
        i = i + 1;
    }
    assert(rs@.take(rs@.len() as int) =~= rs@);
    Some(acc)
}

/// Reads the winrates against each race out of a response of the per-race
/// endpoint: nothing where the request failed or the body cannot be read.
pub fn fetch_detail_winrate(resp: &Response) -> (r: Option<DetailWinrate>)
    ensures
        r is None <==> !(*resp matches Response::Body(b) && detail_winrate_of(b) is Some),
        r matches Some(d) ==> (*resp matches Response::Body(b) && detail_winrate_of(b) == Some(d@)),
{
    let body = match resp {
        Response::Body(b) => b,
        _ => return None,
    };
    let all = match body.get("raceWinsOnMapByPatch") {
        Some(patches) => elements_at(patches, "All"),
        None => None,
    };
    match all {
        Some(rs) => {
            let empty = DetailWinrate { entries: Vec::new() };
            assert(empty@ =~= Seq::<(Seq<char>, Real)>::empty());
            add_races(rs, empty)
        },
        None => None,
    }
}

// ---- the ongoing match ----

pub open spec fn player_step(me: Seq<char>) -> spec_fn(Option<Seq<char>>, Json) -> Option<Option<Seq<char>>> {
    |acc: Option<Seq<char>>, p: Json|
        if acc is Some {
            Some(acc)
        } else {
            match as_text(index(p, "battleTag"@)) {
                None => None,
                Some(tag) => if tag != me {
                    Some(Some(tag))
                } else {
                    Some(None)
                },
            }
        }
}

pub open spec fn team_step(me: Seq<char>) -> spec_fn(Option<Seq<char>>, Json) -> Option<Option<Seq<char>>> {
    |acc: Option<Seq<char>>, t: Json|
        if acc is Some {
            Some(acc)
        } else {
            match as_elements(index(t, "players"@)) {
                None => None,
                Some(ps) => fold_json(ps, acc, player_step(me)),
            }
        }
}

/// The opponent in a response of the ongoing-match endpoint: the first
/// `battleTag`, across `teams[*].players[*]` in order, that is not `me`.
/// A missing or mistyped field met before it leaves no opponent.
pub open spec fn opponent_of(me: Seq<char>, body: Json) -> Option<Seq<char>> {
    match as_elements(index(body, "teams"@)) {
        None => None,
        Some(ts) => match fold_json(ts, None, team_step(me)) {
            Some(Some(tag)) => Some(tag),
            _ => None,
        },
    }
}

impl Data {
    /// The tag of the opponent of `user_id` in a response of the ongoing-match
    /// endpoint.
    pub fn inner_fetch_ongoing_match(user_id: &String, resp_json: &Json) -> (r: Option<String>)
        ensures
            r matches Some(t) ==> opponent_of(user_id@, *resp_json) == Some(t@),
            r is None ==> opponent_of(user_id@, *resp_json) is None,
    {
        let ghost me = user_id@;
        let teams = match elements_at(resp_json, "teams") {
            Some(ts) => ts,
            None => return None,
        };
        let mut i: usize = 0;
        assert(teams@.take(0) =~= Seq::<Json>::empty());
        while i < teams.len()
            invariant
                i <= teams@.len(),
                me == user_id@,
                as_elements(index(*resp_json, "teams"@)) == Some(teams@),
                fold_json(teams@.take(i as int), None, team_step(me)) == Some(None::<Seq<char>>),
            decreases teams@.len() - i,
        {
            proof {
                lemma_fold_next(teams@, i as int, None, team_step(me));
            }
            let players = match elements_at(&teams[i], "players") {
                Some(ps) => ps,
                None => {
                    proof {
                        lemma_fold_fails(teams@, i + 1, None, team_step(me));
                    }
                    return None;
                },
            };
            let mut j: usize = 0;
            assert(players@.take(0) =~= Seq::<Json>::empty());
            while j < players.len()
                invariant
                    i < teams@.len(),
                    j <= players@.len(),
                    me == user_id@,
                    as_elements(index(*resp_json, "teams"@)) == Some(teams@),
                    as_elements(index(teams@[i as int], "players"@)) == Some(players@),
                    fold_json(teams@.take(i as int), None, team_step(me)) == Some(None::<Seq<char>>),
                    fold_json(players@.take(j as int), None, player_step(me)) == Some(None::<Seq<char>>),
                decreases players@.len() - j,
            {
                proof {
                    lemma_fold_next(players@, j as int, None, player_step(me));
                }
                match text_at(&players[j], "battleTag") {
                    None => {
                        proof {
                            lemma_fold_fails(players@, j + 1, None, player_step(me));
                            lemma_fold_next(teams@, i as int, None, team_step(me));
                            lemma_fold_fails(teams@, i + 1, None, team_step(me));
                        }
                        return None;
                    },
                    Some(tag) => {
                        if *tag != *user_id {
                            proof {
                                let found = Some(tag@);
                                assert forall|e: Json| #[trigger] player_step(me)(found, e) == Some(found) by {}
                                lemma_fold_settled(players@, j + 1, None, player_step(me), found);
                                assert forall|e: Json| #[trigger] team_step(me)(found, e) == Some(found) by {}
                                lemma_fold_next(teams@, i as int, None, team_step(me));
                                lemma_fold_settled(teams@, i + 1, None, team_step(me), found);
                            }
                            return Some(tag.clone());
                        }
                    },
                }
                j = j + 1;
            }
            assert(players@.take(players@.len() as int) =~= players@);
            i = i + 1;
        }
        assert(teams@.take(teams@.len() as int) =~= teams@);
        None
    }
}

/// `t` is the opponent of `me` in the ongoing-match response `body`, or
/// nothing where it names none.
pub open spec fn is_opponent_tag(me: Seq<char>, body: Json, t: Option<String>) -> bool {
    match t {
        Some(tag) => opponent_of(me, body) == Some(tag@),
        None => opponent_of(me, body) is None,
    }
}

impl Data {
    /// Takes the ongoing-match endpoint's response for the player. Where the
    /// endpoint could not be reached, fails and changes nothing. Otherwise
    /// clears the opponent and gives the tag of the new one, if the body names
    /// one; the caller then fetches that tag's profile.
    pub fn fetch_ongoing_match(&mut self, resp: &Response) -> (r: Result<Option<String>, FetchError>)
        requires
            old(self).user is Some,
        ensures
            *resp is Unreachable ==> r == Err::<Option<String>, FetchError>(FetchError::MatchUnreachable)
                && *final(self) == *old(self),
            *resp is Unreadable ==> r == Ok::<Option<String>, FetchError>(None) && final(self).user == old(
                self,
            ).user && final(self).opponent is None,
            *resp matches Response::Body(b) ==> (final(self).user == old(self).user
                && final(self).opponent is None && r is Ok && is_opponent_tag(
                old(self).user->0.user_id@,
                b,
                r->Ok_0,
            )),
    {
        match resp {
            Response::Unreachable => Err(FetchError::MatchUnreachable),
            Response::Unreadable => {
                self.opponent = None;
                Ok(None)
            },
            Response::Body(b) => {
                self.opponent = None;
                match &self.user {
                    Some(u) => Ok(Data::inner_fetch_ongoing_match(&u.user_id, b)),
                    None => Ok(None),
                }
            },
        }
    }
}

// ---- laws of the readers ----

/// An element of the statistics array that is either skipped for want of an
/// integer race code, or has a float `winrate` and an integer `rankingPoints`.
pub open spec fn valid_stat_entry(e: Json) -> bool {
    as_int(index(e, "race"@)) is Some ==> as_real(index(e, "winrate"@)) is Some && as_int(
        index(e, "rankingPoints"@),
    ) is Some
}

/// The statistic that an element stands for, where its race code names a race.
pub open spec fn named_stat(e: Json) -> Option<StatView> {
    match (as_int(index(e, "race"@)), as_real(index(e, "winrate"@)), as_int(index(e, "rankingPoints"@))) {
        (Some(code), Some(w), Some(p)) => match race_name_of(code) {
            Some(name) => Some(StatView { race: name, winrate: w, ranking_point: p }),
            None => None,
        },
        _ => None,
    }
}

proof fn lemma_valid_stats_fold(es: Seq<Json>)
    requires
        forall|i: int| 0 <= i < es.len() ==> valid_stat_entry(#[trigger] es[i]),
    ensures
        fold_json(es, Seq::empty(), stat_step()) == Some(es.filter_map(|e: Json| named_stat(e))),
    decreases es.len(),
{
    if es.len() > 0 {
        let rest = es.drop_last();
        assert forall|i: int| 0 <= i < rest.len() implies valid_stat_entry(#[trigger] rest[i]) by {
            assert(rest[i] == es[i]);
        }
        lemma_valid_stats_fold(rest);
        assert(valid_stat_entry(es[es.len() - 1]));
    }
}

/// Of an array of well-formed statistics, the elements whose race code is
/// missing or names no race are left out, and all the others are kept, in
/// their order.
pub proof fn lemma_stats_keep_named_races(body: Json, es: Seq<Json>)
    requires
        as_elements(body) == Some(es),
        forall|i: int| 0 <= i < es.len() ==> valid_stat_entry(#[trigger] es[i]),
    ensures
        stats_of(body) == Some(es.filter_map(|e: Json| named_stat(e))),
{
    lemma_valid_stats_fold(es);
}

/// One element with an integer race code but no float `winrate` or no integer
/// `rankingPoints` leaves no statistics at all, and so no profile.
pub proof fn lemma_malformed_stat_spoils_all(body: Json, es: Seq<Json>, k: int)
    requires
        as_elements(body) == Some(es),
        0 <= k < es.len(),
        as_int(index(es[k], "race"@)) is Some,
        as_real(index(es[k], "winrate"@)) is None || as_int(index(es[k], "rankingPoints"@)) is None,
    ensures
        stats_of(body) is None,
{
    lemma_fold_next(es, k, Seq::empty(), stat_step());
    lemma_fold_fails(es, k + 1, Seq::empty(), stat_step());
}

pub open spec fn tagged(p: Json, tag: Seq<char>) -> bool {
    as_text(index(p, "battleTag"@)) == Some(tag)
}

proof fn lemma_players_fold(me: Seq<char>, other: Seq<char>, ps: Seq<Json>)
    requires
        other != me,
        forall|i: int| 0 <= i < ps.len() ==> tagged(#[trigger] ps[i], me) || tagged(ps[i], other),
    ensures
        fold_json(ps, None, player_step(me)) == if exists|i: int| 0 <= i < ps.len() && tagged(#[trigger] ps[i], other) {
            Some(Some(other))
        } else {
            Some(None::<Seq<char>>)
        },
    decreases ps.len(),
{
    if ps.len() > 0 {
        let rest = ps.drop_last();
        assert forall|i: int| 0 <= i < rest.len() implies tagged(#[trigger] rest[i], me) || tagged(rest[i], other) by {
            assert(rest[i] == ps[i]);
        }
        lemma_players_fold(me, other, rest);
        if exists|i: int| 0 <= i < rest.len() && tagged(#[trigger] rest[i], other) {
            let i = choose|i: int| 0 <= i < rest.len() && tagged(#[trigger] rest[i], other);
            assert(tagged(ps[i], other));
        } else if tagged(ps[ps.len() - 1], other) {
        } else {
            assert(tagged(ps[ps.len() - 1], me));
            assert forall|i: int| 0 <= i < ps.len() implies !tagged(#[trigger] ps[i], other) by {
                if i < ps.len() - 1 {
                    assert(rest[i] == ps[i]);
                }
            }
        }
    }
}

/// With the player alone in the first team and another tag in the second
/// (beside, perhaps, the player's own), the opponent is that other tag.
pub proof fn lemma_opponent_from_other_team(
    me: Seq<char>,
    other: Seq<char>,
    body: Json,
    first: Json,
    second: Json,
    ps1: Seq<Json>,
    ps2: Seq<Json>,
)
    requires
        other != me,
        as_elements(index(body, "teams"@)) == Some(seq![first, second]),
        as_elements(index(first, "players"@)) == Some(ps1),
        as_elements(index(second, "players"@)) == Some(ps2),
        forall|i: int| 0 <= i < ps1.len() ==> tagged(#[trigger] ps1[i], me),
        forall|i: int| 0 <= i < ps2.len() ==> tagged(#[trigger] ps2[i], me) || tagged(ps2[i], other),
        exists|i: int| 0 <= i < ps2.len() && tagged(#[trigger] ps2[i], other),
    ensures
        opponent_of(me, body) == Some(other),
{
    lemma_players_fold(me, other, ps1);
    assert(!exists|i: int| 0 <= i < ps1.len() && tagged(#[trigger] ps1[i], other));
    lemma_players_fold(me, other, ps2);
    let teams = seq![first, second];
    assert(teams.drop_last() =~= seq![first]);
    assert(seq![first].drop_last() =~= Seq::<Json>::empty());
    assert(fold_json(Seq::<Json>::empty(), None, team_step(me)) == Some(None::<Seq<char>>));
    assert(seq![first].last() == first);
    assert(team_step(me)(None, first) == Some(None::<Seq<char>>));
    assert(fold_json(seq![first], None, team_step(me)) == Some(None::<Seq<char>>));
    assert(teams.last() == second);
    assert(team_step(me)(None, second) == Some(Some(other)));
    assert(fold_json(teams, None, team_step(me)) == Some(Some(other)));
}

} // verus!
