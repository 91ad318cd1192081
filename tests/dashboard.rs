use w3dash::fetch::{fetch_detail_winrate, Data, DetailWinrate, FetchError, Response, Stat, User};
use w3dash::json::{Json, JsonNumber, Real};
use w3dash::race::race_name;
use w3dash::render::{decimal, player_lines, winrate_header, winrate_row, Formatf64};
use w3dash::schedule::tick_due;
use w3dash::url::{detail_winrate_url, ongoing_match_url, profile_url, round_trip};

fn real_of(x: f64) -> Real {
    Real { bits: x.to_bits(), two_places: format!("{:.2}", x) }
}

fn integer(n: i64) -> Json {
    Json::Number(JsonNumber { int: Some(n), real: real_of(n as f64) })
}

fn float(x: f64) -> Json {
    Json::Number(JsonNumber { int: None, real: real_of(x) })
}

fn text(s: &str) -> Json {
    Json::Str(s.to_string())
}

fn obj(members: Vec<(&str, Json)>) -> Json {
    Json::Object(members.into_iter().map(|(k, v)| (k.to_string(), v)).collect())
}

fn stat(race: i64, winrate: f64, points: i64) -> Json {
    obj(vec![("race", integer(race)), ("winrate", float(winrate)), ("rankingPoints", integer(points))])
}

fn win_loss(race: i64, winrate: f64) -> Json {
    obj(vec![("race", integer(race)), ("winrate", float(winrate))])
}

fn detail_body(win_losses: Vec<Json>) -> Json {
    let overall = obj(vec![("map", text("Overall")), ("winLosses", Json::Array(win_losses))]);
    let other_map = obj(vec![("map", text("Echo Isles")), ("winLosses", Json::Null)]);
    let all_races = obj(vec![
        ("race", integer(16)),
        ("winLossesOnMap", Json::Array(vec![other_map, overall])),
    ]);
    let human = obj(vec![("race", integer(1)), ("winLossesOnMap", Json::Null)]);
    obj(vec![(
        "raceWinsOnMapByPatch",
        obj(vec![("All", Json::Array(vec![human, all_races]))]),
    )])
}

fn five_races() -> Vec<Json> {
    vec![
        win_loss(0, 0.5),
        win_loss(1, 0.333),
        win_loss(2, 0.25),
        win_loss(4, 0.75),
        win_loss(8, 1.0),
    ]
}

fn player(tag: &str) -> Json {
    obj(vec![("battleTag", text(tag))])
}

fn match_body(teams: Vec<Vec<&str>>) -> Json {
    let teams = teams
        .into_iter()
        .map(|t| obj(vec![("players", Json::Array(t.into_iter().map(player).collect()))]))
        .collect();
    obj(vec![("teams", Json::Array(teams))])
}

fn user(id: &str) -> User {
    User { user_id: id.to_string(), stats: Vec::new(), detail_winrate: None }
}

#[test]
fn test_get_player_profile() {
    let body = Json::Array(vec![stat(1, 0.6, 1500), stat(2, 0.4, 1200)]);
    let data = Data::new(Data::fetch_player_profile("Foo#1", &Response::Body(body)));
    let u = data.user.as_ref().unwrap();
    assert_eq!(u.user_id, "Foo#1");
    assert_eq!(u.stats.len(), 2);
    assert_eq!(u.stats[1].race, "orc");
    assert_eq!(u.stats[1].ranking_point, 1200);
    assert!(data.opponent.is_none());
}

#[test]
fn test_fetch_ongoing_match() {
    let mut data = Data::new(Some(user("Foo#1")));
    let body = match_body(vec![vec!["Foo#1"], vec!["Bar#2"]]);
    let tag = Data::inner_fetch_ongoing_match(&data.user.as_ref().unwrap().user_id, &body);
    assert_eq!(tag.as_deref(), Some("Bar#2"));
    let stats = Json::Array(vec![stat(8, 0.55, 1700)]);
    data.opponent = Data::fetch_player_profile(tag.as_deref().unwrap(), &Response::Body(stats));
    assert_eq!(data.opponent.as_ref().unwrap().user_id, "Bar#2");
    assert_eq!(data.opponent.as_ref().unwrap().stats[0].race, "undead");
}

#[test]
fn test_fetch_detail_winrate() {
    assert_eq!(round_trip("GenÃª#1875").as_deref(), Some("GenÃª#1875"));
    let d = fetch_detail_winrate(&Response::Body(detail_body(five_races()))).unwrap();
    assert_eq!(d.get("random").unwrap().two_places, "0.50");
    assert_eq!(d.get("human").unwrap().two_places, "0.33");
    assert_eq!(d.get("night elf").unwrap().two_places, "0.75");
    assert_eq!(d.get("undead").unwrap().bits, 1.0f64.to_bits());
}

#[test]
fn unnamed_and_missing_races_are_left_out_in_order() {
    let body = Json::Array(vec![
        stat(4, 0.7, 1000),
        stat(3, 0.1, 10),
        obj(vec![("winrate", float(0.2)), ("rankingPoints", integer(20))]),
        obj(vec![("race", Json::Null), ("winrate", float(0.2))]),
        stat(0, 0.3, 900),
        text("not an object"),
    ]);
    let u = Data::fetch_player_profile("A#1", &Response::Body(body)).unwrap();
    let races: Vec<&str> = u.stats.iter().map(|s| s.race.as_str()).collect();
    assert_eq!(races, vec!["night elf", "random"]);
    assert_eq!(u.stats[0].ranking_point, 1000);
    assert_eq!(u.stats[1].ranking_point, 900);
}

#[test]
fn missing_winrate_spoils_the_profile() {
    let body = Json::Array(vec![
        stat(1, 0.6, 1500),
        obj(vec![("race", integer(2)), ("rankingPoints", integer(100))]),
    ]);
    assert!(Data::fetch_player_profile("A#1", &Response::Body(body)).is_none());
}

#[test]
fn missing_ranking_points_spoils_the_profile() {
    let body = Json::Array(vec![obj(vec![("race", integer(99)), ("winrate", float(0.5))]), stat(1, 0.6, 1)]);
    assert!(Data::fetch_player_profile("A#1", &Response::Body(body)).is_none());
}

#[test]
fn profile_body_must_be_an_array() {
    assert!(Data::fetch_player_profile("A#1", &Response::Body(obj(vec![]))).is_none());
    assert!(Data::fetch_player_profile("A#1", &Response::Body(Json::Array(vec![]))).unwrap().stats.is_empty());
}

#[test]
fn tag_with_reserved_characters_round_trips() {
    assert_eq!(round_trip("Name#1234").as_deref(), Some("Name#1234"));
    assert_eq!(round_trip("a b/c?d&e").as_deref(), Some("a b/c?d&e"));
}

#[test]
fn addresses_hold_the_encoded_tag() {
    assert_eq!(
        profile_url("Name#1234"),
        "https://statistic-service.w3champions.com/api/players/Name%231234/game-mode-stats?gateway=20&season=7"
    );
    assert_eq!(
        detail_winrate_url("Name#1234"),
        "https://website-backend.w3champions.com/api/player-stats/Name%231234/race-on-map-versus-race?season=7"
    );
    assert_eq!(
        ongoing_match_url("Name#1234"),
        "https://statistic-service.w3champions.com/api/matches/ongoing/Name%231234"
    );
}

#[test]
fn two_places_of_winrates() {
    assert_eq!(real_of(0.5).to_string_two_bits(), "0.50");
    assert_eq!(real_of(0.333).to_string_two_bits(), "0.33");
    assert_eq!(real_of(1.0).to_string_two_bits(), "1.00");
    assert_eq!(real_of(0.0).to_string_two_bits(), "0.00");
}

#[test]
fn opponent_is_the_other_team() {
    let body = match_body(vec![vec!["Foo#1"], vec!["Bar#2"]]);
    let tag = Data::inner_fetch_ongoing_match(&"Foo#1".to_string(), &body);
    assert_eq!(tag.as_deref(), Some("Bar#2"));
    let body = match_body(vec![vec!["Foo#1", "Foo#1"], vec!["Foo#1", "Baz#3", "Qux#4"]]);
    let tag = Data::inner_fetch_ongoing_match(&"Foo#1".to_string(), &body);
    assert_eq!(tag.as_deref(), Some("Baz#3"));
}

#[test]
fn malformed_match_gives_no_opponent() {
    let me = "Foo#1".to_string();
    assert!(Data::inner_fetch_ongoing_match(&me, &obj(vec![])).is_none());
    let body = obj(vec![("teams", Json::Array(vec![obj(vec![])]))]);
    assert!(Data::inner_fetch_ongoing_match(&me, &body).is_none());
    let body = obj(vec![(
        "teams",
        Json::Array(vec![obj(vec![("players", Json::Array(vec![obj(vec![("battleTag", integer(3))])]))])]),
    )]);
    assert!(Data::inner_fetch_ongoing_match(&me, &body).is_none());
    let found_first = obj(vec![(
        "teams",
        Json::Array(vec![
            obj(vec![("players", Json::Array(vec![player("Bar#2")]))]),
            obj(vec![]),
        ]),
    )]);
    assert_eq!(Data::inner_fetch_ongoing_match(&me, &found_first).as_deref(), Some("Bar#2"));
}

#[test]
fn only_self_in_match_leaves_no_opponent() {
    let body = match_body(vec![vec!["Foo#1"], vec!["Foo#1"]]);
    let mut data = Data::new(Some(user("Foo#1")));
    data.opponent = Some(user("Old#9"));
    assert_eq!(data.fetch_ongoing_match(&Response::Body(body)), Ok(None));
    assert!(data.opponent.is_none());
    assert_eq!(player_lines(&data.opponent), vec!["did not get data".to_string()]);
    assert!(winrate_row(&data.opponent).is_none());
}

#[test]
fn full_profile_renders_stat_lines_and_winrates() {
    let body = Json::Array(vec![stat(1, 0.6, 1500)]);
    let mut u = Data::fetch_player_profile("Foo#1", &Response::Body(body)).unwrap();
    u.detail_winrate = fetch_detail_winrate(&Response::Body(detail_body(five_races())));
    let data = Data::new(Some(u));
    assert_eq!(
        player_lines(&data.user),
        vec!["User: Foo#1", "Race: human", "Winrate: 0.60", "RankingPoints: 1500"]
    );
    assert_eq!(
        winrate_row(&data.user).unwrap(),
        vec!["0.50", "0.33", "0.25", "1.00", "0.75"]
    );
    assert_eq!(
        winrate_header(),
        vec!["VS Random", "VS Human", "VS Orc", "VS Undead", "VS Night Elf"]
    );
}

#[test]
fn unreachable_profile_renders_placeholder() {
    let data = Data::new(None);
    assert_eq!(player_lines(&data.user), vec!["did not get data".to_string()]);
    assert_eq!(player_lines(&data.opponent), vec!["did not get data".to_string()]);
    assert!(winrate_row(&data.user).is_none());
}

#[test]
fn absent_winrates_render_no_row() {
    let data = Data::new(Some(user("Foo#1")));
    assert!(winrate_row(&data.user).is_none());
    assert_eq!(player_lines(&data.user), vec!["User: Foo#1".to_string()]);
}

#[test]
fn missing_race_in_winrates_shows_placeholder_cell() {
    let mut u = user("Foo#1");
    u.detail_winrate = Some(DetailWinrate { entries: vec![("orc".to_string(), real_of(0.125)), ("orc".to_string(), real_of(0.9))] });
    let row = winrate_row(&Some(u)).unwrap();
    assert_eq!(row, vec!["no data", "no data", "0.90", "no data", "no data"]);
}

#[test]
fn detail_winrate_failures() {
    assert!(fetch_detail_winrate(&Response::Body(obj(vec![]))).is_none());
    let unnamed = detail_body(vec![win_loss(1, 0.5), win_loss(3, 0.5)]);
    assert!(fetch_detail_winrate(&Response::Body(unnamed)).is_none());
    let no_winrate = detail_body(vec![obj(vec![("race", integer(1))])]);
    assert!(fetch_detail_winrate(&Response::Body(no_winrate)).is_none());
    let no_code = obj(vec![(
        "raceWinsOnMapByPatch",
        obj(vec![("All", Json::Array(vec![obj(vec![("winLossesOnMap", Json::Array(vec![]))])]))]),
    )]);
    assert!(fetch_detail_winrate(&Response::Body(no_code)).is_none());
    let none_for_all = obj(vec![("raceWinsOnMapByPatch", obj(vec![("All", Json::Array(vec![]))]))]);
    assert!(fetch_detail_winrate(&Response::Body(none_for_all)).unwrap().entries.is_empty());
}

#[test]
fn decimal_text_of_integers() {
    assert_eq!(decimal(0), "0");
    assert_eq!(decimal(1500), "1500");
    assert_eq!(decimal(-42), "-42");
    assert_eq!(decimal(i64::MIN), "-9223372036854775808");
    assert_eq!(decimal(i64::MAX), "9223372036854775807");
}

#[test]
fn race_codes() {
    assert_eq!(race_name(0).as_deref(), Some("random"));
    assert_eq!(race_name(1).as_deref(), Some("human"));
    assert_eq!(race_name(2).as_deref(), Some("orc"));
    assert_eq!(race_name(4).as_deref(), Some("night elf"));
    assert_eq!(race_name(8).as_deref(), Some("undead"));
    assert_eq!(race_name(16), None);
    assert_eq!(race_name(-1), None);
}

#[test]
fn refresh_every_five_seconds() {
    assert!(!tick_due(4999));
    assert!(tick_due(5000));
    assert!(tick_due(12000));
}

#[test]
fn stat_fields_are_kept() {
    let body = Json::Array(vec![stat(2, 0.45, -3)]);
    let u = Data::fetch_player_profile("A#1", &Response::Body(body)).unwrap();
    let s: &Stat = &u.stats[0];
    assert_eq!(s.winrate.bits, 0.45f64.to_bits());
    assert_eq!(s.ranking_point, -3);
    assert_eq!(
        player_lines(&Some(u)),
        vec!["User: A#1", "Race: orc", "Winrate: 0.45", "RankingPoints: -3"]
    );
}

#[test]
fn unreachable_or_unreadable_profile_is_no_data() {
    assert!(Data::fetch_player_profile("A#1", &Response::Unreachable).is_none());
    assert!(Data::fetch_player_profile("A#1", &Response::Unreadable).is_none());
    assert!(fetch_detail_winrate(&Response::Unreachable).is_none());
    assert!(fetch_detail_winrate(&Response::Unreadable).is_none());
}

#[test]
fn unreachable_match_endpoint_is_the_hard_error() {
    let mut data = Data::new(Some(user("Foo#1")));
    data.opponent = Some(user("Old#9"));
    assert_eq!(data.fetch_ongoing_match(&Response::Unreachable), Err(FetchError::MatchUnreachable));
    assert_eq!(data.opponent.as_ref().unwrap().user_id, "Old#9");
    assert_eq!(data.fetch_ongoing_match(&Response::Unreadable), Ok(None));
    assert!(data.opponent.is_none());
    data.opponent = Some(user("Old#9"));
    let body = Response::Body(match_body(vec![vec!["Foo#1"], vec!["Bar#2"]]));
    assert_eq!(data.fetch_ongoing_match(&body), Ok(Some("Bar#2".to_string())));
    assert!(data.opponent.is_none());
    assert_eq!(data.user.as_ref().unwrap().user_id, "Foo#1");
}
