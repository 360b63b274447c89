use party_engine::models::{BattleMetricsPlayer, BattleMetricsPlayerResponse};
use party_engine::players::{PlayerLookupError, MAX_PLAYER_MATCHES};

fn now() -> (i64, u32) {
    let t = chrono::DateTime::parse_from_rfc3339("2025-03-20T00:00:00Z").unwrap();
    (t.timestamp(), t.timestamp_subsec_nanos())
}

fn player(id: &str, last_seen: Option<&str>) -> BattleMetricsPlayer {
    BattleMetricsPlayer {
        bm_id: id.to_string(),
        name: Some(format!("name-{}", id)),
        private: Some(false),
        last_seen: last_seen.map(|s| s.to_string()),
    }
}

#[test]
fn picks_most_recently_seen_player() {
    let players = vec![
        player("old", Some("2025-01-01T00:00:00Z")),
        player("a", Some("2025-03-15T07:23:03.173Z")),
        player("none", None),
        player("b", Some("2025-03-18T10:00:00Z")),
        player("junk", Some("yesterday")),
    ];
    match BattleMetricsPlayerResponse::from(players, now()) {
        Ok(r) => assert_eq!(r.data.bm_id, "b"),
        Err(_) => panic!("two players were seen recently"),
    }
}

#[test]
fn quoted_time_counts_as_seen() {
    let players = vec![player("q", Some("\"2025-03-19T10:00:00Z\""))];
    match BattleMetricsPlayerResponse::from(players, now()) {
        Ok(r) => assert_eq!(r.data.bm_id, "q"),
        Err(_) => panic!("the quotes are ignored when reading the time"),
    }
}

#[test]
fn equal_times_keep_the_first_player() {
    let players = vec![
        player("first", Some("2025-03-19T10:00:00Z")),
        player("second", Some("2025-03-19T10:00:00Z")),
    ];
    match BattleMetricsPlayerResponse::from(players, now()) {
        Ok(r) => assert_eq!(r.data.bm_id, "first"),
        Err(_) => panic!("both are recent"),
    }
}

#[test]
fn window_boundary_is_exclusive() {
    // exactly five days before now is not recent
    let players = vec![player("edge", Some("2025-03-15T00:00:00Z"))];
    assert!(matches!(BattleMetricsPlayerResponse::from(players, now()), Err(PlayerLookupError::NoResults)));
    let players = vec![player("inside", Some("2025-03-15T00:00:00.001Z"))];
    assert!(BattleMetricsPlayerResponse::from(players, now()).is_ok());
}

#[test]
fn no_recent_player_is_an_error() {
    let players = vec![player("old", Some("2024-12-01T00:00:00Z")), player("none", None)];
    assert!(matches!(BattleMetricsPlayerResponse::from(players, now()), Err(PlayerLookupError::NoResults)));
    assert!(matches!(BattleMetricsPlayerResponse::from(vec![], now()), Err(PlayerLookupError::NoResults)));
}

#[test]
fn too_many_recent_players_is_an_error() {
    let players: Vec<BattleMetricsPlayer> =
        (0..5).map(|i| player(&i.to_string(), Some("2025-03-19T00:00:00Z"))).collect();
    assert_eq!(players.len(), MAX_PLAYER_MATCHES + 1);
    assert!(matches!(
        BattleMetricsPlayerResponse::from(players, now()),
        Err(PlayerLookupError::TooManyResults(5))
    ));
    let four: Vec<BattleMetricsPlayer> =
        (0..4).map(|i| player(&i.to_string(), Some("2025-03-19T00:00:00Z"))).collect();
    assert!(BattleMetricsPlayerResponse::from(four, now()).is_ok());
}

#[test]
fn select_uses_given_times() {
    let players = vec![player("x", Some("b")), player("y", Some("a"))];
    let seen = vec![Some((100, 0)), Some((100, 5))];
    match BattleMetricsPlayerResponse::select(players, &seen, (100, 0)) {
        Ok(r) => assert_eq!(r.data.bm_id, "y"),
        Err(_) => panic!("only y is after the cutoff"),
    }
}
