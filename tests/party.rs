use party_engine::app_cache::AppCache;
use party_engine::event::{
    JsonValue, PartyEvent, PartyEventChatMessage, PartyEventCodesSubmitted, PartyEventCursorUpdate,
    PartyEventData, PartyEventJoinLeave, PartyEventListOrderChanged, PartyEventSettingChanged,
};
use party_engine::ids::{decide_guest_id, guest_id_candidate, GuestIdStep, GUEST_ID_MAX_RETRIES};
use party_engine::party::Party;
use party_engine::store::{EventLog, PartyError, PAGE_SIZE};

fn s(x: &str) -> String {
    x.to_string()
}

fn chat(text: &str) -> PartyEventData {
    PartyEventData::PartyChatMessage(PartyEventChatMessage { message: s(text) })
}

fn join(user: &str, is_join: bool) -> PartyEventData {
    PartyEventData::PartyJoinLeave(PartyEventJoinLeave { user_id: s(user), is_join })
}

fn ids(events: &[PartyEvent]) -> Vec<i32> {
    events.iter().map(|e| e.event_id).collect()
}

#[test]
fn list_since_cursor_five() {
    let mut log = EventLog::new();
    let p = s("party");
    let other = s("other");
    // ids 1..=9; the party owns 3, 6, 7, 8 and 9
    for id in 1..=9 {
        let owner = if [3, 6, 7, 8, 9].contains(&id) { &p } else { &other };
        let e = PartyEvent::create(owner, &s("u"), chat("hi"), 0, &mut log).unwrap();
        assert_eq!(e.event_id, id);
    }
    let page = PartyEvent::get_events_by_event_cursor(&p, 5, &log);
    assert_eq!(ids(&page), vec![6, 7, 8, 9]);
    assert!(page.iter().all(|e| e.party_id == "party"));
    let all = PartyEvent::get_join_leave_events(&p, &log);
    assert_eq!(ids(&all), vec![3, 6, 7, 8, 9]);
}

#[test]
fn list_since_is_capped_at_page_size() {
    let mut log = EventLog::new();
    let p = s("p");
    for _ in 0..45 {
        PartyEvent::create(&p, &s("u"), chat("x"), 0, &mut log).unwrap();
    }
    let first = PartyEvent::get_events_by_event_cursor(&p, 0, &log);
    assert_eq!(first.len(), PAGE_SIZE);
    assert_eq!(ids(&first), (1..=20).collect::<Vec<i32>>());
    let third = PartyEvent::get_events_by_event_cursor(&p, 40, &log);
    assert_eq!(ids(&third), vec![41, 42, 43, 44, 45]);
    assert!(PartyEvent::get_events_by_event_cursor(&p, 45, &log).is_empty());
    assert!(PartyEvent::get_events_by_event_cursor(&s("nobody"), 0, &log).is_empty());
}

#[test]
fn append_assigns_increasing_ids_and_keeps_payload() {
    let mut log = EventLog::new();
    let a = PartyEvent::create(&s("p"), &s("u1"), join("u1", true), 17, &mut log).unwrap();
    let b = PartyEvent::create(&s("q"), &s("u2"), chat("yo"), 18, &mut log).unwrap();
    assert_eq!((a.event_id, b.event_id), (1, 2));
    assert_eq!(a.user_id, "u1");
    assert_eq!(a.created_at, 17);
    assert_eq!(log.len(), 2);
    match &b.data {
        PartyEventData::PartyChatMessage(m) => assert_eq!(m.message, "yo"),
        _ => panic!("payload changed"),
    }
}

#[test]
fn membership_reflects_join_after_cached_read() {
    let mut log = EventLog::new();
    let mut caches = AppCache::new();
    let p = s("party");
    let party = Party::create_with_id(p.clone(), &s("A"), s("secret"), 1, &mut log, &mut caches.party_state)
        .unwrap();
    assert_eq!(party.owner_id, "A");
    assert_eq!(party.party_secret, Some(s("secret")));
    assert!(Party::get_user_is_in_party(&s("A"), &p, &log, &mut caches.party_state, 10));
    assert!(!Party::get_user_is_in_party(&s("B"), &p, &log, &mut caches.party_state, 11));
    assert_eq!(caches.party_state.size(), 1);
    Party::append_event_and_maybe_invalidate(&p, &s("B"), join("B", true), 12, &mut log, &mut caches.party_state)
        .unwrap();
    assert_eq!(caches.party_state.size(), 0);
    assert!(Party::get_user_is_in_party(&s("B"), &p, &log, &mut caches.party_state, 13));
    let setting = PartyEventData::PartySettingChanged(PartyEventSettingChanged {
        setting: s("private"),
        value: JsonValue::Bool(true),
    });
    Party::append_event_and_maybe_invalidate(&p, &s("A"), setting, 14, &mut log, &mut caches.party_state)
        .unwrap();
    let state = Party::get_party_state(&p, &log, &mut caches.party_state, 15);
    assert!(state.is_private());
    assert_eq!(state.members().clone(), vec![s("A"), s("B")]);
}

#[test]
fn ignored_events_keep_cached_state() {
    let mut log = EventLog::new();
    let mut caches = AppCache::new();
    let p = s("party");
    Party::create_with_id(p.clone(), &s("A"), s("x"), 0, &mut log, &mut caches.party_state).unwrap();
    let before = Party::get_party_state(&p, &log, &mut caches.party_state, 1);
    let ignored = vec![
        chat("hello"),
        PartyEventData::PartyCursorUpdate(PartyEventCursorUpdate { user_id: s("A"), cursor: s("c"), size: 1 }),
        PartyEventData::PartyCodesSubmitted(PartyEventCodesSubmitted { user_id: s("A"), codes: vec![s("42")] }),
        PartyEventData::PartyListOrderChanged(PartyEventListOrderChanged { order: vec![] }),
    ];
    for d in ignored {
        Party::append_event_and_maybe_invalidate(&p, &s("A"), d, 2, &mut log, &mut caches.party_state).unwrap();
        assert_eq!(caches.party_state.size(), 1);
    }
    let after = Party::get_party_state(&p, &log, &mut caches.party_state, 3);
    assert_eq!(before.members(), after.members());
    assert_eq!(before.is_private(), after.is_private());
    assert_eq!(log.len(), 5);
}

#[test]
fn second_join_is_seen_as_member() {
    let mut log = EventLog::new();
    let mut caches = AppCache::new();
    let p = s("p");
    Party::create_with_id(p.clone(), &s("A"), s("x"), 0, &mut log, &mut caches.party_state).unwrap();
    Party::append_event_and_maybe_invalidate(&p, &s("A"), join("A", true), 1, &mut log, &mut caches.party_state)
        .unwrap();
    let state = Party::get_party_state(&p, &log, &mut caches.party_state, 2);
    assert_eq!(state.members().clone(), vec![s("A")]);
}

#[test]
fn unknown_party_has_no_members() {
    let log = EventLog::new();
    let mut caches = AppCache::new();
    let state = Party::get_party_state(&s("none"), &log, &mut caches.party_state, 0);
    assert!(state.members().is_empty());
}

#[test]
fn create_encodes_party_id() {
    let mut log = EventLog::new();
    let mut caches = AppCache::new();
    let a = Party::create(&s("owner"), 12345, s("abcdefgh"), 5, &mut log, &mut caches.party_state).unwrap();
    assert!(!a.party_id.is_empty());
    assert_ne!(a.party_id, "12345");
    let again = guest_id_candidate(12345).unwrap();
    assert_eq!(again, a.party_id);
    assert_ne!(guest_id_candidate(12346).unwrap(), a.party_id);
    assert!(Party::get_user_is_in_party(&s("owner"), &a.party_id, &log, &mut caches.party_state, 6));
    let all = PartyEvent::get_join_leave_events(&a.party_id, &log);
    assert_eq!(all.len(), 1);
    assert_eq!(all[0].user_id, "owner");
}

#[test]
fn guest_id_retries_then_gives_up() {
    match decide_guest_id(Some(s("abc")), 0, false) {
        GuestIdStep::Accept(id) => assert_eq!(id, "abc"),
        _ => panic!("a free id is accepted"),
    }
    match decide_guest_id(Some(s("abc")), 3, true) {
        GuestIdStep::Retry(n) => assert_eq!(n, 4),
        _ => panic!("a taken id is drawn again"),
    }
    match decide_guest_id(None, 0, false) {
        GuestIdStep::Retry(n) => assert_eq!(n, 1),
        _ => panic!("a missing id is drawn again"),
    }
    assert!(matches!(decide_guest_id(Some(s("abc")), 10, true), GuestIdStep::Retry(11)));
    assert!(matches!(decide_guest_id(Some(s("abc")), GUEST_ID_MAX_RETRIES, true), GuestIdStep::GiveUp));
}

#[test]
fn error_variants_compare() {
    assert_eq!(PartyError::Internal, PartyError::Internal);
    assert_ne!(PartyError::NotFound, PartyError::Conflict);
}

#[test]
fn cached_party_state_expires_with_service_settings() {
    let mut log = EventLog::new();
    let mut caches = AppCache::new();
    let p = s("p");
    Party::create_with_id(p.clone(), &s("A"), s("x"), 0, &mut log, &mut caches.party_state).unwrap();
    Party::get_party_state(&p, &log, &mut caches.party_state, 0);
    assert_eq!(caches.get_sizes().5, 1);
    // read again within the idle window: still cached
    Party::get_party_state(&p, &log, &mut caches.party_state, 50_000);
    caches.collect_all(100_000);
    assert_eq!(caches.get_sizes().5, 1);
    // idle for a full minute
    caches.collect_all(110_000);
    assert_eq!(caches.get_sizes().5, 0);
    // kept busy, it still goes at five minutes
    Party::get_party_state(&p, &log, &mut caches.party_state, 200_000);
    for t in [250_000u64, 300_000, 350_000, 400_000, 450_000] {
        Party::get_party_state(&p, &log, &mut caches.party_state, t);
    }
    caches.collect_all(499_999);
    assert_eq!(caches.get_sizes().5, 1);
    caches.collect_all(500_000);
    assert_eq!(caches.get_sizes().5, 0);
}
