use party_engine::event::{
    JsonValue, PartyEvent, PartyEventChatMessage, PartyEventCodesSubmitted, PartyEventCreated,
    PartyEventCursorUpdate, PartyEventData, PartyEventJoinLeave, PartyEventListOrderChanged,
    PartyEventOwnerChanged, PartyEventSettingChanged,
};
use party_engine::party::Party;

fn join(user: &str, is_join: bool) -> PartyEventData {
    PartyEventData::PartyJoinLeave(PartyEventJoinLeave { user_id: user.to_string(), is_join })
}

fn setting(name: &str, value: JsonValue) -> PartyEventData {
    PartyEventData::PartySettingChanged(PartyEventSettingChanged { setting: name.to_string(), value })
}

fn history(data: Vec<PartyEventData>) -> Vec<PartyEvent> {
    data.into_iter()
        .enumerate()
        .map(|(i, d)| PartyEvent {
            party_id: "p1".to_string(),
            event_id: i as i32 + 1,
            user_id: "actor".to_string(),
            data: d,
            created_at: 0,
        })
        .collect()
}

#[test]
fn scenario_two_joins_private_and_a_leave() {
    let events = history(vec![
        join("A", true),
        join("B", true),
        setting("private", JsonValue::Bool(true)),
        join("B", false),
    ]);
    let state = Party::index_party_state(&events);
    assert_eq!(state.members().clone(), vec!["A".to_string()]);
    assert!(state.contains_member(&"A".to_string()));
    assert!(!state.contains_member(&"B".to_string()));
    assert!(state.is_private());
    assert!(!state.is_steam_only());
    assert!(state.settings().extra.is_empty());
}

#[test]
fn empty_history_gives_initial_state() {
    let state = Party::index_party_state(&Vec::new());
    assert!(state.members().is_empty());
    assert!(!state.is_private());
    assert!(!state.is_steam_only());
    assert!(state.settings().extra.is_empty());
}

#[test]
fn fold_is_deterministic() {
    let make = || {
        history(vec![
            join("A", true),
            setting("steam_only", JsonValue::Bool(true)),
            setting("theme", JsonValue::Other("\"dark\"".to_string())),
            join("C", true),
        ])
    };
    let a = Party::index_party_state(&make());
    let b = Party::index_party_state(&make());
    assert_eq!(a.members(), b.members());
    assert_eq!(a.is_private(), b.is_private());
    assert_eq!(a.is_steam_only(), b.is_steam_only());
    assert_eq!(a.settings().extra.len(), b.settings().extra.len());
    assert_eq!(a.members().clone(), vec!["A".to_string(), "C".to_string()]);
}

#[test]
fn joining_twice_is_idempotent() {
    let once = Party::index_party_state(&history(vec![join("A", true)]));
    let twice = Party::index_party_state(&history(vec![join("A", true), join("A", true)]));
    assert_eq!(once.members(), twice.members());
    assert_eq!(twice.members().len(), 1);
}

#[test]
fn leaving_as_non_member_is_idempotent() {
    let state = Party::index_party_state(&history(vec![join("A", true), join("B", false)]));
    assert_eq!(state.members().clone(), vec!["A".to_string()]);
    let left = Party::index_party_state(&history(vec![join("A", false)]));
    assert!(left.members().is_empty());
}

#[test]
fn non_boolean_flag_reads_as_false() {
    let state = Party::index_party_state(&history(vec![
        setting("private", JsonValue::Bool(true)),
        setting("private", JsonValue::Other("\"yes\"".to_string())),
        setting("steam_only", JsonValue::Other("1".to_string())),
    ]));
    assert!(!state.is_private());
    assert!(!state.is_steam_only());
    assert!(state.settings().extra.is_empty());
}

#[test]
fn other_settings_last_write_wins() {
    let state = Party::index_party_state(&history(vec![
        setting("theme", JsonValue::Other("\"dark\"".to_string())),
        setting("size", JsonValue::Other("4".to_string())),
        setting("theme", JsonValue::Other("\"light\"".to_string())),
    ]));
    let extra = &state.settings().extra;
    assert_eq!(extra.len(), 2);
    let theme = extra.iter().find(|e| e.name == "theme").unwrap();
    match &theme.value {
        JsonValue::Other(s) => assert_eq!(s, "\"light\""),
        JsonValue::Bool(_) => panic!("theme should hold text"),
    }
}

#[test]
fn ignored_kinds_do_not_change_state() {
    let state = Party::index_party_state(&history(vec![
        join("A", true),
        PartyEventData::PartyCreated(PartyEventCreated { owner_id: "A".to_string() }),
        PartyEventData::PartyOwnerChanged(PartyEventOwnerChanged { owner_id: "Z".to_string() }),
        PartyEventData::PartyCodesSubmitted(PartyEventCodesSubmitted {
            user_id: "Q".to_string(),
            codes: vec!["1234".to_string()],
        }),
        PartyEventData::PartyCursorUpdate(PartyEventCursorUpdate {
            user_id: "Q".to_string(),
            cursor: "c".to_string(),
            size: 3,
        }),
        PartyEventData::PartyChatMessage(PartyEventChatMessage { message: "hi".to_string() }),
        PartyEventData::PartyListOrderChanged(PartyEventListOrderChanged {
            order: vec![JsonValue::Other("1".to_string())],
        }),
    ]));
    assert_eq!(state.members().clone(), vec!["A".to_string()]);
    assert!(!state.is_private());
    assert!(state.settings().extra.is_empty());
}

#[test]
fn invalidation_policy_by_kind() {
    assert!(join("A", true).requires_cache_invalidation());
    assert!(setting("private", JsonValue::Bool(true)).requires_cache_invalidation());
    let ignored = vec![
        PartyEventData::PartyCreated(PartyEventCreated { owner_id: "A".to_string() }),
        PartyEventData::PartyOwnerChanged(PartyEventOwnerChanged { owner_id: "A".to_string() }),
        PartyEventData::PartyCodesSubmitted(PartyEventCodesSubmitted {
            user_id: "A".to_string(),
            codes: vec![],
        }),
        PartyEventData::PartyCursorUpdate(PartyEventCursorUpdate {
            user_id: "A".to_string(),
            cursor: String::new(),
            size: 0,
        }),
        PartyEventData::PartyChatMessage(PartyEventChatMessage { message: String::new() }),
        PartyEventData::PartyListOrderChanged(PartyEventListOrderChanged { order: vec![] }),
    ];
    for d in ignored {
        assert!(!d.requires_cache_invalidation());
    }
}

#[test]
fn json_value_reads_as_bool() {
    assert!(JsonValue::Bool(true).as_bool_or_false());
    assert!(!JsonValue::Bool(false).as_bool_or_false());
    assert!(!JsonValue::Other("true".to_string()).as_bool_or_false());
}
