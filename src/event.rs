use vstd::prelude::*;

verus! {

/// A JSON value as the party engine reads it: a boolean, or any other
/// value kept verbatim as its JSON text.
#[derive(Clone, Debug)]
pub enum JsonValue {
    Bool(bool),
    Other(String),
}

impl JsonValue {
    /// The value read as a boolean setting: `false` unless it is a boolean.
    pub open spec fn spec_as_bool(self) -> bool {
        match self {
            JsonValue::Bool(b) => b,
            JsonValue::Other(_) => false,
        }
    }

    pub fn as_bool_or_false(&self) -> (r: bool)
        ensures
            r == self.spec_as_bool(),
    {
        match self {
            JsonValue::Bool(b) => *b,
            JsonValue::Other(_) => false,
        }
    }

    pub fn duplicate(&self) -> (r: JsonValue)
        ensures
            r == *self,
    {
        match self {
            JsonValue::Bool(b) => JsonValue::Bool(*b),
            JsonValue::Other(s) => JsonValue::Other(s.clone()),
        }
    }
}

pub fn duplicate_strings(v: &Vec<String>) -> (r: Vec<String>)
    ensures
        r@ == v@,
{
    let mut r: Vec<String> = Vec::new();
    let mut i: usize = 0;
    while i < v.len()
        invariant
            i <= v.len(),
            r@ == v@.subrange(0, i as int),
        decreases v.len() - i,
    {
        r.push(v[i].clone());
        i = i + 1;
        assert(r@ =~= v@.subrange(0, i as int));
    }
    assert(r@ =~= v@);
    r
}

pub fn duplicate_json_values(v: &Vec<JsonValue>) -> (r: Vec<JsonValue>)
    ensures
        r@ == v@,
{
    let mut r: Vec<JsonValue> = Vec::new();
    let mut i: usize = 0;
    while i < v.len()
        invariant
            i <= v.len(),
            r@ == v@.subrange(0, i as int),
        decreases v.len() - i,
    {
        r.push(v[i].duplicate());
        i = i + 1;
        assert(r@ =~= v@.subrange(0, i as int));
    }
    assert(r@ =~= v@);
    r
}

/// Emitted when a party is created.
pub struct PartyEventCreated {
    pub owner_id: String,
}

/// Ownership transfer; recorded in the log but never folded into the state.
pub struct PartyEventOwnerChanged {
    pub owner_id: String,
}

/// A user joins (`is_join`) or leaves the party.
pub struct PartyEventJoinLeave {
    pub user_id: String,
    pub is_join: bool,
}

pub struct PartyEventCodesSubmitted {
    pub user_id: String,
    pub codes: Vec<String>,
}

pub struct PartyEventCursorUpdate {
    pub user_id: String,
    pub cursor: String,
    pub size: u32,
}

/// A chat message sent by a user in the party.
pub struct PartyEventChatMessage {
    pub message: String,
}

pub struct PartyEventListOrderChanged {
    pub order: Vec<JsonValue>,
}

pub struct PartyEventSettingChanged {
    pub setting: String,
    pub value: JsonValue,
}

/// The closed set of event kinds with their payloads.
pub enum PartyEventData {
    PartyCreated(PartyEventCreated),
    PartyOwnerChanged(PartyEventOwnerChanged),
    PartyJoinLeave(PartyEventJoinLeave),
    PartyCodesSubmitted(PartyEventCodesSubmitted),
    PartyCursorUpdate(PartyEventCursorUpdate),
    PartyChatMessage(PartyEventChatMessage),
    PartyListOrderChanged(PartyEventListOrderChanged),
    PartySettingChanged(PartyEventSettingChanged),
}

impl PartyEventData {
    /// The kinds that the fold consumes: only these change the projection.
    pub open spec fn affects_projection(&self) -> bool {
        match self {
            PartyEventData::PartyJoinLeave(_) => true,
            PartyEventData::PartySettingChanged(_) => true,
            _ => false,
        }
    }

    pub fn requires_cache_invalidation(&self) -> (r: bool)
        ensures
            r == self.affects_projection(),
    {
        match self {
            PartyEventData::PartyJoinLeave(_) => true,
            PartyEventData::PartySettingChanged(_) => true,
            _ => false,
        }
    }

    /// Equal payloads; list payloads are compared by their contents.
    pub open spec fn equiv(&self, o: &PartyEventData) -> bool {
        match (self, o) {
            (PartyEventData::PartyCodesSubmitted(a), PartyEventData::PartyCodesSubmitted(b)) => {
                a.user_id == b.user_id && a.codes@ == b.codes@
            },
            (PartyEventData::PartyListOrderChanged(a), PartyEventData::PartyListOrderChanged(b)) => {
                a.order@ == b.order@
            },
            _ => *self == *o,
        }
    }

    pub fn duplicate(&self) -> (r: PartyEventData)
        ensures
            r.equiv(self),
    {
        match self {
            PartyEventData::PartyCreated(e) => PartyEventData::PartyCreated(
                PartyEventCreated { owner_id: e.owner_id.clone() },
            ),
            PartyEventData::PartyOwnerChanged(e) => PartyEventData::PartyOwnerChanged(
                PartyEventOwnerChanged { owner_id: e.owner_id.clone() },
            ),
            PartyEventData::PartyJoinLeave(e) => PartyEventData::PartyJoinLeave(
                PartyEventJoinLeave { user_id: e.user_id.clone(), is_join: e.is_join },
            ),
            PartyEventData::PartyCodesSubmitted(e) => PartyEventData::PartyCodesSubmitted(
                PartyEventCodesSubmitted {
                    user_id: e.user_id.clone(),
                    codes: duplicate_strings(&e.codes),
                },
            ),
            PartyEventData::PartyCursorUpdate(e) => PartyEventData::PartyCursorUpdate(
                PartyEventCursorUpdate {
                    user_id: e.user_id.clone(),
                    cursor: e.cursor.clone(),
                    size: e.size,
                },
            ),
            PartyEventData::PartyChatMessage(e) => PartyEventData::PartyChatMessage(
                PartyEventChatMessage { message: e.message.clone() },
            ),
            PartyEventData::PartyListOrderChanged(e) => PartyEventData::PartyListOrderChanged(
                PartyEventListOrderChanged { order: duplicate_json_values(&e.order) },
            ),
            PartyEventData::PartySettingChanged(e) => PartyEventData::PartySettingChanged(
                PartyEventSettingChanged { setting: e.setting.clone(), value: e.value.duplicate() },
            ),
        }
    }
}

/// One entry of a party's append-only log. `event_id` is assigned by the
/// store and orders the log; `created_at` is a Unix time in milliseconds.
pub struct PartyEvent {
    pub party_id: String,
    pub event_id: i32,
    pub user_id: String,
    pub data: PartyEventData,
    pub created_at: i64,
}

impl PartyEvent {
    /// Equal events; payloads compared as `PartyEventData::equiv` does.
    pub open spec fn equiv(&self, o: &PartyEvent) -> bool {
        &&& self.party_id == o.party_id
        &&& self.event_id == o.event_id
        &&& self.user_id == o.user_id
        &&& self.data.equiv(&o.data)
        &&& self.created_at == o.created_at
    }

    pub fn duplicate(&self) -> (r: PartyEvent)
        ensures
            r.equiv(self),
    {
        PartyEvent {
            party_id: self.party_id.clone(),
            event_id: self.event_id,
            user_id: self.user_id.clone(),
            data: self.data.duplicate(),
            created_at: self.created_at,
        }
    }
}

} // verus!
