use vstd::prelude::*;

use crate::event::{JsonValue, PartyEvent, PartyEventData};
use crate::text::{
    find_string, lemma_string_set_push, lemma_string_set_remove, same_text, string_set,
    strings_unique,
};

verus! {

/// The derived state of a party: its members and its settings.
pub struct PartyStateView {
    pub members: Set<Seq<char>>,
    pub private: bool,
    pub steam_only: bool,
    pub extra: Map<Seq<char>, JsonValue>,
}

/// A setting other than the two known flags, last write wins.
pub struct ExtraSetting {
    pub name: String,
    pub value: JsonValue,
}

pub struct PartyStateSettings {
    pub private: bool,
    pub steam_only: bool,
    pub extra: Vec<ExtraSetting>,
}

pub struct PartyState {
    members: Vec<String>,
    settings: PartyStateSettings,
}

pub open spec fn extra_map(x: Seq<ExtraSetting>) -> Map<Seq<char>, JsonValue> {
    Map::new(
        |k: Seq<char>| exists|i: int| 0 <= i < x.len() && x[i].name@ == k,
        |k: Seq<char>| x[choose|i: int| 0 <= i < x.len() && x[i].name@ == k].value,
    )
}

pub open spec fn names_unique(x: Seq<ExtraSetting>) -> bool {
    forall|i: int, j: int| 0 <= i < x.len() && 0 <= j < x.len() && i != j ==> x[i].name@ != x[j].name@
}

impl View for PartyState {
    type V = PartyStateView;

    closed spec fn view(&self) -> PartyStateView {
        PartyStateView {
            members: string_set(self.members@),
            private: self.settings.private,
            steam_only: self.settings.steam_only,
            extra: extra_map(self.settings.extra@),
        }
    }
}

/// The state before any event.
pub open spec fn initial_state() -> PartyStateView {
    PartyStateView {
        members: Set::empty(),
        private: false,
        steam_only: false,
        extra: Map::empty(),
    }
}

/// One step of the fold. Joins and leaves are idempotent set updates; the
/// two known settings read their value as a boolean, any other setting is
/// recorded as it is; every other kind leaves the state alone.
pub open spec fn apply_event(s: PartyStateView, d: PartyEventData) -> PartyStateView {
    match d {
        PartyEventData::PartyJoinLeave(j) => {
            if j.is_join {
                PartyStateView { members: s.members.insert(j.user_id@), ..s }
            } else {
                PartyStateView { members: s.members.remove(j.user_id@), ..s }
            }
        },
        PartyEventData::PartySettingChanged(c) => {
            if c.setting@ == "private"@ {
                PartyStateView { private: c.value.spec_as_bool(), ..s }
            } else if c.setting@ == "steam_only"@ {
                PartyStateView { steam_only: c.value.spec_as_bool(), ..s }
            } else {
                PartyStateView { extra: s.extra.insert(c.setting@, c.value), ..s }
            }
        },
        _ => s,
    }
}

/// The projection of an ordered event history: every event applied in turn,
/// starting from the initial state.
pub open spec fn fold_events(events: Seq<PartyEvent>) -> PartyStateView
    decreases events.len(),
{
    if events.len() == 0 {
        initial_state()
    } else {
        apply_event(fold_events(events.drop_last()), events.last().data)
    }
}

impl PartyState {
    pub closed spec fn wf(&self) -> bool {
        &&& strings_unique(self.members@)
        &&& names_unique(self.settings.extra@)
    }

    /// The state of a party with no history.
    pub fn empty() -> (r: PartyState)
        ensures
            r.wf(),
            r@ == initial_state(),
    {
        let r = PartyState {
            members: Vec::new(),
            settings: PartyStateSettings { private: false, steam_only: false, extra: Vec::new() },
        };
        assert(r@.members =~= Set::empty());
        assert(r@.extra =~= Map::empty());
        r
    }

    fn find_setting(&self, name: &String) -> (r: Option<usize>)
        ensures
            match r {
                Some(i) => i < self.settings.extra@.len() && self.settings.extra@[i as int].name@
                    == name@,
                None => forall|i: int|
                    0 <= i < self.settings.extra@.len() ==> self.settings.extra@[i].name@ != name@,
            },
    {
        let mut i: usize = 0;
        while i < self.settings.extra.len()
            invariant
                i <= self.settings.extra@.len(),
                forall|j: int| 0 <= j < i ==> self.settings.extra@[j].name@ != name@,
            decreases self.settings.extra@.len() - i,
        {
            if self.settings.extra[i].name == *name {
                return Some(i);
            }
            i = i + 1;
        }
        None
    }

    /// A copy of the state.
    pub fn snapshot(&self) -> (r: PartyState)
        requires
            self.wf(),
        ensures
            r.wf(),
            r@ == self@,
    {
        let members = crate::event::duplicate_strings(&self.members);
        let mut extra: Vec<ExtraSetting> = Vec::new();
        let mut i: usize = 0;
        while i < self.settings.extra.len()
            invariant
                i <= self.settings.extra@.len(),
                extra@ == self.settings.extra@.subrange(0, i as int),
            decreases self.settings.extra@.len() - i,
        {
            let e = &self.settings.extra[i];
            extra.push(ExtraSetting { name: e.name.clone(), value: e.value.duplicate() });
            i = i + 1;
            assert(extra@ =~= self.settings.extra@.subrange(0, i as int));
        }
        assert(extra@ =~= self.settings.extra@);
        PartyState {
            members,
            settings: PartyStateSettings {
                private: self.settings.private,
                steam_only: self.settings.steam_only,
                extra,
            },
        }
    }

    /// The members, each once.
    pub fn members(&self) -> (r: &Vec<String>)
        ensures
            string_set(r@) == self@.members,
    {
        &self.members
    }

    /// The settings; `extra` holds each other setting once.
    pub fn settings(&self) -> (r: &PartyStateSettings)
        ensures
            r.private == self@.private,
            r.steam_only == self@.steam_only,
            extra_map(r.extra@) == self@.extra,
    {
        &self.settings
    }

    /// Whether `user` is a member.
    pub fn contains_member(&self, user: &String) -> (r: bool)
        ensures
            r == self@.members.contains(user@),
    {
        match find_string(&self.members, user) {
            Some(_) => true,
            None => false,
        }
    }

    pub fn is_private(&self) -> (r: bool)
        ensures
            r == self@.private,
    {
        self.settings.private
    }

    pub fn is_steam_only(&self) -> (r: bool)
        ensures
            r == self@.steam_only,
    {
        self.settings.steam_only
    }

    fn join(&mut self, user: &String)
        requires
            old(self).wf(),
        ensures
            final(self).wf(),
            final(self)@ == (PartyStateView { members: old(self)@.members.insert(user@), ..old(self)@ }),
    {
        match find_string(&self.members, user) {
            Some(i) => {
                assert(self@.members =~= old(self)@.members.insert(user@));
            },
            None => {
                proof {
                    lemma_string_set_push(self.members@, *user);
                }
                self.members.push(user.clone());
            },
        }
    }

    fn leave(&mut self, user: &String)
        requires
            old(self).wf(),
        ensures
            final(self).wf(),
            final(self)@ == (PartyStateView { members: old(self)@.members.remove(user@), ..old(self)@ }),
    {
        match find_string(&self.members, user) {
            Some(i) => {
                proof {
                    lemma_string_set_remove(self.members@, i as int);
                }
                self.members.remove(i);
            },
            None => {
                assert(self@.members =~= old(self)@.members.remove(user@));
            },
        }
    }

    fn set_extra(&mut self, name: &String, value: &JsonValue)
        requires
            old(self).wf(),
        ensures
            final(self).wf(),
            final(self)@ == (PartyStateView {
                extra: old(self)@.extra.insert(name@, *value),
                ..old(self)@
            }),
    {
        let ghost old_x = self.settings.extra@;
        let entry = ExtraSetting { name: name.clone(), value: value.duplicate() };
        match self.find_setting(name) {
            Some(i) => {
                self.settings.extra.set(i, entry);
                let ghost new_x = self.settings.extra@;
                assert(new_x =~= old_x.update(i as int, entry));
                assert forall|k: Seq<char>| #[trigger] extra_map(new_x).dom().contains(k)
                    == extra_map(old_x).insert(name@, *value).dom().contains(k) by {
                    if extra_map(old_x).dom().contains(k) {
                        let j = choose|j: int| 0 <= j < old_x.len() && old_x[j].name@ == k;
                        assert(new_x[j].name@ == k);
                    }
                    if k == name@ {
                        assert(new_x[i as int].name@ == k);
                    }
                }
                assert forall|k: Seq<char>| #[trigger] extra_map(new_x).dom().contains(k)
                    implies extra_map(new_x)[k] == extra_map(old_x).insert(name@, *value)[k] by {
                    let j = choose|j: int| 0 <= j < new_x.len() && new_x[j].name@ == k;
                    if k == name@ {
                        assert(j == i);
                    } else {
                        let j0 = choose|j0: int| 0 <= j0 < old_x.len() && old_x[j0].name@ == k;
                        assert(j0 == j);
                    }
                }
                assert(extra_map(new_x) =~= extra_map(old_x).insert(name@, *value));
            },
            None => {
                self.settings.extra.push(entry);
                let ghost new_x = self.settings.extra@;
                let ghost n = old_x.len() as int;
                assert(new_x =~= old_x.push(entry));
                assert forall|k: Seq<char>| #[trigger] extra_map(new_x).dom().contains(k)
                    == extra_map(old_x).insert(name@, *value).dom().contains(k) by {
                    if extra_map(old_x).dom().contains(k) {
                        let j = choose|j: int| 0 <= j < old_x.len() && old_x[j].name@ == k;
                        assert(new_x[j].name@ == k);
                    }
                    if k == name@ {
                        assert(new_x[n].name@ == k);
                    }
                }
                assert forall|k: Seq<char>| #[trigger] extra_map(new_x).dom().contains(k)
                    implies extra_map(new_x)[k] == extra_map(old_x).insert(name@, *value)[k] by {
                    let j = choose|j: int| 0 <= j < new_x.len() && new_x[j].name@ == k;
                    if k == name@ {
                        assert(j == n);
                    } else {
                        let j0 = choose|j0: int| 0 <= j0 < old_x.len() && old_x[j0].name@ == k;
                        assert(j0 == j);
                    }
                }
                assert(extra_map(new_x) =~= extra_map(old_x).insert(name@, *value));
            },
        }
    }

    /// Applies one event to the state, as `apply_event` says.
    pub fn apply(&mut self, data: &PartyEventData)
        requires
            old(self).wf(),
        ensures
            final(self).wf(),
            final(self)@ == apply_event(old(self)@, *data),
    {
        match data {
            PartyEventData::PartyJoinLeave(j) => {
                if j.is_join {
                    self.join(&j.user_id);
                } else {
                    self.leave(&j.user_id);
                }
            },
            PartyEventData::PartySettingChanged(c) => {
                if same_text(&c.setting, "private") {
                    self.settings.private = c.value.as_bool_or_false();
                    assert(self@.members =~= old(self)@.members);
                } else if same_text(&c.setting, "steam_only") {
                    self.settings.steam_only = c.value.as_bool_or_false();
                    assert(self@.members =~= old(self)@.members);
                } else {
                    self.set_extra(&c.setting, &c.value);
                }
            },
            _ => {},
        }
    }
}

} // verus!
