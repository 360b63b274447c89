use vstd::prelude::*;

use crate::event::{PartyEvent, PartyEventData};

verus! {

/// The most events one page of `get_events_by_event_cursor` holds.
pub const PAGE_SIZE: usize = 20;

/// The failures that the party engine reports.
#[derive(PartialEq, Eq, Structural, Debug)]
pub enum PartyError {
    /// The party or the user does not exist.
    NotFound,
    /// No signed-in user.
    Unauthorized,
    /// The user is not a member of the party.
    Forbidden,
    /// The action repeats one already in effect, such as joining twice.
    Conflict,
    /// The store failed or holds a malformed record.
    Internal,
}

/// The events of the log that belong to one party, in log order.
pub open spec fn for_party(p: Seq<char>) -> spec_fn(PartyEvent) -> bool {
    |e: PartyEvent| e.party_id@ == p
}

/// The events of one party after a cursor.
pub open spec fn after_cursor(p: Seq<char>, cursor: i32) -> spec_fn(PartyEvent) -> bool {
    |e: PartyEvent| e.party_id@ == p && e.event_id > cursor
}

spec fn selector(p: Seq<char>, cursor: Option<i32>) -> spec_fn(PartyEvent) -> bool {
    match cursor {
        Some(c) => after_cursor(p, c),
        None => for_party(p),
    }
}

pub open spec fn events_of(log: Seq<PartyEvent>, p: Seq<char>) -> Seq<PartyEvent> {
    log.filter(for_party(p))
}

/// What a page read after `cursor` returns: the party's events with a
/// greater id, ascending, at most `PAGE_SIZE` of them.
pub open spec fn page_since(log: Seq<PartyEvent>, p: Seq<char>, cursor: i32) -> Seq<PartyEvent> {
    let f = log.filter(after_cursor(p, cursor));
    if f.len() <= PAGE_SIZE {
        f
    } else {
        f.take(PAGE_SIZE as int)
    }
}

/// Event ids strictly increase along the log and are positive.
pub open spec fn ids_ascending(log: Seq<PartyEvent>) -> bool {
    &&& forall|i: int, j: int| 0 <= i < j < log.len() ==> log[i].event_id < log[j].event_id
    &&& forall|i: int| 0 <= i < log.len() ==> log[i].event_id > 0
}

/// The id the next appended event receives.
pub open spec fn next_event_id(log: Seq<PartyEvent>) -> int {
    if log.len() == 0 {
        1
    } else {
        log.last().event_id + 1
    }
}

/// Elementwise `PartyEvent::equiv`.
pub open spec fn all_equiv(a: Seq<PartyEvent>, b: Seq<PartyEvent>) -> bool {
    &&& a.len() == b.len()
    &&& forall|i: int| 0 <= i < a.len() ==> #[trigger] a[i].equiv(&b[i])
}

pub proof fn lemma_filter_push(s: Seq<PartyEvent>, pred: spec_fn(PartyEvent) -> bool, e: PartyEvent)
    ensures
        s.push(e).filter(pred) == (if pred(e) {
            s.filter(pred).push(e)
        } else {
            s.filter(pred)
        }),
{
    reveal(Seq::filter);
    assert(s.push(e).drop_last() =~= s);
}

proof fn lemma_filter_prefix(s: Seq<PartyEvent>, pred: spec_fn(PartyEvent) -> bool, i: int)
    requires
        0 <= i < s.len(),
    ensures
        s.subrange(0, i + 1).filter(pred) == (if pred(s[i]) {
            s.subrange(0, i).filter(pred).push(s[i])
        } else {
            s.subrange(0, i).filter(pred)
        }),
{
    assert(s.subrange(0, i + 1) =~= s.subrange(0, i).push(s[i]));
    lemma_filter_push(s.subrange(0, i), pred, s[i]);
}

/// An in-process append-only event log shared by all parties. Event ids
/// are global: each appended event gets the next id after the last one of
/// the whole log, so ids ascend within every party as well.
pub struct EventLog {
    events: Vec<PartyEvent>,
}

impl View for EventLog {
    type V = Seq<PartyEvent>;

    closed spec fn view(&self) -> Seq<PartyEvent> {
        self.events@
    }
}

impl EventLog {
    pub open spec fn wf(&self) -> bool {
        ids_ascending(self@)
    }

    pub fn new() -> (r: EventLog)
        ensures
            r.wf(),
            r@ == Seq::<PartyEvent>::empty(),
    {
        EventLog { events: Vec::new() }
    }

    pub fn len(&self) -> (r: usize)
        ensures
            r == self@.len(),
    {
        self.events.len()
    }

    fn filtered(&self, party_id: &String, cursor: Option<i32>) -> (r: Vec<PartyEvent>)
        ensures
            cursor is None ==> all_equiv(r@, events_of(self@, party_id@)),
            cursor matches Some(c) ==> all_equiv(r@, page_since(self@, party_id@, c)),
    {
        let ghost pred = selector(party_id@, cursor);
        let ghost s = self.events@;
        let capped = cursor.is_some();
        let mut r: Vec<PartyEvent> = Vec::new();
        let mut i: usize = 0;
        while i < self.events.len() && (!capped || r.len() < PAGE_SIZE)
            invariant
                capped == cursor is Some,
                i <= s.len(),
                s == self.events@,
                pred == selector(party_id@, cursor),
                all_equiv(r@, s.subrange(0, i as int).filter(pred)),
                cursor is Some ==> r@.len() <= PAGE_SIZE,
            decreases s.len() - i,
        {
            let e = &self.events[i];
            let same_party = e.party_id == *party_id;
            let keep = match cursor {
                Some(c) => same_party && e.event_id > c,
                None => same_party,
            };
            proof {
                lemma_filter_prefix(s, pred, i as int);
                assert(e == s[i as int]);
                match cursor {
                    Some(c) => assert(pred(s[i as int]) == (s[i as int].party_id@ == party_id@
                        && s[i as int].event_id > c)),
                    None => assert(pred(s[i as int]) == (s[i as int].party_id@ == party_id@)),
                }
            }
            let ghost before = r@;
            if keep {
                r.push(e.duplicate());
                assert forall|j: int| 0 <= j < r@.len() implies #[trigger] r@[j].equiv(
                    &s.subrange(0, i + 1).filter(pred)[j],
                ) by {
                    if j < before.len() {
                        assert(r@[j] == before[j]);
                    }
                }
            }
            i = i + 1;
        }
        let ghost done = s.subrange(0, i as int);
        let ghost rest = s.subrange(i as int, s.len() as int);
        proof {
            assert(s =~= done + rest);
            Seq::filter_distributes_over_add(done, rest, pred);
            if cursor is Some && i < s.len() {
                assert(s.filter(pred).take(PAGE_SIZE as int) =~= done.filter(pred));
            }
        }
        r
    }
}

impl PartyEvent {
    /// Appends one event for a party to the log, with the id after the last
    /// one. Fails, appending nothing, once the ids are exhausted.
    pub fn create(
        party_id: &String,
        user_id: &String,
        data: PartyEventData,
        created_at: i64,
        log: &mut EventLog,
    ) -> (r: Result<PartyEvent, PartyError>)
        requires
            old(log).wf(),
        ensures
            final(log).wf(),
            (r is Err) == (next_event_id(old(log)@) > i32::MAX),
            r matches Err(e) ==> e == PartyError::Internal && final(log)@ == old(log)@,
            r matches Ok(e) ==> {
                &&& e.event_id == next_event_id(old(log)@)
                &&& final(log)@ == old(log)@.push(
                    PartyEvent {
                        party_id: *party_id,
                        event_id: e.event_id,
                        user_id: *user_id,
                        data,
                        created_at,
                    },
                )
                &&& e.equiv(&final(log)@.last())
            },
    {
        let n = log.events.len();
        let id: i32 = if n == 0 {
            1
        } else {
            let last = log.events[n - 1].event_id;
            if last == i32::MAX {
                return Err(PartyError::Internal);
            }
            last + 1
        };
        let event = PartyEvent {
            party_id: party_id.clone(),
            event_id: id,
            user_id: user_id.clone(),
            data,
            created_at,
        };
        let copy = event.duplicate();
        log.events.push(event);
        Ok(copy)
    }

    /// The events of a party with an id above `event_cursor`, ascending, at
    /// most `PAGE_SIZE` of them.
    pub fn get_events_by_event_cursor(party_id: &String, event_cursor: i32, log: &EventLog) -> (r: Vec<
        PartyEvent,
    >)
        ensures
            all_equiv(r@, page_since(log@, party_id@, event_cursor)),
    {
        log.filtered(party_id, Some(event_cursor))
    }

    /// The whole history of a party, in log order: what the fold replays.
    pub fn get_join_leave_events(party_id: &String, log: &EventLog) -> (r: Vec<PartyEvent>)
        ensures
            all_equiv(r@, events_of(log@, party_id@)),
    {
        log.filtered(party_id, None)
    }
}

} // verus!
