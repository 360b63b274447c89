use vstd::prelude::*;

use crate::cache::{begin_step, finish_step, CacheView, CoalescingCache, Lookup};
use crate::ids::{encode_id, sqids_code};
use crate::event::{PartyEvent, PartyEventData, PartyEventJoinLeave};
use crate::state::{apply_event, fold_events, PartyState, PartyStateView};
use crate::store::{
    all_equiv, events_of, for_party, lemma_filter_push, next_event_id, EventLog, PartyError,
};

verus! {

/// A party as the registry records it, once, at creation. `created_at` is a
/// Unix time in milliseconds.
#[derive(Clone)]
pub struct Party {
    pub party_id: String,
    pub owner_id: String,
    pub party_secret: Option<String>,
    pub created_at: i64,
}

/// Every cached state is the fold of its party's whole history in `log`.
pub open spec fn cache_consistent(c: CacheView<PartyState>, log: Seq<PartyEvent>) -> bool {
    forall|k: Seq<char>| #[trigger] c.entries.contains_key(k) ==> {
        &&& c.entries[k].value.wf()
        &&& c.entries[k].value@ == fold_events(events_of(log, k))
    }
}

/// Determinism: histories that hold the same events give the same state,
/// whoever folds them and however often.
pub proof fn lemma_fold_equivalent_histories(a: Seq<PartyEvent>, b: Seq<PartyEvent>)
    requires
        all_equiv(a, b),
    ensures
        fold_events(a) == fold_events(b),
    decreases a.len(),
{
    if a.len() > 0 {
        let (da, db) = (a.drop_last(), b.drop_last());
        assert(all_equiv(da, db)) by {
            assert forall|i: int| 0 <= i < da.len() implies #[trigger] da[i].equiv(&db[i]) by {
                assert(a[i].equiv(&b[i]));
            }
        }
        lemma_fold_equivalent_histories(da, db);
        assert(a.last().equiv(&b.last()));
    }
}

/// Idempotence: joining as a member, or leaving as a non-member, leaves the
/// state as it is.
pub proof fn lemma_join_leave_idempotent(s: PartyStateView, user: String, is_join: bool)
    requires
        s.members.contains(user@) == is_join,
    ensures
        apply_event(s, PartyEventData::PartyJoinLeave(PartyEventJoinLeave { user_id: user, is_join }))
            == s,
{
    let t = apply_event(s, PartyEventData::PartyJoinLeave(PartyEventJoinLeave { user_id: user, is_join }));
    if is_join {
        assert(t.members =~= s.members);
    } else {
        assert(t.members =~= s.members);
    }
}

proof fn lemma_events_of_push(log: Seq<PartyEvent>, e: PartyEvent, k: Seq<char>)
    ensures
        events_of(log.push(e), k) == (if e.party_id@ == k {
            events_of(log, k).push(e)
        } else {
            events_of(log, k)
        }),
{
    lemma_filter_push(log, for_party(k), e);
}

proof fn lemma_fold_push(s: Seq<PartyEvent>, e: PartyEvent)
    ensures
        fold_events(s.push(e)) == apply_event(fold_events(s), e.data),
{
    assert(s.push(e).drop_last() =~= s);
}

/// Invalidation correctness: after an event is appended and its party's
/// entry evicted, every cached state is still the fold of its history, and
/// the next read of that party recomputes a state that reflects the event,
/// whatever was cached before.
pub proof fn lemma_append_then_invalidate(c: CacheView<PartyState>, log: Seq<PartyEvent>, e: PartyEvent)
    requires
        cache_consistent(c, log),
    ensures
        cache_consistent(CacheView { entries: c.entries.remove(e.party_id@), ..c }, log.push(e)),
        !c.entries.remove(e.party_id@).contains_key(e.party_id@),
        fold_events(events_of(log.push(e), e.party_id@)) == apply_event(
            fold_events(events_of(log, e.party_id@)),
            e.data,
        ),
{
    let c2 = CacheView { entries: c.entries.remove(e.party_id@), ..c };
    assert forall|k: Seq<char>| #[trigger] c2.entries.contains_key(k) implies {
        &&& c2.entries[k].value.wf()
        &&& c2.entries[k].value@ == fold_events(events_of(log.push(e), k))
    } by {
        lemma_events_of_push(log, e, k);
    }
    lemma_events_of_push(log, e, e.party_id@);
    lemma_fold_push(events_of(log, e.party_id@), e);
}

/// Invalidation minimality: an event of a kind the fold ignores changes no
/// party's state, so every cached state stays valid without an eviction.
pub proof fn lemma_ignored_event_keeps_states(c: CacheView<PartyState>, log: Seq<PartyEvent>, e: PartyEvent)
    requires
        cache_consistent(c, log),
        !e.data.affects_projection(),
    ensures
        cache_consistent(c, log.push(e)),
        forall|k: Seq<char>| fold_events(#[trigger] events_of(log.push(e), k)) == fold_events(events_of(log, k)),
{
    assert forall|k: Seq<char>| fold_events(#[trigger] events_of(log.push(e), k)) == fold_events(
        events_of(log, k),
    ) by {
        lemma_events_of_push(log, e, k);
        lemma_fold_push(events_of(log, k), e);
    }
}

impl Party {
    /// Records a party under the given id and seeds its log with the
    /// owner's join.
    pub fn create_with_id(
        party_id: String,
        owner_id: &String,
        party_secret: String,
        created_at: i64,
        log: &mut EventLog,
        cache: &mut CoalescingCache<PartyState>,
    ) -> (r: Result<Party, PartyError>)
        requires
            old(log).wf(),
            old(cache).wf(),
            cache_consistent(old(cache)@, old(log)@),
        ensures
            final(log).wf(),
            final(cache).wf(),
            cache_consistent(final(cache)@, final(log)@),
            (r is Err) == (next_event_id(old(log)@) > i32::MAX),
            r matches Err(e) ==> e == PartyError::Internal && final(log)@ == old(log)@,
            r matches Ok(p) ==> {
                &&& p.party_id == party_id
                &&& p.owner_id == *owner_id
                &&& p.party_secret == Some(party_secret)
                &&& p.created_at == created_at
                &&& final(log)@ == old(log)@.push(
                    PartyEvent {
                        party_id: party_id,
                        event_id: next_event_id(old(log)@) as i32,
                        user_id: *owner_id,
                        data: PartyEventData::PartyJoinLeave(
                            PartyEventJoinLeave { user_id: *owner_id, is_join: true },
                        ),
                        created_at,
                    },
                )
                &&& !final(cache)@.entries.contains_key(party_id@)
            },
    {
        let seed = PartyEventData::PartyJoinLeave(
            PartyEventJoinLeave { user_id: owner_id.clone(), is_join: true },
        );
        match Self::append_event_and_maybe_invalidate(
            &party_id,
            owner_id,
            seed,
            created_at,
            log,
            cache,
        ) {
            Ok(_) => Ok(
                Party {
                    party_id,
                    owner_id: owner_id.clone(),
                    party_secret: Some(party_secret),
                    created_at,
                },
            ),
            Err(e) => Err(e),
        }
    }

    /// Creates a party whose id encodes `random_number`, as `create_with_id`
    /// does. Fails with `Internal`, changing nothing, where no id can be
    /// encoded.
    pub fn create(
        owner_id: &String,
        random_number: u64,
        party_secret: String,
        created_at: i64,
        log: &mut EventLog,
        cache: &mut CoalescingCache<PartyState>,
    ) -> (r: Result<Party, PartyError>)
        requires
            old(log).wf(),
            old(cache).wf(),
            cache_consistent(old(cache)@, old(log)@),
        ensures
            final(log).wf(),
            final(cache).wf(),
            cache_consistent(final(cache)@, final(log)@),
            (r is Err) == (sqids_code(random_number) is None || next_event_id(old(log)@) > i32::MAX),
            r matches Err(e) ==> e == PartyError::Internal && final(log)@ == old(log)@,
            r matches Ok(p) ==> {
                &&& sqids_code(random_number) == Some(p.party_id@)
                &&& p.owner_id == *owner_id
                &&& p.party_secret == Some(party_secret)
                &&& p.created_at == created_at
                &&& final(log)@ == old(log)@.push(
                    PartyEvent {
                        party_id: p.party_id,
                        event_id: next_event_id(old(log)@) as i32,
                        user_id: *owner_id,
                        data: PartyEventData::PartyJoinLeave(
                            PartyEventJoinLeave { user_id: *owner_id, is_join: true },
                        ),
                        created_at,
                    },
                )
            },
    {
        match encode_id(random_number) {
            Some(party_id) => Self::create_with_id(party_id, owner_id, party_secret, created_at, log, cache),
            None => Err(PartyError::Internal),
        }
    }

    /// Folds an ordered history into the party's state.
    pub fn index_party_state(events: &Vec<PartyEvent>) -> (r: PartyState)
        ensures
            r.wf(),
            r@ == fold_events(events@),
    {
        let mut state = PartyState::empty();
        let mut i: usize = 0;
        while i < events.len()
            invariant
                i <= events@.len(),
                state.wf(),
                state@ == fold_events(events@.subrange(0, i as int)),
            decreases events@.len() - i,
        {
            state.apply(&events[i].data);
            proof {
                assert(events@.subrange(0, i + 1).drop_last() =~= events@.subrange(0, i as int));
            }
            i = i + 1;
        }
        assert(events@.subrange(0, i as int) =~= events@);
        state
    }

    /// The current state of a party, read through the cache: a live entry is
    /// returned as it is, a miss folds the party's whole history and stores
    /// the result. Either way it is the fold of the history.
    pub fn get_party_state(
        party_id: &String,
        log: &EventLog,
        cache: &mut CoalescingCache<PartyState>,
        now: u64,
    ) -> (r: PartyState)
        requires
            old(cache).wf(),
            cache_consistent(old(cache)@, log@),
        ensures
            final(cache).wf(),
            cache_consistent(final(cache)@, log@),
            r.wf(),
            r@ == fold_events(events_of(log@, party_id@)),
            begin_step(old(cache)@, party_id@, now).1 == Lookup::Start ==> {
                &&& final(cache)@ == finish_step(
                    begin_step(old(cache)@, party_id@, now).0,
                    party_id@,
                    Some(final(cache)@.entries[party_id@].value),
                    now,
                )
                &&& final(cache)@.entries[party_id@].value@ == r@
            },
            begin_step(old(cache)@, party_id@, now).1 != Lookup::Start ==> final(cache)@ == begin_step(
                old(cache)@,
                party_id@,
                now,
            ).0,
    {
        let ghost c0 = cache@;
        let lookup = cache.begin(party_id, now);
        assert(cache_consistent(cache@, log@)) by {
            assert forall|k: Seq<char>| #[trigger] cache@.entries.contains_key(k) implies {
                &&& cache@.entries[k].value.wf()
                &&& cache@.entries[k].value@ == fold_events(events_of(log@, k))
            } by {
                assert(c0.entries.contains_key(k));
            }
        }
        match lookup {
            Lookup::Hit => {
                match cache.value(party_id) {
                    Some(v) => v.snapshot(),
                    None => Self::compute(party_id, log),
                }
            },
            Lookup::Join => Self::compute(party_id, log),
            Lookup::Start => {
                let state = Self::compute(party_id, log);
                let copy = state.snapshot();
                cache.finish(party_id, Some(copy), now);
                state
            },
        }
    }

    fn compute(party_id: &String, log: &EventLog) -> (r: PartyState)
        ensures
            r.wf(),
            r@ == fold_events(events_of(log@, party_id@)),
    {
        let events = PartyEvent::get_join_leave_events(party_id, log);
        let state = Self::index_party_state(&events);
        proof {
            lemma_fold_equivalent_histories(events@, events_of(log@, party_id@));
        }
        state
    }

    /// Whether `user_id` is currently a member of the party.
    pub fn get_user_is_in_party(
        user_id: &String,
        party_id: &String,
        log: &EventLog,
        cache: &mut CoalescingCache<PartyState>,
        now: u64,
    ) -> (r: bool)
        requires
            old(cache).wf(),
            cache_consistent(old(cache)@, log@),
        ensures
            final(cache).wf(),
            cache_consistent(final(cache)@, log@),
            r == fold_events(events_of(log@, party_id@)).members.contains(user_id@),
    {
        let state = Self::get_party_state(party_id, log, cache, now);
        state.contains_member(user_id)
    }

    /// Appends an event and, when its kind changes the state, evicts the
    /// party's cached state before returning.
    pub fn append_event_and_maybe_invalidate(
        party_id: &String,
        user_id: &String,
        data: PartyEventData,
        created_at: i64,
        log: &mut EventLog,
        cache: &mut CoalescingCache<PartyState>,
    ) -> (r: Result<PartyEvent, PartyError>)
        requires
            old(log).wf(),
            old(cache).wf(),
            cache_consistent(old(cache)@, old(log)@),
        ensures
            final(log).wf(),
            final(cache).wf(),
            cache_consistent(final(cache)@, final(log)@),
            (r is Err) == (next_event_id(old(log)@) > i32::MAX),
            r matches Err(e) ==> e == PartyError::Internal && final(log)@ == old(log)@,
            r matches Ok(e) ==> {
                &&& e.event_id == next_event_id(old(log)@)
                &&& final(log)@ == old(log)@.push(
                    PartyEvent {
                        party_id: *party_id,
                        event_id: e.event_id,
                        user_id: *user_id,
                        data,
                        created_at,
                    },
                )
            },
            final(cache)@ == (if r is Ok && data.affects_projection() {
                CacheView { entries: old(cache)@.entries.remove(party_id@), ..old(cache)@ }
            } else {
                old(cache)@
            }),
    {
        let invalidates = data.requires_cache_invalidation();
        let r = PartyEvent::create(party_id, user_id, data, created_at, log);
        match r {
            Ok(e) => {
                proof {
                    let stored = log@.last();
                    assert(log@ == old(log)@.push(stored));
                    if invalidates {
                        lemma_append_then_invalidate(cache@, old(log)@, stored);
                    } else {
                        lemma_ignored_event_keeps_states(cache@, old(log)@, stored);
                    }
                }
                if invalidates {
                    cache.invalidate(party_id);
                }
                Ok(e)
            },
            Err(e) => Err(e),
        }
    }
}

} // verus!
