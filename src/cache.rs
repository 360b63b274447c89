use vstd::prelude::*;

use crate::text::{find_string, lemma_string_set_push, lemma_string_set_remove, string_set, strings_unique};

verus! {

/// Expiry and capacity of one cache instance. Times are in milliseconds.
#[derive(Clone, Copy)]
pub struct CacheConfig {
    /// Maximum age of an entry from its insertion.
    pub time_to_live_ms: u64,
    /// Maximum time since an entry was last read, where configured.
    pub time_to_idle_ms: Option<u64>,
    /// Soft cap on the number of entries, enforced by `sweep`.
    pub max_capacity: u64,
}

pub struct EntryView<V> {
    pub value: V,
    pub inserted_at: u64,
    pub last_access: u64,
}

/// The abstract state of a cache: its live and stale entries, and the keys
/// whose value is being computed.
pub struct CacheView<V> {
    pub config: CacheConfig,
    pub entries: Map<Seq<char>, EntryView<V>>,
    pub in_flight: Set<Seq<char>>,
}

/// What a reader must do after `begin`.
#[derive(PartialEq, Eq, Structural)]
pub enum Lookup {
    /// A live entry exists: read it with `value`.
    Hit,
    /// This reader computes the value, then calls `finish`.
    Start,
    /// A computation is already running: await its outcome.
    Join,
}

/// Past its time to live, or idle for longer than its time to idle.
pub open spec fn is_expired<V>(config: CacheConfig, e: EntryView<V>, now: u64) -> bool {
    ||| now >= e.inserted_at + config.time_to_live_ms
    ||| match config.time_to_idle_ms {
        Some(t) => now >= e.last_access + t,
        None => false,
    }
}

pub open spec fn is_live<V>(s: CacheView<V>, k: Seq<char>, now: u64) -> bool {
    s.entries.contains_key(k) && !is_expired(s.config, s.entries[k], now)
}

/// A read of `k` at `now`: a hit refreshes the entry's last access; a miss
/// drops any stale entry and either joins the running computation or
/// starts the only one.
pub open spec fn begin_step<V>(s: CacheView<V>, k: Seq<char>, now: u64) -> (CacheView<V>, Lookup) {
    if is_live(s, k, now) {
        (
            CacheView {
                entries: s.entries.insert(k, EntryView { last_access: now, ..s.entries[k] }),
                ..s
            },
            Lookup::Hit,
        )
    } else if s.in_flight.contains(k) {
        (CacheView { entries: s.entries.remove(k), ..s }, Lookup::Join)
    } else {
        (
            CacheView { entries: s.entries.remove(k), in_flight: s.in_flight.insert(k), ..s },
            Lookup::Start,
        )
    }
}

/// The end of the computation for `k`: a value is stored as a fresh entry,
/// a failure (`None`) stores nothing.
pub open spec fn finish_step<V>(s: CacheView<V>, k: Seq<char>, outcome: Option<V>, now: u64) -> CacheView<V> {
    CacheView {
        entries: match outcome {
            Some(v) => s.entries.insert(k, EntryView { value: v, inserted_at: now, last_access: now }),
            None => s.entries,
        },
        in_flight: s.in_flight.remove(k),
        ..s
    }
}

/// `t` is `s` after a sweep at `now`: no expired entry is left, every live
/// entry is kept unless the capacity is exceeded, and then only the least
/// recently used ones go, down to the capacity.
pub open spec fn is_swept<V>(s: CacheView<V>, t: CacheView<V>, now: u64) -> bool {
    &&& t.config == s.config
    &&& t.in_flight == s.in_flight
    &&& t.entries.submap_of(s.entries)
    &&& t.entries.dom().finite()
    &&& t.entries.dom().len() <= s.config.max_capacity
    &&& forall|k: Seq<char>| #[trigger] t.entries.contains_key(k) ==> !is_expired(s.config, t.entries[k], now)
    &&& forall|k: Seq<char>| #[trigger] is_live(s, k, now) && !t.entries.contains_key(k) ==> {
        &&& t.entries.dom().len() == s.config.max_capacity
        &&& forall|k2: Seq<char>| #[trigger] t.entries.contains_key(k2)
            ==> s.entries[k].last_access <= t.entries[k2].last_access
    }
}

/// Reads of `k` at the given times, one after another, with no computation
/// finishing in between: the final state and what each reader was told.
pub open spec fn begin_all<V>(s: CacheView<V>, k: Seq<char>, times: Seq<u64>) -> (CacheView<V>, Seq<Lookup>)
    decreases times.len(),
{
    if times.len() == 0 {
        (s, Seq::empty())
    } else {
        let (t, outs) = begin_all(s, k, times.drop_last());
        let (u, o) = begin_step(t, k, times.last());
        (u, outs.push(o))
    }
}

/// Coalescing: of any number of readers that arrive for a key with no live
/// entry and no running computation, exactly the first starts the
/// computation and every later one joins it, so that all of them receive
/// the one outcome passed to `finish`.
pub proof fn lemma_single_flight<V>(s: CacheView<V>, k: Seq<char>, times: Seq<u64>)
    requires
        times.len() > 0,
        !is_live(s, k, times[0]),
        !s.in_flight.contains(k),
    ensures
        begin_all(s, k, times).1.len() == times.len(),
        begin_all(s, k, times).1[0] == Lookup::Start,
        forall|i: int| 1 <= i < times.len() ==> begin_all(s, k, times).1[i] == Lookup::Join,
        begin_all(s, k, times).0.in_flight.contains(k),
        !begin_all(s, k, times).0.entries.contains_key(k),
    decreases times.len(),
{
    let d = times.drop_last();
    if times.len() > 1 {
        assert(d[0] == times[0]);
        lemma_single_flight(s, k, d);
    } else {
        assert(begin_all(s, k, d) == (s, Seq::<Lookup>::empty()));
    }
    let (t, outs) = begin_all(s, k, d);
    let (u, o) = begin_step(t, k, times.last());
    assert(begin_all(s, k, times) == (u, outs.push(o)));
}

/// A successful computation is shared: until it expires, every reader of
/// the key hits the value it produced.
pub proof fn lemma_outcome_shared<V>(s: CacheView<V>, k: Seq<char>, v: V, now: u64, later: u64)
    requires
        now <= later,
        later < now + s.config.time_to_live_ms,
        s.config.time_to_idle_ms matches Some(t) ==> later < now + t,
    ensures
        begin_step(finish_step(s, k, Some(v), now), k, later).1 == Lookup::Hit,
        begin_step(finish_step(s, k, Some(v), now), k, later).0.entries[k].value == v,
{
}

/// A failed computation leaves nothing behind: the next reader of the key
/// starts a new one.
pub proof fn lemma_failure_not_cached<V>(s: CacheView<V>, k: Seq<char>, now: u64, later: u64)
    requires
        !s.entries.contains_key(k),
    ensures
        begin_step(finish_step(s, k, None, now), k, later).1 == Lookup::Start,
{
}

proof fn lemma_hits_before_expiry<V>(s: CacheView<V>, k: Seq<char>, t0: u64, times: Seq<u64>)
    requires
        s.entries.contains_key(k) ==> s.entries[k].inserted_at == t0,
    ensures
        begin_all(s, k, times).0.entries.contains_key(k) ==> begin_all(s, k, times).0.entries[k].inserted_at == t0,
        begin_all(s, k, times).1.len() == times.len(),
        forall|i: int|
            0 <= i < times.len() && begin_all(s, k, times).1[i] == Lookup::Hit ==> times[i] < t0
                + s.config.time_to_live_ms,
    decreases times.len(),
{
    if times.len() > 0 {
        let d = times.drop_last();
        lemma_hits_before_expiry(s, k, t0, d);
        let (t, outs) = begin_all(s, k, d);
        assert(t.config == s.config) by {
            lemma_begin_all_config(s, k, d);
        }
        assert forall|i: int|
            0 <= i < times.len() && begin_all(s, k, times).1[i] == Lookup::Hit implies times[i] < t0
                + s.config.time_to_live_ms by {
            if i < d.len() {
                assert(begin_all(s, k, times).1[i] == outs[i]);
                assert(times[i] == d[i]);
            }
        }
    }
}

proof fn lemma_begin_all_config<V>(s: CacheView<V>, k: Seq<char>, times: Seq<u64>)
    ensures
        begin_all(s, k, times).0.config == s.config,
    decreases times.len(),
{
    if times.len() > 0 {
        lemma_begin_all_config(s, k, times.drop_last());
    }
}

/// Expiry: a value stored at `t0` is never a hit for a read at or after
/// `t0` plus the time to live, however often it was read before.
pub proof fn lemma_expiry<V>(s: CacheView<V>, k: Seq<char>, v: V, t0: u64, times: Seq<u64>)
    ensures
        begin_all(finish_step(s, k, Some(v), t0), k, times).1.len() == times.len(),
        forall|i: int|
            0 <= i < times.len() && times[i] >= t0 + s.config.time_to_live_ms
                ==> begin_all(finish_step(s, k, Some(v), t0), k, times).1[i] != Lookup::Hit,
{
    lemma_hits_before_expiry(finish_step(s, k, Some(v), t0), k, t0, times);
}

struct Slot<V> {
    key: String,
    value: V,
    inserted_at: u64,
    last_access: u64,
}

spec fn slot_entry<V>(s: Slot<V>) -> EntryView<V> {
    EntryView { value: s.value, inserted_at: s.inserted_at, last_access: s.last_access }
}

spec fn keys_unique<V>(m: Seq<Slot<V>>) -> bool {
    forall|i: int, j: int| 0 <= i < m.len() && 0 <= j < m.len() && i != j ==> m[i].key@ != m[j].key@
}

spec fn entries_of<V>(m: Seq<Slot<V>>) -> Map<Seq<char>, EntryView<V>> {
    Map::new(
        |k: Seq<char>| exists|i: int| 0 <= i < m.len() && m[i].key@ == k,
        |k: Seq<char>| slot_entry(m[choose|i: int| 0 <= i < m.len() && m[i].key@ == k]),
    )
}

proof fn lemma_entries_at<V>(m: Seq<Slot<V>>, i: int)
    requires
        keys_unique(m),
        0 <= i < m.len(),
    ensures
        entries_of(m).contains_key(m[i].key@),
        entries_of(m)[m[i].key@] == slot_entry(m[i]),
{
    let k = m[i].key@;
    assert(entries_of(m).dom().contains(k));
    let j = choose|j: int| 0 <= j < m.len() && m[j].key@ == k;
    assert(j == i);
}

proof fn lemma_entries_remove<V>(m: Seq<Slot<V>>, i: int)
    requires
        keys_unique(m),
        0 <= i < m.len(),
    ensures
        keys_unique(m.remove(i)),
        entries_of(m.remove(i)) == entries_of(m).remove(m[i].key@),
{
    let n = m.remove(i);
    let a = entries_of(n);
    let b = entries_of(m).remove(m[i].key@);
    assert forall|x: int, y: int| 0 <= x < n.len() && 0 <= y < n.len() && x != y implies n[x].key@
        != n[y].key@ by {
        let x0 = if x < i { x } else { x + 1 };
        let y0 = if y < i { y } else { y + 1 };
        assert(n[x] == m[x0] && n[y] == m[y0]);
    }
    assert forall|k: Seq<char>| #[trigger] a.dom().contains(k) == b.dom().contains(k) by {
        if a.dom().contains(k) {
            let j = choose|j: int| 0 <= j < n.len() && n[j].key@ == k;
            let j0 = if j < i { j } else { j + 1 };
            assert(m[j0].key@ == k);
        }
        if b.dom().contains(k) {
            let j = choose|j: int| 0 <= j < m.len() && m[j].key@ == k;
            if j < i {
                assert(n[j].key@ == k);
            } else {
                assert(n[j - 1].key@ == k);
            }
        }
    }
    assert forall|k: Seq<char>| #[trigger] a.dom().contains(k) implies a[k] == b[k] by {
        let j = choose|j: int| 0 <= j < n.len() && n[j].key@ == k;
        let j0 = if j < i { j } else { j + 1 };
        assert(n[j] == m[j0]);
        lemma_entries_at(m, j0);
    }
    assert(a =~= b);
}

proof fn lemma_entries_push<V>(m: Seq<Slot<V>>, s: Slot<V>)
    requires
        keys_unique(m),
        !entries_of(m).contains_key(s.key@),
    ensures
        keys_unique(m.push(s)),
        entries_of(m.push(s)) == entries_of(m).insert(s.key@, slot_entry(s)),
{
    let n = m.push(s);
    let a = entries_of(n);
    let b = entries_of(m).insert(s.key@, slot_entry(s));
    assert forall|x: int, y: int| 0 <= x < n.len() && 0 <= y < n.len() && x != y implies n[x].key@
        != n[y].key@ by {
        if x == m.len() {
            assert(!(0 <= y < m.len() && m[y].key@ == s.key@));
        } else if y == m.len() {
            assert(!(0 <= x < m.len() && m[x].key@ == s.key@));
        }
    }
    assert forall|k: Seq<char>| #[trigger] a.dom().contains(k) == b.dom().contains(k) by {
        if a.dom().contains(k) {
            let j = choose|j: int| 0 <= j < n.len() && n[j].key@ == k;
            if j < m.len() {
                assert(m[j].key@ == k);
            }
        }
        if entries_of(m).dom().contains(k) {
            let j = choose|j: int| 0 <= j < m.len() && m[j].key@ == k;
            assert(n[j].key@ == k);
        }
        if k == s.key@ {
            assert(n[m.len() as int].key@ == k);
        }
    }
    assert forall|k: Seq<char>| #[trigger] a.dom().contains(k) implies a[k] == b[k] by {
        lemma_entries_at(n, choose|j: int| 0 <= j < n.len() && n[j].key@ == k);
        if k != s.key@ {
            let j = choose|j: int| 0 <= j < m.len() && m[j].key@ == k;
            lemma_entries_at(m, j);
            lemma_entries_at(n, j);
        } else {
            lemma_entries_at(n, m.len() as int);
        }
    }
    assert(a =~= b);
}

proof fn lemma_entries_update<V>(m: Seq<Slot<V>>, i: int, s: Slot<V>)
    requires
        keys_unique(m),
        0 <= i < m.len(),
        s.key@ == m[i].key@,
    ensures
        keys_unique(m.update(i, s)),
        entries_of(m.update(i, s)) == entries_of(m).insert(s.key@, slot_entry(s)),
{
    lemma_entries_remove(m, i);
    let r = m.remove(i);
    lemma_entries_push(r, s);
    let n = m.update(i, s);
    let p = r.push(s);
    // `n` and `p` hold the same slots in another order.
    let a = entries_of(n);
    let b = entries_of(p);
    assert forall|x: int, y: int| 0 <= x < n.len() && 0 <= y < n.len() && x != y implies n[x].key@
        != n[y].key@ by {
        assert(n[x].key@ == m[x].key@ && n[y].key@ == m[y].key@);
    }
    assert forall|k: Seq<char>| #[trigger] a.dom().contains(k) == b.dom().contains(k) by {
        if a.dom().contains(k) {
            let j = choose|j: int| 0 <= j < n.len() && n[j].key@ == k;
            if j == i {
                assert(p[p.len() - 1].key@ == k);
            } else if j < i {
                assert(p[j].key@ == k);
            } else {
                assert(p[j - 1].key@ == k);
            }
        }
        if b.dom().contains(k) {
            let j = choose|j: int| 0 <= j < p.len() && p[j].key@ == k;
            if j == p.len() - 1 {
                assert(n[i].key@ == k);
            } else if j < i {
                assert(n[j].key@ == k);
            } else {
                assert(n[j + 1].key@ == k);
            }
        }
    }
    assert forall|k: Seq<char>| #[trigger] a.dom().contains(k) implies a[k] == b[k] by {
        let j = choose|j: int| 0 <= j < n.len() && n[j].key@ == k;
        lemma_entries_at(n, j);
        if j == i {
            lemma_entries_at(p, p.len() - 1);
        } else if j < i {
            lemma_entries_at(p, j);
        } else {
            lemma_entries_at(p, j - 1);
        }
    }
    assert(a =~= b);
}

proof fn lemma_entries_len<V>(m: Seq<Slot<V>>)
    requires
        keys_unique(m),
    ensures
        entries_of(m).dom().finite(),
        entries_of(m).dom().len() == m.len(),
    decreases m.len(),
{
    if m.len() == 0 {
        assert(entries_of(m).dom() =~= Set::empty());
    } else {
        let d = m.drop_last();
        assert(keys_unique(d));
        lemma_entries_len(d);
        assert(!entries_of(d).contains_key(m.last().key@)) by {
            if entries_of(d).contains_key(m.last().key@) {
                let j = choose|j: int| 0 <= j < d.len() && d[j].key@ == m.last().key@;
                assert(m[j].key@ == m[m.len() - 1].key@);
            }
        }
        lemma_entries_push(d, m.last());
        assert(d.push(m.last()) =~= m);
    }
}

/// A time-bounded, capacity-bounded cache from string keys to values that
/// lets only one computation per key run at a time.
pub struct CoalescingCache<V> {
    config: CacheConfig,
    slots: Vec<Slot<V>>,
    flights: Vec<String>,
}

impl<V> View for CoalescingCache<V> {
    type V = CacheView<V>;

    closed spec fn view(&self) -> CacheView<V> {
        CacheView {
            config: self.config,
            entries: entries_of(self.slots@),
            in_flight: string_set(self.flights@),
        }
    }
}

fn expired<V>(config: &CacheConfig, s: &Slot<V>, now: u64) -> (r: bool)
    ensures
        r == is_expired(*config, slot_entry(*s), now),
{
    let past_ttl = now >= s.inserted_at && now - s.inserted_at >= config.time_to_live_ms;
    let past_tti = match config.time_to_idle_ms {
        Some(t) => now >= s.last_access && now - s.last_access >= t,
        None => false,
    };
    past_ttl || past_tti
}

impl<V> CoalescingCache<V> {
    pub closed spec fn wf(&self) -> bool {
        &&& keys_unique(self.slots@)
        &&& strings_unique(self.flights@)
    }

    pub fn new(config: CacheConfig) -> (r: Self)
        ensures
            r.wf(),
            r@ == (CacheView::<V> { config, entries: Map::empty(), in_flight: Set::empty() }),
    {
        let r = CoalescingCache { config, slots: Vec::new(), flights: Vec::new() };
        assert(r@.entries =~= Map::empty());
        assert(r@.in_flight =~= Set::empty());
        r
    }

    pub fn config(&self) -> (r: CacheConfig)
        ensures
            r == self@.config,
    {
        self.config
    }

    fn find(&self, key: &String) -> (r: Option<usize>)
        requires
            self.wf(),
        ensures
            match r {
                Some(i) => i < self.slots@.len() && self.slots@[i as int].key@ == key@,
                None => !self@.entries.contains_key(key@),
            },
    {
        let mut i: usize = 0;
        while i < self.slots.len()
            invariant
                i <= self.slots@.len(),
                forall|j: int| 0 <= j < i ==> self.slots@[j].key@ != key@,
            decreases self.slots@.len() - i,
        {
            if self.slots[i].key == *key {
                return Some(i);
            }
            i = i + 1;
        }
        None
    }

    /// Starts a read of `key` at time `now`, as `begin_step` says.
    pub fn begin(&mut self, key: &String, now: u64) -> (r: Lookup)
        requires
            old(self).wf(),
        ensures
            final(self).wf(),
            (final(self)@, r) == begin_step(old(self)@, key@, now),
    {
        let ghost s0 = self@;
        match self.find(key) {
            Some(i) => {
                proof {
                    lemma_entries_at(self.slots@, i as int);
                }
                if !expired(&self.config, &self.slots[i], now) {
                    let ghost m = self.slots@;
                    let old_slot = self.slots.remove(i);
                    let slot = Slot {
                        key: old_slot.key,
                        value: old_slot.value,
                        inserted_at: old_slot.inserted_at,
                        last_access: now,
                    };
                    self.slots.insert(i, slot);
                    proof {
                        assert(self.slots@ =~= m.update(i as int, slot));
                        lemma_entries_update(m, i as int, slot);
                        assert(self@.entries =~= s0.entries.insert(
                            key@,
                            EntryView { last_access: now, ..s0.entries[key@] },
                        ));
                    }
                    return Lookup::Hit;
                }
                proof {
                    lemma_entries_remove(self.slots@, i as int);
                }
                self.slots.remove(i);
            },
            None => {
                assert(self@.entries =~= s0.entries.remove(key@));
            },
        }
        assert(self@.entries == s0.entries.remove(key@));
        match find_string(&self.flights, key) {
            Some(_) => Lookup::Join,
            None => {
                proof {
                    lemma_string_set_push(self.flights@, *key);
                }
                self.flights.push(key.clone());
                Lookup::Start
            },
        }
    }

    /// The value stored for `key`, live or not.
    pub fn value(&self, key: &String) -> (r: Option<&V>)
        requires
            self.wf(),
        ensures
            match r {
                Some(v) => self@.entries.contains_key(key@) && *v == self@.entries[key@].value,
                None => !self@.entries.contains_key(key@),
            },
    {
        match self.find(key) {
            Some(i) => {
                proof {
                    lemma_entries_at(self.slots@, i as int);
                }
                Some(&self.slots[i].value)
            },
            None => None,
        }
    }

    /// Ends the computation for `key`, as `finish_step` says.
    pub fn finish(&mut self, key: &String, outcome: Option<V>, now: u64)
        requires
            old(self).wf(),
        ensures
            final(self).wf(),
            final(self)@ == finish_step(old(self)@, key@, outcome, now),
    {
        let ghost s0 = self@;
        match find_string(&self.flights, key) {
            Some(i) => {
                proof {
                    lemma_string_set_remove(self.flights@, i as int);
                }
                self.flights.remove(i);
            },
            None => {
                assert(self@.in_flight =~= s0.in_flight.remove(key@));
            },
        }
        match outcome {
            Some(v) => {
                let slot = Slot { key: key.clone(), value: v, inserted_at: now, last_access: now };
                match self.find(key) {
                    Some(i) => {
                        let ghost m = self.slots@;
                        self.slots.set(i, slot);
                        proof {
                            lemma_entries_update(m, i as int, slot);
                        }
                    },
                    None => {
                        proof {
                            lemma_entries_push(self.slots@, slot);
                        }
                        self.slots.push(slot);
                    },
                }
            },
            None => {},
        }
    }

    /// Removes the entry for `key`; a running computation is not affected.
    pub fn invalidate(&mut self, key: &String)
        requires
            old(self).wf(),
        ensures
            final(self).wf(),
            final(self)@ == (CacheView { entries: old(self)@.entries.remove(key@), ..old(self)@ }),
    {
        match self.find(key) {
            Some(i) => {
                proof {
                    lemma_entries_remove(self.slots@, i as int);
                }
                self.slots.remove(i);
            },
            None => {
                assert(self@.entries =~= old(self)@.entries.remove(key@));
            },
        }
    }

    fn least_recent(&self) -> (r: usize)
        requires
            self.slots@.len() > 0,
        ensures
            r < self.slots@.len(),
            forall|j: int|
                0 <= j < self.slots@.len() ==> self.slots@[r as int].last_access
                    <= #[trigger] self.slots@[j].last_access,
    {
        let mut best: usize = 0;
        let mut i: usize = 1;
        while i < self.slots.len()
            invariant
                0 < i <= self.slots@.len(),
                best < i,
                forall|j: int|
                    0 <= j < i ==> self.slots@[best as int].last_access
                        <= #[trigger] self.slots@[j].last_access,
            decreases self.slots@.len() - i,
        {
            if self.slots[i].last_access < self.slots[best].last_access {
                best = i;
            }
            i = i + 1;
        }
        best
    }

    /// Drops expired entries, then the least recently used ones while the
    /// capacity is exceeded.
    pub fn sweep(&mut self, now: u64)
        requires
            old(self).wf(),
        ensures
            final(self).wf(),
            is_swept(old(self)@, final(self)@, now),
    {
        let ghost s0 = self@;
        let mut i: usize = 0;
        while i < self.slots.len()
            invariant
                self.wf(),
                self.config == s0.config,
                self@.in_flight == s0.in_flight,
                i <= self.slots@.len(),
                self@.entries.submap_of(s0.entries),
                forall|k: Seq<char>| #[trigger] is_live(s0, k, now) ==> self@.entries.contains_key(k),
                forall|j: int|
                    0 <= j < i ==> !is_expired(s0.config, slot_entry(#[trigger] self.slots@[j]), now),
            decreases self.slots@.len() - i,
        {
            if expired(&self.config, &self.slots[i], now) {
                proof {
                    lemma_entries_at(self.slots@, i as int);
                    lemma_entries_remove(self.slots@, i as int);
                }
                let ghost m = self.slots@;
                self.slots.remove(i);
                assert forall|j: int| 0 <= j < i implies !is_expired(
                    s0.config,
                    slot_entry(#[trigger] self.slots@[j]),
                    now,
                ) by {
                    assert(self.slots@[j] == m[j]);
                }
            } else {
                i = i + 1;
            }
        }
        proof {
            assert forall|k: Seq<char>| #[trigger] self@.entries.contains_key(k) implies !is_expired(
                s0.config,
                self@.entries[k],
                now,
            ) by {
                let j = choose|j: int| 0 <= j < self.slots@.len() && self.slots@[j].key@ == k;
                lemma_entries_at(self.slots@, j);
            }
        }
        let cap = self.config.max_capacity;
        while (self.slots.len() as u64) > cap
            invariant
                self.wf(),
                self.config == s0.config,
                cap == s0.config.max_capacity,
                self@.in_flight == s0.in_flight,
                self@.entries.submap_of(s0.entries),
                forall|k: Seq<char>| #[trigger] self@.entries.contains_key(k)
                    ==> !is_expired(s0.config, self@.entries[k], now),
                forall|k: Seq<char>| #[trigger] is_live(s0, k, now) && !self@.entries.contains_key(k)
                    ==> {
                    &&& self.slots@.len() >= cap
                    &&& forall|k2: Seq<char>| #[trigger] self@.entries.contains_key(k2)
                        ==> s0.entries[k].last_access <= self@.entries[k2].last_access
                },
            decreases self.slots@.len(),
        {
            let m = self.least_recent();
            let ghost before = self.slots@;
            proof {
                lemma_entries_at(before, m as int);
                lemma_entries_remove(before, m as int);
                assert forall|k2: Seq<char>| #[trigger] entries_of(before).contains_key(k2)
                    implies before[m as int].last_access <= entries_of(before)[k2].last_access by {
                    let j = choose|j: int| 0 <= j < before.len() && before[j].key@ == k2;
                    lemma_entries_at(before, j);
                }
            }
            self.slots.remove(m);
        }
        proof {
            lemma_entries_len(self.slots@);
        }
    }

    /// The number of stored entries.
    pub fn size(&self) -> (r: u64)
        requires
            self.wf(),
        ensures
            self@.entries.dom().finite(),
            r == self@.entries.dom().len(),
    {
        proof {
            lemma_entries_len(self.slots@);
        }
        self.slots.len() as u64
    }
}

} // verus!
