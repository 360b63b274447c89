use vstd::prelude::*;

use crate::models::{BattleMetricsPlayer, BattleMetricsPlayerResponse};

verus! {

/// Text with every leading `"` removed.
pub open spec fn strip_leading_quotes(s: Seq<char>) -> Seq<char>
    decreases s.len(),
{
    if s.len() > 0 && s[0] == '"' {
        strip_leading_quotes(s.drop_first())
    } else {
        s
    }
}

/// Text with every trailing `"` removed.
pub open spec fn strip_trailing_quotes(s: Seq<char>) -> Seq<char>
    decreases s.len(),
{
    if s.len() > 0 && s.last() == '"' {
        strip_trailing_quotes(s.drop_last())
    } else {
        s
    }
}

pub open spec fn without_quotes(s: Seq<char>) -> Seq<char> {
    strip_trailing_quotes(strip_leading_quotes(s))
}

/// Relies on `str::trim_matches` with a `char` pattern: it removes every
/// leading and every trailing occurrence of the character.
#[verifier::external_body]
fn trim_quotes(s: &str) -> (r: &str)
    ensures
        r@ == without_quotes(s@),
{
    s.trim_matches('"')
}

/// Lexicographic order of text by the code points of its characters.
pub open spec fn text_less(a: Seq<char>, b: Seq<char>) -> bool
    decreases a.len(),
{
    if a.len() == 0 {
        b.len() > 0
    } else if b.len() == 0 {
        false
    } else if a[0] != b[0] {
        a[0] < b[0]
    } else {
        text_less(a.drop_first(), b.drop_first())
    }
}

/// Relies on `<String as PartialOrd>::lt`: strings compare by their UTF-8
/// bytes, lexicographically, which orders them as the code points of
/// their characters do.
#[verifier::external_body]
fn less_text(a: &String, b: &String) -> (r: bool)
    ensures
        r == text_less(a@, b@),
{
    a < b
}

proof fn lemma_text_less_transitive(a: Seq<char>, b: Seq<char>, c: Seq<char>)
    requires
        text_less(a, b),
        text_less(b, c),
    ensures
        text_less(a, c),
    decreases a.len(),
{
    if a.len() > 0 && a[0] == b[0] && b[0] == c[0] {
        lemma_text_less_transitive(a.drop_first(), b.drop_first(), c.drop_first());
    }
}

proof fn lemma_text_less_total(a: Seq<char>, b: Seq<char>)
    ensures
        text_less(a, b) || text_less(b, a) || a == b,
    decreases a.len(),
{
    if a.len() == 0 && b.len() == 0 {
        assert(a =~= b);
    } else if a.len() > 0 && b.len() > 0 && a[0] == b[0] {
        let (a1, b1) = (a.drop_first(), b.drop_first());
        lemma_text_less_total(a1, b1);
        if a1 == b1 {
            assert(a =~= seq![a[0]] + a1);
            assert(b =~= seq![b[0]] + b1);
        }
    }
}

proof fn lemma_text_less_irreflexive(a: Seq<char>)
    ensures
        !text_less(a, a),
    decreases a.len(),
{
    if a.len() > 0 {
        lemma_text_less_irreflexive(a.drop_first());
    }
}

/// The order the players are ranked in: no time seen comes before any.
pub open spec fn seen_less(a: Option<String>, b: Option<String>) -> bool {
    match (a, b) {
        (None, Some(_)) => true,
        (Some(x), Some(y)) => text_less(x@, y@),
        _ => false,
    }
}

pub open spec fn seen_key(a: Option<String>) -> Option<Seq<char>> {
    match a {
        Some(x) => Some(x@),
        None => None,
    }
}

proof fn lemma_seen_less_order(a: Option<String>, b: Option<String>, c: Option<String>)
    ensures
        !seen_less(a, a),
        seen_less(a, b) && seen_less(b, c) ==> seen_less(a, c),
        seen_less(a, b) || seen_less(b, a) || seen_key(a) == seen_key(b),
        seen_key(a) == seen_key(b) ==> (seen_less(a, c) == seen_less(b, c) && seen_less(c, a)
            == seen_less(c, b)),
{
    if let Some(x) = a {
        lemma_text_less_irreflexive(x@);
    }
    match (a, b, c) {
        (Some(x), Some(y), Some(z)) => {
            if text_less(x@, y@) && text_less(y@, z@) {
                lemma_text_less_transitive(x@, y@, z@);
            }
        },
        _ => {},
    }
    match (a, b) {
        (Some(x), Some(y)) => lemma_text_less_total(x@, y@),
        _ => {},
    }
}

fn seen_before(a: &Option<String>, b: &Option<String>) -> (r: bool)
    ensures
        r == seen_less(*a, *b),
{
    match (a, b) {
        (None, Some(_)) => true,
        (Some(x), Some(y)) => less_text(x, y),
        _ => false,
    }
}

/// A moment as whole seconds since the Unix epoch and nanoseconds within
/// the second.
pub open spec fn instant_after(t: (i64, u32), cutoff: (i64, u32)) -> bool {
    t.0 > cutoff.0 || (t.0 == cutoff.0 && t.1 > cutoff.1)
}

/// The moment that chrono reads from RFC 3339 text, or `None` where the
/// text is not RFC 3339.
pub uninterp spec fn rfc3339_instant(s: Seq<char>) -> Option<(i64, u32)>;

/// Relies on `chrono::DateTime::parse_from_rfc3339`, `timestamp` and
/// `timestamp_subsec_nanos`: the moment depends on the text alone.
#[verifier::external_body]
pub(crate) fn parse_rfc3339(s: &str) -> (r: Option<(i64, u32)>)
    ensures
        r == rfc3339_instant(s@),
{
    match chrono::DateTime::parse_from_rfc3339(s) {
        Ok(d) => Some((d.timestamp(), d.timestamp_subsec_nanos())),
        Err(_) => None,
    }
}

/// When a player was last seen, read from the text BattleMetrics gives.
pub open spec fn last_seen_instant(last_seen: Option<String>) -> Option<(i64, u32)> {
    match last_seen {
        Some(s) => rfc3339_instant(without_quotes(s@)),
        None => None,
    }
}

/// Five days, the window within which a player counts as recently seen.
pub const RECENT_WINDOW_SECS: i64 = 432_000;

/// More matches than this make a name ambiguous.
pub const MAX_PLAYER_MATCHES: usize = 4;

pub enum PlayerLookupError {
    /// More players than `MAX_PLAYER_MATCHES` were seen recently.
    TooManyResults(usize),
    /// No player was seen recently.
    NoResults,
}

pub open spec fn is_recent(seen: Option<(i64, u32)>, cutoff: (i64, u32)) -> bool {
    match seen {
        Some(t) => instant_after(t, cutoff),
        None => false,
    }
}

pub open spec fn count_recent(seen: Seq<Option<(i64, u32)>>, cutoff: (i64, u32)) -> nat
    decreases seen.len(),
{
    if seen.len() == 0 {
        0
    } else {
        count_recent(seen.drop_last(), cutoff) + if is_recent(seen.last(), cutoff) {
            1nat
        } else {
            0nat
        }
    }
}

/// Player `i` is recent, no recent player ranks above it, and every recent
/// player before it ranks below it: the first of the latest seen.
pub open spec fn is_pick(
    players: Seq<BattleMetricsPlayer>,
    seen: Seq<Option<(i64, u32)>>,
    cutoff: (i64, u32),
    i: int,
) -> bool {
    &&& 0 <= i < players.len()
    &&& is_recent(seen[i], cutoff)
    &&& forall|j: int|
        0 <= j < players.len() && is_recent(seen[j], cutoff) ==> !seen_less(
            players[i].last_seen,
            #[trigger] players[j].last_seen,
        )
    &&& forall|j: int|
        0 <= j < i && is_recent(seen[j], cutoff) ==> seen_less(
            #[trigger] players[j].last_seen,
            players[i].last_seen,
        )
}

/// The outcome of picking a player: too many or no recent players are
/// errors; otherwise the first of the most recently seen.
pub open spec fn selection(
    players: Seq<BattleMetricsPlayer>,
    seen: Seq<Option<(i64, u32)>>,
    cutoff: (i64, u32),
    r: Result<BattleMetricsPlayerResponse, PlayerLookupError>,
) -> bool {
    let n = count_recent(seen, cutoff);
    match r {
        Err(PlayerLookupError::TooManyResults(m)) => n > MAX_PLAYER_MATCHES && m == n,
        Err(PlayerLookupError::NoResults) => n == 0,
        Ok(resp) => 0 < n <= MAX_PLAYER_MATCHES && exists|i: int|
            is_pick(players, seen, cutoff, i) && resp.data == players[i],
    }
}

proof fn lemma_count_zero(seen: Seq<Option<(i64, u32)>>, cutoff: (i64, u32))
    requires
        count_recent(seen, cutoff) == 0,
    ensures
        forall|j: int| 0 <= j < seen.len() ==> !is_recent(#[trigger] seen[j], cutoff),
    decreases seen.len(),
{
    if seen.len() > 0 {
        let d = seen.drop_last();
        lemma_count_zero(d, cutoff);
        assert forall|j: int| 0 <= j < seen.len() implies !is_recent(#[trigger] seen[j], cutoff) by {
            if j < d.len() {
                assert(seen[j] == d[j]);
            }
        }
    }
}

fn recent(seen: &Option<(i64, u32)>, cutoff: (i64, u32)) -> (r: bool)
    ensures
        r == is_recent(*seen, cutoff),
{
    match seen {
        Some(t) => t.0 > cutoff.0 || (t.0 == cutoff.0 && t.1 > cutoff.1),
        None => false,
    }
}

/// When each player was last seen.
pub open spec fn seen_instants(players: Seq<BattleMetricsPlayer>) -> Seq<Option<(i64, u32)>> {
    players.map_values(|p: BattleMetricsPlayer| last_seen_instant(p.last_seen))
}

/// The moment `RECENT_WINDOW_SECS` before `now`, or the earliest moment
/// there is where that lies before it.
pub open spec fn recent_cutoff(now: (i64, u32)) -> (i64, u32) {
    if now.0 >= i64::MIN + RECENT_WINDOW_SECS {
        ((now.0 - RECENT_WINDOW_SECS) as i64, now.1)
    } else {
        (i64::MIN, now.1)
    }
}

impl BattleMetricsPlayerResponse {

    /// Picks the player a name search meant: the first of those seen most
    /// recently, among those seen within `RECENT_WINDOW_SECS` before `now`;
    /// an error where none or more than `MAX_PLAYER_MATCHES` were. A time
    /// seen is read as RFC 3339 text, quotes around it ignored.
    pub fn from(players: Vec<BattleMetricsPlayer>, now: (i64, u32)) -> (r: Result<
        BattleMetricsPlayerResponse,
        PlayerLookupError,
    >)
        ensures
            selection(players@, seen_instants(players@), recent_cutoff(now), r),
    {
        let mut seen: Vec<Option<(i64, u32)>> = Vec::new();
        let mut i: usize = 0;
        while i < players.len()
            invariant
                i <= players@.len(),
                seen@ == seen_instants(players@).subrange(0, i as int),
            decreases players@.len() - i,
        {
            let instant = match &players[i].last_seen {
                Some(text) => parse_rfc3339(trim_quotes(text.as_str())),
                None => None,
            };
            seen.push(instant);
            i = i + 1;
            proof {
                assert(seen@ =~= seen_instants(players@).subrange(0, i as int));
            }
        }
        proof {
            assert(seen@ =~= seen_instants(players@));
        }
        let cutoff_secs = if now.0 >= i64::MIN + RECENT_WINDOW_SECS {
            now.0 - RECENT_WINDOW_SECS
        } else {
            i64::MIN
        };
        Self::select(players, &seen, (cutoff_secs, now.1))
    }
    /// Picks the player a name search meant, given when each candidate was
    /// last seen and the moment before which a sighting is too old.
    pub fn select(
        players: Vec<BattleMetricsPlayer>,
        seen: &Vec<Option<(i64, u32)>>,
        cutoff: (i64, u32),
    ) -> (r: Result<BattleMetricsPlayerResponse, PlayerLookupError>)
        requires
            players@.len() == seen@.len(),
        ensures
            selection(players@, seen@, cutoff, r),
    {
        let mut players = players;
        let ghost ps = players@;
        let mut count: usize = 0;
        let mut best: Option<usize> = None;
        let mut i: usize = 0;
        while i < players.len()
            invariant
                players@ == ps,
                ps.len() == seen@.len(),
                i <= ps.len(),
                count == count_recent(seen@.subrange(0, i as int), cutoff),
                count <= i,
                (best is None) == (count == 0),
                best matches Some(b) ==> {
                    &&& b < i
                    &&& is_recent(seen@[b as int], cutoff)
                    &&& forall|j: int|
                        0 <= j < i && is_recent(seen@[j], cutoff) ==> !seen_less(
                            ps[b as int].last_seen,
                            #[trigger] ps[j].last_seen,
                        )
                    &&& forall|j: int|
                        0 <= j < b && is_recent(seen@[j], cutoff) ==> seen_less(
                            #[trigger] ps[j].last_seen,
                            ps[b as int].last_seen,
                        )
                },
            decreases ps.len() - i,
        {
            proof {
                assert(seen@.subrange(0, i + 1).drop_last() =~= seen@.subrange(0, i as int));
            }
            if recent(&seen[i], cutoff) {
                count = count + 1;
                match best {
                    None => {
                        best = Some(i);
                        proof {
                            let pi = ps[i as int].last_seen;
                            lemma_seen_less_order(pi, pi, pi);
                            let prefix = seen@.subrange(0, i as int);
                            lemma_count_zero(prefix, cutoff);
                            assert forall|j: int| 0 <= j < i implies !is_recent(seen@[j], cutoff) by {
                                assert(prefix[j] == seen@[j]);
                            }
                        }
                    },
                    Some(b) => {
                        if seen_before(&players[b].last_seen, &players[i].last_seen) {
                            best = Some(i);
                            proof {
                                let (pb, pi) = (ps[b as int].last_seen, ps[i as int].last_seen);
                                lemma_seen_less_order(pi, pi, pi);
                                assert forall|j: int|
                                    0 <= j < i + 1 && is_recent(seen@[j], cutoff) implies !seen_less(
                                        pi,
                                        #[trigger] ps[j].last_seen,
                                    ) by {
                                    if j < i {
                                        lemma_seen_less_order(pb, pi, ps[j].last_seen);
                                    }
                                }
                                assert forall|j: int|
                                    0 <= j < i && is_recent(seen@[j], cutoff) implies seen_less(
                                        #[trigger] ps[j].last_seen,
                                        pi,
                                    ) by {
                                    let pj = ps[j].last_seen;
                                    lemma_seen_less_order(pj, pb, pi);
                                    lemma_seen_less_order(pb, pj, pi);
                                }
                            }
                        } else {
                            proof {
                                let (pb, pi) = (ps[b as int].last_seen, ps[i as int].last_seen);
                                lemma_seen_less_order(pb, pi, pi);
                            }
                        }
                    },
                }
            }
            i = i + 1;
        }
        proof {
            assert(seen@.subrange(0, i as int) =~= seen@);
        }
        if count > MAX_PLAYER_MATCHES {
            return Err(PlayerLookupError::TooManyResults(count));
        }
        match best {
            None => Err(PlayerLookupError::NoResults),
            Some(b) => {
                let data = players.swap_remove(b);
                proof {
                    assert(is_pick(ps, seen@, cutoff, b as int));
                }
                Ok(BattleMetricsPlayerResponse { data })
            },
        }
    }
}

} // verus!
