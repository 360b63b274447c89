use vstd::prelude::*;

use crate::models::{BattleMetricsRecentServer, BattleMetricsRecentServers};
use crate::players::{instant_after, parse_rfc3339, rfc3339_instant};

verus! {

/// When the player was last seen on the server, where that reads as
/// RFC 3339 text.
pub open spec fn server_key(s: BattleMetricsRecentServer) -> Option<(i64, u32)> {
    match s.last_seen {
        Some(text) => rfc3339_instant(text@),
        None => None,
    }
}

/// The listing order: servers without a readable time first, then the
/// most recent sighting first.
pub open spec fn key_before(a: Option<(i64, u32)>, b: Option<(i64, u32)>) -> bool {
    match (a, b) {
        (None, Some(_)) => true,
        (Some(x), Some(y)) => instant_after(x, y),
        _ => false,
    }
}

/// `out` lists the servers of `input`, each once, in the listing order;
/// servers that tie keep the order they came in. `idx[p]` is the position
/// in `input` of the server at position `p` of `out`.
#[verifier::opaque]
pub open spec fn is_stable_order(
    input: Seq<BattleMetricsRecentServer>,
    out: Seq<BattleMetricsRecentServer>,
    idx: Seq<int>,
) -> bool {
    &&& out.len() == input.len()
    &&& idx.len() == out.len()
    &&& forall|p: int| 0 <= p < idx.len() ==> 0 <= #[trigger] idx[p] < input.len()
    &&& forall|p: int, q: int| 0 <= p < q < idx.len() ==> idx[p] != idx[q]
    &&& forall|p: int| 0 <= p < out.len() ==> #[trigger] out[p] == input[idx[p]]
    &&& forall|p: int, q: int|
        0 <= p < q < out.len() ==> {
            ||| key_before(server_key(#[trigger] out[p]), server_key(#[trigger] out[q]))
            ||| (server_key(out[p]) == server_key(out[q]) && idx[p] < idx[q])
        }
}

fn server_instant(s: &BattleMetricsRecentServer) -> (r: Option<(i64, u32)>)
    ensures
        r == server_key(*s),
{
    match &s.last_seen {
        Some(text) => parse_rfc3339(text.as_str()),
        None => None,
    }
}

fn before(a: Option<(i64, u32)>, b: Option<(i64, u32)>) -> (r: bool)
    ensures
        r == key_before(a, b),
{
    match (a, b) {
        (None, Some(_)) => true,
        (Some(x), Some(y)) => x.0 > y.0 || (x.0 == y.0 && x.1 > y.1),
        _ => false,
    }
}

impl BattleMetricsRecentServers {
    /// Lists servers in the listing order, ties in the order given.
    pub fn from(servers: Vec<BattleMetricsRecentServer>) -> (r: BattleMetricsRecentServers)
        ensures
            exists|idx: Seq<int>| #[trigger] is_stable_order(servers@, r.servers@, idx),
    {
        let ghost input = servers@;
        let total = servers.len();
        let mut rest = servers;
        let mut out: Vec<BattleMetricsRecentServer> = Vec::new();
        let mut keys: Vec<Option<(i64, u32)>> = Vec::new();
        let ghost mut idx: Seq<int> = Seq::empty();
        let mut i: usize = 0;
        while rest.len() > 0
            invariant
                i + rest@.len() == input.len(),
                input.len() == total,
                rest@ == input.subrange(i as int, input.len() as int),
                keys@.len() == out@.len(),
                forall|p: int| 0 <= p < out@.len() ==> #[trigger] keys@[p] == server_key(out@[p]),
                out@.len() == i,
                idx.len() == i,
                forall|p: int| 0 <= p < idx.len() ==> 0 <= #[trigger] idx[p] < i,
                forall|p: int, q: int| 0 <= p < q < idx.len() ==> idx[p] != idx[q],
                forall|p: int| 0 <= p < out@.len() ==> #[trigger] out@[p] == input[idx[p]],
                forall|p: int, q: int|
                    0 <= p < q < out@.len() ==> {
                        ||| key_before(server_key(#[trigger] out@[p]), server_key(#[trigger] out@[q]))
                        ||| (server_key(out@[p]) == server_key(out@[q]) && idx[p] < idx[q])
                    },
            decreases rest@.len(),
        {
            let item = rest.remove(0);
            let k = server_instant(&item);
            let mut pos: usize = 0;
            while pos < keys.len() && !before(k, keys[pos])
                invariant
                    pos <= keys@.len(),
                    keys@.len() == out@.len(),
                    forall|p: int| 0 <= p < out@.len() ==> #[trigger] keys@[p] == server_key(out@[p]),
                    forall|p: int| 0 <= p < pos ==> !key_before(k, #[trigger] keys@[p]),
                decreases keys@.len() - pos,
            {
                pos = pos + 1;
            }
            let ghost old_out = out@;
            let ghost old_idx = idx;
            proof {
                assert(item == input[i as int]);
            }
            out.insert(pos, item);
            keys.insert(pos, k);
            proof {
                idx = old_idx.insert(pos as int, i as int);
                assert forall|p: int, q: int| 0 <= p < q < out@.len() implies {
                    ||| key_before(server_key(#[trigger] out@[p]), server_key(#[trigger] out@[q]))
                    ||| (server_key(out@[p]) == server_key(out@[q]) && idx[p] < idx[q])
                } by {
                    let np = pos as int;
                    if q == np {
                        assert(out@[p] == old_out[p]);
                        assert(!key_before(k, keys@[p]));
                        assert(idx[p] == old_idx[p]);
                    } else if p == np {
                        let q0 = q - 1;
                        assert(out@[q] == old_out[q0]);
                        assert(idx[q] == old_idx[q0]);
                        assert(key_before(k, server_key(old_out[np])));
                        if q0 > np {
                            assert(key_before(server_key(old_out[np]), server_key(old_out[q0])) || server_key(
                                old_out[np],
                            ) == server_key(old_out[q0]));
                        }
                    } else {
                        let p0 = if p < np {
                            p
                        } else {
                            p - 1
                        };
                        let q0 = if q < np {
                            q
                        } else {
                            q - 1
                        };
                        assert(out@[p] == old_out[p0] && out@[q] == old_out[q0]);
                        assert(idx[p] == old_idx[p0] && idx[q] == old_idx[q0]);
                    }
                }
                assert forall|p: int| 0 <= p < out@.len() implies #[trigger] out@[p] == input[idx[p]] by {
                    if p < pos {
                        assert(out@[p] == old_out[p]);
                    } else if p > pos {
                        assert(out@[p] == old_out[p - 1]);
                    }
                }
                assert forall|p: int| 0 <= p < out@.len() implies #[trigger] keys@[p] == server_key(out@[p]) by {
                    if p < pos {
                        assert(out@[p] == old_out[p]);
                    } else if p > pos {
                        assert(out@[p] == old_out[p - 1]);
                    }
                }
                assert(rest@ =~= input.subrange(i + 1, input.len() as int));
            }
            i = i + 1;
        }
        let r = BattleMetricsRecentServers { servers: out };
        proof {
            reveal(is_stable_order);
            assert(is_stable_order(input, r.servers@, idx));
        }
        r
    }
}

} // verus!
