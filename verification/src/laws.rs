//! Laws of the hub's counters and broadcasts, stated over the abstract model
//! that `Hub`'s contracts are written in. `run_clicks` replays any sequence of
//! click events — any interleaving of any number of connections — one
//! `click_step` at a time, exactly as `Hub::record_click` and
//! `Hub::handle_frame` ensure the state moves.

use vstd::prelude::*;
use crate::hub::HubModel;
use crate::hub::click_step;
use crate::hub::others;

verus! {

/// The state after the clicks in `ids` are processed in order, each by the
/// connection the entry names.
pub open spec fn run_clicks(m: HubModel, ids: Seq<u64>) -> HubModel
    decreases ids.len(),
{
    if ids.len() == 0 {
        m
    } else {
        run_clicks(click_step(m, ids[0]), ids.skip(1))
    }
}

/// How many of the clicks in `ids` the connection `id` sent.
pub open spec fn occurrences(ids: Seq<u64>, id: u64) -> int
    decreases ids.len(),
{
    if ids.len() == 0 {
        0
    } else {
        (if ids[0] == id {
            1int
        } else {
            0int
        }) + occurrences(ids.skip(1), id)
    }
}

/// `id`'s click count in `m`, zero while absent.
pub open spec fn count_in(m: HubModel, id: u64) -> int {
    if m.clicks.contains_key(id) {
        m.clicks[id]
    } else {
        0
    }
}

/// Every click raises the total by exactly one, whatever the interleaving:
/// after the clicks in `ids` — for instance, one per connection of N
/// registered connections, or K each from M connections racing one another —
/// the total has grown by exactly `ids.len()`, with no increment lost or
/// duplicated, and the registry is untouched. Since `Hub::handle_frame`
/// ensures each `global_update` carries the total right after its click, the
/// update broadcast by the last of the clicks carries exactly that sum.
pub proof fn lemma_total_after_clicks(m: HubModel, ids: Seq<u64>)
    ensures
        run_clicks(m, ids).total == m.total + ids.len(),
        run_clicks(m, ids).regs == m.regs,
    decreases ids.len(),
{
    if ids.len() > 0 {
        lemma_total_after_clicks(click_step(m, ids[0]), ids.skip(1));
    }
}

/// A connection's own count grows by exactly one per click it sends,
/// regardless of the clicks of others: after the clicks in `ids`, `id`'s
/// count has grown by exactly the number of entries naming `id`.
pub proof fn lemma_client_count_after_clicks(m: HubModel, ids: Seq<u64>, id: u64)
    ensures
        count_in(run_clicks(m, ids), id) == count_in(m, id) + occurrences(ids, id),
    decreases ids.len(),
{
    if ids.len() > 0 {
        lemma_client_count_after_clicks(click_step(m, ids[0]), ids.skip(1), id);
    }
}

/// The broadcast of a click reaches exactly the other registered connections:
/// every registered id but the clicking one is among the recipients, the
/// clicking id never is, and — the registry holding each id at most once —
/// no recipient is listed twice.
pub proof fn lemma_broadcast_recipients(regs: Seq<u64>, excluded: u64)
    ensures
        forall|j: u64|
            #[trigger] others(regs, excluded).contains(j) <==> (regs.contains(j) && j
                != excluded),
        (forall|u: int, v: int| 0 <= u < v < regs.len() ==> regs[u] != regs[v]) ==> (forall|
            u: int,
            v: int,
        |
            0 <= u < v < others(regs, excluded).len() ==> others(regs, excluded)[u] != others(
                regs,
                excluded,
            )[v]),
    decreases regs.len(),
{
    if regs.len() > 0 {
        let head = regs.drop_last();
        lemma_broadcast_recipients(head, excluded);
        assert forall|j: u64|
            others(regs, excluded).contains(j) implies (regs.contains(j) && j != excluded) by {
            let r = others(regs, excluded);
            let t = choose|t: int| 0 <= t < r.len() && r[t] == j;
            if t < others(head, excluded).len() {
                assert(others(head, excluded)[t] == j);
                assert(others(head, excluded).contains(j));
                assert(head.contains(j));
                let u = choose|u: int| 0 <= u < head.len() && head[u] == j;
                assert(regs[u] == j);
                assert(regs.contains(j));
            } else {
                assert(j == regs.last());
                assert(regs[regs.len() - 1] == j);
                assert(regs.contains(j));
            }
        }
        assert forall|j: u64|
            regs.contains(j) && j != excluded implies others(regs, excluded).contains(j) by {
            let t = choose|t: int| 0 <= t < regs.len() && regs[t] == j;
            let r = others(regs, excluded);
            if t < regs.len() - 1 {
                assert(head[t] == j);
                assert(head.contains(j));
                assert(others(head, excluded).contains(j));
                let u = choose|u: int|
                    0 <= u < others(head, excluded).len() && others(head, excluded)[u] == j;
                assert(r[u] == j);
                assert(r.contains(j));
            } else {
                assert(regs.last() == j);
                assert(r[r.len() - 1] == j);
                assert(r.contains(j));
            }
        }
        if forall|u: int, v: int| 0 <= u < v < regs.len() ==> regs[u] != regs[v] {
            assert forall|u: int, v: int| 0 <= u < v < head.len() implies head[u] != head[v] by {
                assert(regs[u] == head[u]);
                assert(regs[v] == head[v]);
            }
            let r = others(regs, excluded);
            let hr = others(head, excluded);
            assert forall|u: int, v: int| 0 <= u < v < r.len() implies r[u] != r[v] by {
                if v < hr.len() {
                    assert(hr[u] != hr[v]);
                } else {
                    assert(r[v] == regs.last());
                    assert(hr[u] == r[u]);
                    assert(hr.contains(hr[u]));
                    assert(head.contains(hr[u]));
                    let t = choose|t: int| 0 <= t < head.len() && head[t] == hr[u];
                    assert(regs[t] == hr[u]);
                    assert(regs[t] != regs[regs.len() - 1]);
                }
            }
        }
    }
}

} // verus!
