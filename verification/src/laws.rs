use vstd::prelude::*;

use crate::contract::{lemma_list_spec_basic, list_spec};
use crate::state::LedgerModel;

verus! {

/// A newly issued id is fresh: in a well-formed ledger every live id is at
/// most the counter, so the id a creation issues — one above the counter —
/// collides with no live entry. Together with the freshness clause of
/// creation itself, an id is never reused, even after a deletion, because
/// deletion leaves the counter alone.
pub proof fn lemma_created_id_fresh(m: LedgerModel)
    requires
        m.wf(),
        m.counter < u64::MAX,
    ensures
        !m.has_id((m.counter + 1) as u64),
{
}

/// Issued ids strictly increase across any sequence of operations, deletions
/// included: every operation keeps the counter non-decreasing, and a
/// creation raises it by exactly 1 and issues one above it. So a creation
/// from any later state issues a strictly larger id, and a creation that
/// immediately follows another issues an id larger by exactly 1.
pub proof fn lemma_issued_ids_strictly_increase(earlier: LedgerModel, later: LedgerModel)
    requires
        earlier.counter < later.counter,
        later.counter < u64::MAX,
    ensures
        (later.counter + 1) as u64 > (earlier.counter + 1) as u64,
        later.counter == earlier.counter + 1 ==> (later.counter + 1) as u64 == (earlier.counter
            + 1) as u64 + 1,
{
}

/// An absent id never appears in a listing: once no entry carries an id —
/// after a deletion, say — no listing, under any cursor and any limit,
/// returns an entry with it.
pub proof fn lemma_absent_id_never_listed(
    m: LedgerModel,
    id: u64,
    start_after: Option<u64>,
    lim: nat,
)
    requires
        !m.has_id(id),
    ensures
        forall|j: int|
            0 <= j < list_spec(m.entries, start_after, lim).len() ==> (#[trigger] list_spec(
                m.entries,
                start_after,
                lim,
            )[j].id) != id,
{
    lemma_list_spec_basic(m.entries, start_after, lim);
    let r = list_spec(m.entries, start_after, lim);
    assert forall|j: int| 0 <= j < r.len() implies (#[trigger] r[j].id) != id by {
        if r[j].id == id {
            assert(m.entries.contains(r[j]));
            let w = choose|i: int| 0 <= i < m.entries.len() && m.entries[i] == r[j];
            assert(m.entries[w].id == id);
        }
    }
}

} // verus!
