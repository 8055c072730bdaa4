use vstd::prelude::*;
use vstd::pervasive::VecAdditionalExecFns;

use crate::error::ContractError;
use crate::msg::{BookListResponse, QueryAnswer, QueryMsg};
use crate::state::{clone_entry, lemma_id_unique, models, sorted_by_id, BookEntry, EntryModel, Ledger};

verus! {

/// The position of the entry with this id, or `None` when no entry has it.
fn find_entry(entries: &Vec<BookEntry>, id: u64) -> (r: Option<usize>)
    ensures
        match r {
            Some(k) => k < entries@.len() && models(entries@)[k as int].id == id,
            None => forall|i: int|
                0 <= i < entries@.len() ==> (#[trigger] models(entries@)[i].id) != id,
        },
{
    let n = entries.len();
    let mut k: usize = 0;
    while k < n
        invariant
            n == entries@.len(),
            k <= n,
            forall|i: int| 0 <= i < k ==> (#[trigger] models(entries@)[i].id) != id,
        decreases n - k,
    {
        if entries[k].id == id {
            return Some(k);
        }
        k += 1;
    }
    None
}

/// Creates a new entry owned by the requester. Any caller may create; the
/// sequence allocator issues the id, one above the previous counter, so the
/// new id is fresh: strictly above every id ever issued. Fails only with
/// `Overflow`, leaving the ledger unchanged, when the counter is exhausted.
pub fn execute_create_book_entry(
    ledger: &mut Ledger,
    sender: String,
    asset_reference: String,
    amount: u128,
    price: u128,
) -> (r: Result<u64, ContractError>)
    requires
        old(ledger)@.wf(),
    ensures
        final(ledger)@.wf(),
        final(ledger)@.counter >= old(ledger)@.counter,
        old(ledger)@.counter < u64::MAX ==> {
            &&& r == Ok::<u64, ContractError>((old(ledger)@.counter + 1) as u64)
            &&& final(ledger)@.counter == old(ledger)@.counter + 1
            &&& !old(ledger)@.has_id((old(ledger)@.counter + 1) as u64)
            &&& final(ledger)@.entries == old(ledger)@.entries.push(
                EntryModel {
                    id: (old(ledger)@.counter + 1) as u64,
                    owner: sender@,
                    asset_reference: asset_reference@,
                    amount,
                    price,
                },
            )
        },
        old(ledger)@.counter == u64::MAX ==> {
            &&& r == Err::<u64, ContractError>(ContractError::Overflow {})
            &&& *final(ledger) == *old(ledger)
        },
{
    let id = match ledger.next_id() {
        Ok(id) => id,
        Err(e) => {
            return Err(e);
        },
    };
    let entry = BookEntry { id, owner: sender, asset_reference, amount, price };
    let ghost em = entry@;
    let ghost pre = old(ledger)@;
    ledger.entries.push(entry);
    proof {
        assert(ledger@.entries =~= pre.entries.push(em));
        assert forall|i: int, j: int| 0 <= i < j < ledger@.entries.len() implies
            (#[trigger] ledger@.entries[i].id) < (#[trigger] ledger@.entries[j].id) by {
            if j < pre.entries.len() {
                assert(pre.entries[i].id < pre.entries[j].id);
            } else {
                assert(pre.entries[i].id <= pre.counter);
            }
        }
        assert(!pre.has_id(em.id));
    }
    Ok(id)
}

/// Replaces `asset_reference`, `amount` and `price` of the addressed entry;
/// `id` and `owner` are kept verbatim. Fails with `NotFound` when no entry
/// has the id, and with `Unauthorized` when the requester is not the stored
/// owner; on failure the ledger is left untouched.
pub fn execute_update_book_entry(
    ledger: &mut Ledger,
    sender: String,
    id: u64,
    asset_reference: String,
    amount: u128,
    price: u128,
) -> (r: Result<(), ContractError>)
    requires
        old(ledger)@.wf(),
    ensures
        final(ledger)@.wf(),
        final(ledger)@.counter == old(ledger)@.counter,
        !old(ledger)@.has_id(id) ==> r == Err::<(), ContractError>(ContractError::NotFound {})
            && *final(ledger) == *old(ledger),
        old(ledger)@.has_id(id) && old(ledger)@.entry_of(id).owner != sender@ ==> r == Err::<
            (),
            ContractError,
        >(ContractError::Unauthorized {}) && *final(ledger) == *old(ledger),
        old(ledger)@.has_id(id) && old(ledger)@.entry_of(id).owner == sender@ ==> {
            &&& r == Ok::<(), ContractError>(())
            &&& final(ledger)@.entries == old(ledger)@.entries.update(
                old(ledger)@.index_of(id),
                EntryModel {
                    id,
                    owner: old(ledger)@.entry_of(id).owner,
                    asset_reference: asset_reference@,
                    amount,
                    price,
                },
            )
        },
{
    let k = match find_entry(&ledger.entries, id) {
        Some(k) => k,
        None => {
            return Err(ContractError::NotFound {});
        },
    };
    proof {
        assert(old(ledger)@.has_id(id));
        lemma_id_unique(old(ledger)@, old(ledger)@.index_of(id), k as int);
    }
    if !(ledger.entries[k].owner == sender) {
        return Err(ContractError::Unauthorized {});
    }
    let updated = BookEntry { id, owner: sender, asset_reference, amount, price };
    let ghost em = updated@;
    let ghost pre = old(ledger)@;
    ledger.entries.set(k, updated);
    proof {
        assert(ledger@.entries =~= pre.entries.update(k as int, em));
        assert forall|i: int| 0 <= i < ledger@.entries.len() implies
            (#[trigger] ledger@.entries[i].id) == pre.entries[i].id by {}
        assert(ledger@.wf());
    }
    Ok(())
}

/// Removes the addressed entry permanently; its id is never reissued, since
/// the counter is not decremented. The same existence and ownership
/// preconditions as for updates apply, with the same errors and no effect on
/// failure.
pub fn execute_delete_book_entry(ledger: &mut Ledger, sender: String, id: u64) -> (r: Result<
    (),
    ContractError,
>)
    requires
        old(ledger)@.wf(),
    ensures
        final(ledger)@.wf(),
        final(ledger)@.counter == old(ledger)@.counter,
        !old(ledger)@.has_id(id) ==> r == Err::<(), ContractError>(ContractError::NotFound {})
            && *final(ledger) == *old(ledger),
        old(ledger)@.has_id(id) && old(ledger)@.entry_of(id).owner != sender@ ==> r == Err::<
            (),
            ContractError,
        >(ContractError::Unauthorized {}) && *final(ledger) == *old(ledger),
        old(ledger)@.has_id(id) && old(ledger)@.entry_of(id).owner == sender@ ==> {
            &&& r == Ok::<(), ContractError>(())
            &&& final(ledger)@.entries == old(ledger)@.entries.remove(old(ledger)@.index_of(id))
            &&& !final(ledger)@.has_id(id)
        },
{
    let k = match find_entry(&ledger.entries, id) {
        Some(k) => k,
        None => {
            return Err(ContractError::NotFound {});
        },
    };
    proof {
        assert(old(ledger)@.has_id(id));
        lemma_id_unique(old(ledger)@, old(ledger)@.index_of(id), k as int);
    }
    if !(ledger.entries[k].owner == sender) {
        return Err(ContractError::Unauthorized {});
    }
    let ghost pre = old(ledger)@;
    ledger.entries.remove(k);
    proof {
        assert(ledger@.entries =~= pre.entries.remove(k as int));
        assert forall|i: int| 0 <= i < ledger@.entries.len() implies #[trigger] ledger@.entries[i]
            == if i < k { pre.entries[i] } else { pre.entries[i + 1] } by {}
        assert forall|i: int, j: int| 0 <= i < j < ledger@.entries.len() implies
            (#[trigger] ledger@.entries[i].id) < (#[trigger] ledger@.entries[j].id) by {}
        assert forall|i: int| 0 <= i < ledger@.entries.len() implies
            (#[trigger] ledger@.entries[i].id) != id by {
            if i < k {
                if pre.entries[i].id == id {
                    lemma_id_unique(pre, i, k as int);
                }
            } else {
                if pre.entries[i + 1].id == id {
                    lemma_id_unique(pre, i + 1, k as int);
                }
            }
        }
        assert(ledger@.wf());
    }
    Ok(())
}

/// Looks the entry up by id; a public read with no authorization check.
/// Returns a copy of the stored record, or `NotFound` exactly when no entry
/// has the id.
pub fn query_book_entry(ledger: &Ledger, id: u64) -> (r: Result<BookEntry, ContractError>)
    requires
        ledger@.wf(),
    ensures
        match r {
            Ok(e) => ledger@.has_id(id) && e@ == ledger@.entry_of(id),
            Err(err) => !ledger@.has_id(id) && err == ContractError::NotFound {},
        },
{
    match find_entry(&ledger.entries, id) {
        Some(k) => {
            proof {
                assert(ledger@.has_id(id));
                lemma_id_unique(ledger@, ledger@.index_of(id), k as int);
            }
            Ok(clone_entry(&ledger.entries[k]))
        },
        None => Err(ContractError::NotFound {}),
    }
}

/// The largest page size a listing ever returns.
pub const MAX_LIMIT: u32 = 30;

/// The page size used when the caller gives no limit.
pub const DEFAULT_LIMIT: u32 = 10;

/// The page size that a requested limit yields: the default when absent,
/// clamped to the maximum otherwise.
pub open spec fn spec_limit(limit: Option<u32>) -> nat {
    match limit {
        Option::None => DEFAULT_LIMIT as nat,
        Option::Some(l) => if l > MAX_LIMIT {
            MAX_LIMIT as nat
        } else {
            l as nat
        },
    }
}

/// Does the cursor admit this entry: `start_after` is an exclusive lower
/// bound on ids, and an absent bound admits every entry.
pub open spec fn admits(start_after: Option<u64>, e: EntryModel) -> bool {
    match start_after {
        Option::None => true,
        Option::Some(b) => e.id > b,
    }
}

/// What a listing returns: the first `lim` entries of `s`, in order, that the
/// cursor admits.
pub open spec fn list_spec(s: Seq<EntryModel>, start_after: Option<u64>, lim: nat) -> Seq<
    EntryModel,
>
    decreases s.len(),
{
    if s.len() == 0 || lim == 0 {
        Seq::empty()
    } else if admits(start_after, s[0]) {
        seq![s[0]] + list_spec(s.drop_first(), start_after, (lim - 1) as nat)
    } else {
        list_spec(s.drop_first(), start_after, lim)
    }
}

/// A listing never exceeds its page size, admits only entries above the
/// cursor, and returns only entries of the ledger.
pub proof fn lemma_list_spec_basic(s: Seq<EntryModel>, start_after: Option<u64>, lim: nat)
    ensures
        list_spec(s, start_after, lim).len() <= lim,
        forall|j: int|
            0 <= j < list_spec(s, start_after, lim).len() ==> admits(
                start_after,
                #[trigger] list_spec(s, start_after, lim)[j],
            ),
        forall|j: int|
            0 <= j < list_spec(s, start_after, lim).len() ==> s.contains(
                #[trigger] list_spec(s, start_after, lim)[j],
            ),
    decreases s.len(),
{
    if s.len() == 0 || lim == 0 {
    } else {
        let rest = s.drop_first();
        let r = list_spec(s, start_after, lim);
        if admits(start_after, s[0]) {
            let tail = list_spec(rest, start_after, (lim - 1) as nat);
            lemma_list_spec_basic(rest, start_after, (lim - 1) as nat);
            assert forall|j: int| 0 <= j < r.len() implies s.contains(#[trigger] r[j]) by {
                if j == 0 {
                    assert(r[0] == s[0]);
                } else {
                    assert(r[j] == tail[j - 1]);
                    let w = choose|i: int| 0 <= i < rest.len() && rest[i] == tail[j - 1];
                    assert(s[w + 1] == tail[j - 1]);
                }
            }
        } else {
            let tail = list_spec(rest, start_after, lim);
            lemma_list_spec_basic(rest, start_after, lim);
            assert forall|j: int| 0 <= j < r.len() implies s.contains(#[trigger] r[j]) by {
                assert(r[j] == tail[j]);
                let w = choose|i: int| 0 <= i < rest.len() && rest[i] == tail[j];
                assert(s[w + 1] == tail[j]);
            }
        }
    }
}

/// A listing of id-sorted entries is itself id-sorted.
pub proof fn lemma_list_spec_sorted(s: Seq<EntryModel>, start_after: Option<u64>, lim: nat)
    requires
        sorted_by_id(s),
    ensures
        sorted_by_id(list_spec(s, start_after, lim)),
    decreases s.len(),
{
    if s.len() == 0 || lim == 0 {
    } else {
        let rest = s.drop_first();
        assert forall|i: int, j: int| 0 <= i < j < rest.len() implies (#[trigger] rest[i].id)
            < (#[trigger] rest[j].id) by {
            assert(s[i + 1].id < s[j + 1].id);
        }
        let r = list_spec(s, start_after, lim);
        if admits(start_after, s[0]) {
            let tail = list_spec(rest, start_after, (lim - 1) as nat);
            lemma_list_spec_sorted(rest, start_after, (lim - 1) as nat);
            lemma_list_spec_basic(rest, start_after, (lim - 1) as nat);
            assert forall|i: int, j: int| 0 <= i < j < r.len() implies (#[trigger] r[i].id)
                < (#[trigger] r[j].id) by {
                if i == 0 {
                    assert(r[j] == tail[j - 1]);
                    let w = choose|w: int| 0 <= w < rest.len() && rest[w] == tail[j - 1];
                    assert(s[0].id < s[w + 1].id);
                } else {
                    assert(r[i] == tail[i - 1]);
                    assert(r[j] == tail[j - 1]);
                }
            }
        } else {
            lemma_list_spec_sorted(rest, start_after, lim);
        }
    }
}

/// Lists up to `limit` entries (clamped to `MAX_LIMIT`, `DEFAULT_LIMIT` when
/// absent) whose id lies strictly above `start_after`, in ascending id order,
/// starting at the smallest such id. A bound with no live entry is a valid
/// cursor. A public read with no authorization check.
pub fn query_book_list(ledger: &Ledger, start_after: Option<u64>, limit: Option<u32>) -> (r:
    BookListResponse)
    requires
        ledger@.wf(),
    ensures
        r@ == list_spec(ledger@.entries, start_after, spec_limit(limit)),
        r@.len() <= spec_limit(limit),
        r@.len() <= MAX_LIMIT,
        limit is None ==> r@.len() <= DEFAULT_LIMIT,
        sorted_by_id(r@),
        forall|j: int| 0 <= j < r@.len() ==> admits(start_after, #[trigger] r@[j]),
        start_after matches Some(b) ==> forall|j: int|
            0 <= j < r@.len() ==> (#[trigger] r@[j].id) > b,
{
    let lim_u32: u32 = match limit {
        Some(l) => if l > MAX_LIMIT {
            MAX_LIMIT
        } else {
            l
        },
        None => DEFAULT_LIMIT,
    };
    let lim: usize = lim_u32 as usize;
    let ghost full = ledger@.entries;
    let ghost sl = spec_limit(limit);
    let n = ledger.entries.len();
    let mut out: Vec<BookEntry> = Vec::new();
    let mut i: usize = 0;
    proof {
        assert(models(out@) =~= Seq::<EntryModel>::empty());
        assert(full.skip(0) =~= full);
    }
    while i < n && out.len() < lim
        invariant
            n == ledger.entries@.len(),
            full == ledger@.entries,
            sl == spec_limit(limit),
            sl == lim,
            i <= n,
            out@.len() <= sl,
            models(out@) + list_spec(full.skip(i as int), start_after, (sl - out@.len()) as nat)
                == list_spec(full, start_after, sl),
        decreases n - i,
    {
        let ghost rem = (sl - out@.len()) as nat;
        let ghost pre_out = out@;
        let e = &ledger.entries[i];
        let keep = match start_after {
            Some(b) => e.id > b,
            None => true,
        };
        proof {
            assert(full.skip(i as int)[0] == full[i as int]);
            assert(full.skip(i as int).drop_first() =~= full.skip(i + 1));
            assert(keep == admits(start_after, full[i as int]));
        }
        if keep {
            out.push(clone_entry(e));
            proof {
                assert(models(out@) =~= models(pre_out).push(full[i as int]));
                let tail = list_spec(full.skip(i + 1), start_after, (rem - 1) as nat);
                assert(list_spec(full.skip(i as int), start_after, rem) == seq![
                    full[i as int],
                ] + tail);
                assert(models(pre_out) + (seq![full[i as int]] + tail) =~= models(out@) + tail);
            }
        } else {
            proof {
                assert(list_spec(full.skip(i as int), start_after, rem) == list_spec(
                    full.skip(i + 1),
                    start_after,
                    rem,
                ));
            }
        }
        i += 1;
    }
    proof {
        if out@.len() == sl {
            assert(list_spec(full.skip(i as int), start_after, 0) == Seq::<EntryModel>::empty());
        } else {
            assert(full.skip(i as int) =~= Seq::<EntryModel>::empty());
        }
        assert(models(out@) + Seq::<EntryModel>::empty() =~= models(out@));
        assert(models(out@) == list_spec(full, start_after, sl));
        lemma_list_spec_basic(full, start_after, sl);
        lemma_list_spec_sorted(full, start_after, sl);
    }
    BookListResponse { book_entrys: out }
}

/// Answers one query: a single entry looked up by id, or a page of the
/// listing. Fails only with `NotFound`, on a lookup of an absent id.
pub fn query(ledger: &Ledger, msg: QueryMsg) -> (r: Result<QueryAnswer, ContractError>)
    requires
        ledger@.wf(),
    ensures
        match msg {
            QueryMsg::BookEntry { id } => match r {
                Ok(a) => a matches QueryAnswer::BookEntry(e) && ledger@.has_id(id) && e@
                    == ledger@.entry_of(id),
                Err(err) => !ledger@.has_id(id) && err == ContractError::NotFound {},
            },
            QueryMsg::BookList { start_after, limit } => match r {
                Ok(a) => a matches QueryAnswer::BookList(resp) && resp@ == list_spec(
                    ledger@.entries,
                    start_after,
                    spec_limit(limit),
                ),
                Err(_) => false,
            },
        },
{
    match msg {
        QueryMsg::BookEntry { id } => match query_book_entry(ledger, id) {
            Ok(e) => Ok(QueryAnswer::BookEntry(e)),
            Err(err) => Err(err),
        },
        QueryMsg::BookList { start_after, limit } => Ok(
            QueryAnswer::BookList(query_book_list(ledger, start_after, limit)),
        ),
    }
}

} // verus!
