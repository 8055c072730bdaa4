use vstd::prelude::*;

use crate::error::ContractError;

verus! {

/// One book entry: an owner-tagged listing that identifies an asset
/// reference, an amount, and a price.
///
/// `id` and `owner` are fixed at creation; updates replace only the other
/// three fields.
#[derive(Debug, PartialEq, Eq)]
#[verifier::ext_equal]
pub struct BookEntry {
    pub id: u64,
    pub owner: String,
    pub asset_reference: String,
    pub amount: u128,
    pub price: u128,
}

/// The mathematical value of a `BookEntry`, with identities as character
/// sequences.
#[verifier::ext_equal]
pub struct EntryModel {
    pub id: u64,
    pub owner: Seq<char>,
    pub asset_reference: Seq<char>,
    pub amount: u128,
    pub price: u128,
}

impl View for BookEntry {
    type V = EntryModel;

    open spec fn view(&self) -> EntryModel {
        EntryModel {
            id: self.id,
            owner: self.owner@,
            asset_reference: self.asset_reference@,
            amount: self.amount,
            price: self.price,
        }
    }
}

/// The models of a sequence of entries, element by element.
pub open spec fn models(s: Seq<BookEntry>) -> Seq<EntryModel> {
    Seq::new(s.len(), |i: int| s[i]@)
}

/// Entry ids strictly ascend along the sequence.
pub open spec fn sorted_by_id(s: Seq<EntryModel>) -> bool {
    forall|i: int, j: int|
        0 <= i < j < s.len() ==> #[trigger] s[i].id < #[trigger] s[j].id
}

/// The mathematical value of a whole ledger.
#[verifier::ext_equal]
pub struct LedgerModel {
    /// The sequence counter: the last issued id, 0 when none was issued yet.
    pub counter: u64,
    /// The live entries, in ascending id order.
    pub entries: Seq<EntryModel>,
}

impl LedgerModel {
    /// Well-formedness: entries ascend strictly by id, and every id is
    /// positive and at most the counter (ids are never issued twice, so the
    /// counter stays at or above every id ever handed out).
    pub open spec fn wf(self) -> bool {
        &&& sorted_by_id(self.entries)
        &&& forall|i: int|
            0 <= i < self.entries.len() ==> 1 <= (#[trigger] self.entries[i].id)
                && self.entries[i].id <= self.counter
    }

    /// Does an entry with this id exist in the ledger?
    pub open spec fn has_id(self, id: u64) -> bool {
        exists|i: int| 0 <= i < self.entries.len() && (#[trigger] self.entries[i].id) == id
    }

    /// The position of the entry with this id; meaningful when `has_id` holds
    /// (under `wf` the position is unique).
    pub open spec fn index_of(self, id: u64) -> int {
        choose|i: int| 0 <= i < self.entries.len() && (#[trigger] self.entries[i].id) == id
    }

    /// The entry stored under this id; meaningful when `has_id` holds.
    pub open spec fn entry_of(self, id: u64) -> EntryModel {
        self.entries[self.index_of(id)]
    }
}

/// Under well-formedness, positions with the same id coincide.
pub proof fn lemma_id_unique(m: LedgerModel, i: int, j: int)
    requires
        m.wf(),
        0 <= i < m.entries.len(),
        0 <= j < m.entries.len(),
        m.entries[i].id == m.entries[j].id,
    ensures
        i == j,
{
    if i < j {
        assert(m.entries[i].id < m.entries[j].id);
    }
    if j < i {
        assert(m.entries[j].id < m.entries[i].id);
    }
}

/// The ledger: the sequence counter and the live entries, kept in ascending
/// id order.
pub struct Ledger {
    pub counter: u64,
    pub entries: Vec<BookEntry>,
}

impl View for Ledger {
    type V = LedgerModel;

    open spec fn view(&self) -> LedgerModel {
        LedgerModel { counter: self.counter, entries: models(self.entries@) }
    }
}

impl Ledger {
    /// A fresh ledger: counter 0, no entries.
    pub fn new() -> (l: Ledger)
        ensures
            l@.counter == 0,
            l@.entries == Seq::<EntryModel>::empty(),
            l@.wf(),
    {
        let l = Ledger { counter: 0, entries: Vec::new() };
        proof {
            assert(l@.entries =~= Seq::<EntryModel>::empty());
        }
        l
    }

    /// Rebuilds a ledger from a persisted counter and entry list, checking
    /// that they are well formed: ids ascend strictly and each lies in
    /// `1 ..= counter`. Returns `None` exactly when the parts are not.
    pub fn from_parts(counter: u64, entries: Vec<BookEntry>) -> (r: Option<Ledger>)
        ensures
            match r {
                Some(l) => l@ == (LedgerModel { counter, entries: models(entries@) }) && l@.wf(),
                None => !(LedgerModel { counter, entries: models(entries@) }).wf(),
            },
    {
        let ghost m = LedgerModel { counter, entries: models(entries@) };
        let n = entries.len();
        let mut k: usize = 0;
        while k < n
            invariant
                n == entries.len(),
                0 <= k <= n,
                m == (LedgerModel { counter, entries: models(entries@) }),
                forall|i: int, j: int|
                    0 <= i < j < k ==> #[trigger] m.entries[i].id < #[trigger] m.entries[j].id,
                forall|i: int|
                    0 <= i < k ==> 1 <= (#[trigger] m.entries[i].id) && m.entries[i].id <= counter,
            decreases n - k,
        {
            let e = &entries[k];
            if e.id < 1 || e.id > counter {
                proof {
                    assert(m.entries[k as int].id == e.id);
                    assert(!m.wf());
                }
                return None;
            }
            if k > 0 && entries[k - 1].id >= e.id {
                proof {
                    assert(m.entries[k - 1].id >= m.entries[k as int].id);
                    assert(!sorted_by_id(m.entries));
                    assert(!m.wf());
                }
                return None;
            }
            proof {
                assert forall|i: int, j: int| 0 <= i < j < k + 1 implies
                    #[trigger] m.entries[i].id < #[trigger] m.entries[j].id by {
                    if j == k && i < k - 1 {
                        assert(m.entries[i].id < m.entries[k - 1].id);
                    }
                }
            }
            k += 1;
        }
        let l = Ledger { counter, entries };
        Some(l)
    }

    /// The sequence allocator: persists `counter + 1` and returns it as the
    /// newly issued id. Fails with `Overflow`, changing nothing, exactly when
    /// the counter is exhausted.
    pub fn next_id(&mut self) -> (r: Result<u64, ContractError>)
        requires
            old(self)@.wf(),
        ensures
            final(self)@.wf(),
            final(self)@.entries == old(self)@.entries,
            old(self)@.counter < u64::MAX ==> {
                &&& r == Ok::<u64, ContractError>((old(self)@.counter + 1) as u64)
                &&& final(self)@.counter == old(self)@.counter + 1
            },
            old(self)@.counter == u64::MAX ==> {
                &&& r == Err::<u64, ContractError>(ContractError::Overflow {})
                &&& *final(self) == *old(self)
            },
    {
        if self.counter == u64::MAX {
            return Err(ContractError::Overflow {});
        }
        self.counter = self.counter + 1;
        Ok(self.counter)
    }
}

/// An identical copy of an entry.
pub fn clone_entry(e: &BookEntry) -> (r: BookEntry)
    ensures
        r == *e,
{
    let r = BookEntry {
        id: e.id,
        owner: e.owner.clone(),
        asset_reference: e.asset_reference.clone(),
        amount: e.amount,
        price: e.price,
    };
    proof {
        assert(r =~= *e);
    }
    r
}

} // verus!
