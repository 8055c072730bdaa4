use vstd::prelude::*;

use crate::state::{models, BookEntry, EntryModel};

verus! {

/// The message that initializes a fresh ledger; it carries no parameters.
#[derive(Debug, PartialEq, Eq)]
pub struct InstantiateMsg {}

/// The read-only queries the ledger answers: one entry by id, or a page of
/// entries above an exclusive id bound.
#[derive(Debug, PartialEq, Eq)]
pub enum QueryMsg {
    BookEntry { id: u64 },
    BookList { start_after: Option<u64>, limit: Option<u32> },
}

/// The page of entries a listing returns, in ascending id order.
#[derive(Debug, PartialEq, Eq)]
pub struct BookListResponse {
    pub book_entrys: Vec<BookEntry>,
}

impl View for BookListResponse {
    type V = Seq<EntryModel>;

    open spec fn view(&self) -> Seq<EntryModel> {
        models(self.book_entrys@)
    }
}

/// The value a successful query returns, for the host to serialize.
#[derive(Debug, PartialEq, Eq)]
pub enum QueryAnswer {
    BookEntry(BookEntry),
    BookList(BookListResponse),
}

} // verus!
