//! The record types the ledger stores: books, borrowers, and the
//! per-book rental lists that make up the reservation table.

use vstd::prelude::*;

verus! {

/// One book of the catalog.  Ids are assigned sequentially starting at 1,
/// so inside a well-formed ledger the book with id `n` sits at catalog
/// position `n - 1`.
#[derive(Debug, Clone)]
pub struct Book {
    pub id: i32,
    pub title: String,
    pub author: String,
    /// Total number of copies the library owns.  The catalog accepts any
    /// value here, including zero and negative ones; a book with a
    /// non-positive quantity simply never has a loan granted against it.
    pub quantity: i32,
}

/// A borrower.  The ledger only ever reads the id; the display name is
/// carried for the caller's benefit.
#[derive(Debug, Clone)]
pub struct Person {
    pub id: String,
    pub name: String,
}

/// How many copies one borrower holds of one book.  Counts are never
/// negative and, within one book's rental list, each borrower appears at
/// most once.
#[derive(Debug, Clone)]
pub struct RentEntry {
    pub user_id: String,
    pub count: i32,
}

/// The rental list of a single book: who holds how many of its copies.
/// A list exists only for books that have had at least one granted loan.
#[derive(Debug, Clone)]
pub struct BookRentals {
    pub book_id: i32,
    pub entries: Vec<RentEntry>,
}

/// The two ways a loan request can fail outright.  A loan that is merely
/// denied for lack of available copies is not an error: it is reported as
/// a successful-but-false result.
#[derive(Debug, PartialEq, Eq, Structural)]
pub enum BookRentStatus {
    /// No book with the requested id exists in the catalog.
    NotFound,
    /// The requested copy count is negative.
    InvalidBookCount,
}

} // verus!
