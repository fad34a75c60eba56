//! A book-lending ledger.
//!
//! The ledger owns a catalog of books, each with a finite number of copies,
//! and a reservation table recording how many copies of each book every
//! borrower currently holds.  A loan request is granted exactly when the
//! requested number of copies still fits within the book's remaining
//! availability; granted loans update a single per-book, per-borrower cell
//! and nothing else.

pub mod ledger;
pub mod records;
pub mod tally;

pub use ledger::BookLibrary;
pub use records::Book;
pub use records::BookRentStatus;
pub use records::BookRentals;
pub use records::Person;
pub use records::RentEntry;
