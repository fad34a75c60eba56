//! The lending ledger itself: the catalog, the reservation table, and the
//! loan operation.

use vstd::prelude::*;
use vstd::string::StringExecFns;

use crate::records::Book;
use crate::records::BookRentStatus;
use crate::records::BookRentals;
use crate::records::Person;
use crate::records::RentEntry;
use crate::tally::all_counts_nonneg;
use crate::tally::counts_nonneg;
use crate::tally::distinct_books;
use crate::tally::group_index;
use crate::tally::has_group;
use crate::tally::held_of;
use crate::tally::lemma_entry_le_sum;
use crate::tally::lemma_group_index;
use crate::tally::lemma_no_group;
use crate::tally::lemma_reserved_after_push;
use crate::tally::lemma_reserved_after_update;
use crate::tally::lemma_sum_nonneg;
use crate::tally::lemma_sum_push;
use crate::tally::lemma_sum_take_le;
use crate::tally::lemma_sum_take_succ;
use crate::tally::lemma_sum_update;
use crate::tally::lemma_user_count_absent;
use crate::tally::lemma_user_count_at;
use crate::tally::lemma_user_push;
use crate::tally::lemma_user_total_push;
use crate::tally::lemma_user_total_take_le;
use crate::tally::lemma_user_total_take_succ;
use crate::tally::lemma_user_total_update;
use crate::tally::lemma_user_update;
use crate::tally::reserved_of;
use crate::tally::sum_counts;
use crate::tally::user_count;
use crate::tally::user_total_of;
use crate::tally::users_distinct;

verus! {

/// The number of copies a loan request asks for: the given count, or 1
/// when none is given.
pub open spec fn requested_count(total: Option<i32>) -> int {
    match total {
        Some(t) => t as int,
        None => 1,
    }
}

/// Sums the counts of one rental list.
#[verifier::loop_isolation(false)]
fn tally_entries(entries: &Vec<RentEntry>) -> (r: i32)
    requires
        counts_nonneg(entries@),
        sum_counts(entries@) <= i32::MAX,
    ensures
        r == sum_counts(entries@),
        0 <= r,
{
    let k = entries.len();
    let mut acc: i32 = 0;
    let mut j: usize = 0;
    proof {
        assert(entries@.take(0) =~= Seq::<RentEntry>::empty());
    }
    while j < k
        invariant
            j <= k,
            0 <= acc,
            acc == sum_counts(entries@.take(j as int)),
        decreases k - j,
    {
        proof {
            lemma_sum_take_succ(entries@, j as int);
            lemma_sum_take_le(entries@, j as int + 1);
        }
        acc = acc + entries[j].count;
        j += 1;
    }
    proof {
        assert(entries@.take(k as int) =~= entries@);
    }
    acc
}

/// Looks up one borrower's count in one rental list: the count of their
/// single entry, or 0 when they hold nothing of this book.
#[verifier::loop_isolation(false)]
fn user_tally(entries: &Vec<RentEntry>, user_id: &String) -> (r: i32)
    requires
        counts_nonneg(entries@),
        users_distinct(entries@),
    ensures
        r == user_count(entries@, user_id@),
        0 <= r,
{
    let k = entries.len();
    let mut j: usize = 0;
    while j < k
        invariant
            j <= k,
            forall|x: int| 0 <= x < j ==> (#[trigger] entries@[x]).user_id@ != user_id@,
        decreases k - j,
    {
        if entries[j].user_id == *user_id {
            proof {
                lemma_user_count_at(entries@, user_id@, j as int);
            }
            return entries[j].count;
        }
        j += 1;
    }
    proof {
        lemma_user_count_absent(entries@, user_id@);
    }
    0
}

/// Adds `add` copies to one borrower's entry in a rental list, creating
/// the entry when the borrower has none yet.  Only that borrower's count
/// changes; the list's total grows by exactly `add`.
#[verifier::loop_isolation(false)]
fn bump_user(entries: &mut Vec<RentEntry>, user_id: &String, add: i32)
    requires
        counts_nonneg(old(entries)@),
        users_distinct(old(entries)@),
        add >= 0,
        sum_counts(old(entries)@) + add <= i32::MAX,
    ensures
        counts_nonneg(final(entries)@),
        users_distinct(final(entries)@),
        sum_counts(final(entries)@) == sum_counts(old(entries)@) + add,
        user_count(final(entries)@, user_id@) == user_count(old(entries)@, user_id@) + add,
        forall|u: Seq<char>|
            u != user_id@ ==> user_count(final(entries)@, u) == user_count(old(entries)@, u),
{
    let k = entries.len();
    let mut j: usize = 0;
    let mut ei: usize = k;
    while j < k && ei == k
        invariant
            j <= k,
            ei == k || (ei < k && entries@[ei as int].user_id@ == user_id@),
            ei == k ==> forall|x: int| 0 <= x < j ==> (#[trigger] entries@[x]).user_id@ != user_id@,
        decreases k - j,
    {
        if entries[j].user_id == *user_id {
            ei = j;
        }
        j += 1;
    }
    let ghost pre = entries@;
    if ei < k {
        proof {
            lemma_entry_le_sum(pre, ei as int);
            lemma_sum_nonneg(pre);
        }
        let c = entries[ei].count;
        let new_entry = RentEntry { user_id: entries[ei].user_id.clone(), count: c + add };
        let ghost ne = new_entry;
        entries[ei] = new_entry;
        proof {
            assert(entries@ == pre.update(ei as int, ne));
            lemma_sum_update(pre, ei as int, ne);
            assert forall|u: Seq<char>|
                user_count(entries@, u) == user_count(pre, u) + (if u == user_id@ {
                    add as int
                } else {
                    0
                }) by {
                lemma_user_update(pre, ei as int, ne, u);
            }
            assert(counts_nonneg(entries@)) by {
                assert forall|x: int| 0 <= x < entries@.len() implies (#[trigger] entries@[x]).count
                    >= 0 by {
                    if x != ei as int {
                        assert(entries@[x] == pre[x]);
                    }
                }
            }
            assert(users_distinct(entries@)) by {
                assert forall|x: int, y: int|
                    0 <= x < y < entries@.len() implies (#[trigger] entries@[x]).user_id@ != (
                #[trigger] entries@[y]).user_id@ by {
                    assert(entries@[x].user_id@ == pre[x].user_id@);
                    assert(entries@[y].user_id@ == pre[y].user_id@);
                }
            }
        }
    } else {
        proof {
            lemma_user_count_absent(pre, user_id@);
        }
        let new_entry = RentEntry { user_id: user_id.clone(), count: add };
        let ghost ne = new_entry;
        entries.push(new_entry);
        proof {
            assert(entries@ == pre.push(ne));
            lemma_sum_push(pre, ne);
            assert forall|u: Seq<char>|
                user_count(entries@, u) == user_count(pre, u) + (if u == user_id@ {
                    add as int
                } else {
                    0
                }) by {
                lemma_user_push(pre, ne, u);
            }
            assert(counts_nonneg(entries@)) by {
                assert forall|x: int| 0 <= x < entries@.len() implies (#[trigger] entries@[x]).count
                    >= 0 by {
                    if x < pre.len() {
                        assert(entries@[x] == pre[x]);
                    }
                }
            }
            assert(users_distinct(entries@)) by {
                assert forall|x: int, y: int|
                    0 <= x < y < entries@.len() implies (#[trigger] entries@[x]).user_id@ != (
                #[trigger] entries@[y]).user_id@ by {
                    if y < pre.len() {
                        assert(entries@[x] == pre[x]);
                        assert(entries@[y] == pre[y]);
                    } else {
                        assert(entries@[x] == pre[x]);
                        assert(entries@[y].user_id@ == user_id@);
                    }
                }
            }
        }
    }
}

/// The lending ledger: a catalog of books and, for each book that has had
/// a granted loan, a rental list saying who holds how many of its copies.
#[derive(Debug, Clone)]
pub struct BookLibrary {
    pub books: Vec<Book>,
    pub renting_list: Vec<BookRentals>,
}

impl BookLibrary {
    /// Well-formedness of the ledger.
    ///
    /// Book ids are assigned sequentially from 1, so the book with id `n`
    /// sits at catalog position `n - 1`.  Each book has at most one rental
    /// list; within a list each borrower has at most one entry and every
    /// count is nonnegative; and a list's total never exceeds its book's
    /// quantity.  Constructors establish this and every operation
    /// preserves it.
    pub open spec fn wf(self) -> bool {
        &&& self.books@.len() <= i32::MAX
        &&& forall|i: int| 0 <= i < self.books@.len() ==> (#[trigger] self.books@[i]).id == i + 1
        &&& distinct_books(self.renting_list@)
        &&& forall|g: int|
            0 <= g < self.renting_list@.len() ==> {
                &&& 1 <= (#[trigger] self.renting_list@[g]).book_id
                &&& self.renting_list@[g].book_id <= self.books@.len()
                &&& counts_nonneg(self.renting_list@[g].entries@)
                &&& users_distinct(self.renting_list@[g].entries@)
                &&& sum_counts(self.renting_list@[g].entries@) <= self.books@[self.renting_list@[g].book_id
                    - 1].quantity
            }
    }

    /// Whether a book with this id is in the catalog.
    pub open spec fn has_book(self, book_id: int) -> bool {
        exists|i: int| 0 <= i < self.books@.len() && (#[trigger] self.books@[i]).id == book_id
    }

    /// The quantity of the book with this id; meaningful only when the
    /// ledger is well formed and the book exists, since ids are
    /// positional.
    pub open spec fn book_quantity(self, book_id: int) -> int {
        self.books@[book_id - 1].quantity as int
    }

    /// Total number of copies of `book_id` currently out on loan.
    pub open spec fn total_reserved_spec(self, book_id: int) -> int {
        reserved_of(self.renting_list@, book_id)
    }

    /// Number of copies of `book_id` held by the borrower with id `user`.
    pub open spec fn held_count_spec(self, book_id: int, user: Seq<char>) -> int {
        held_of(self.renting_list@, book_id, user)
    }

    /// Number of copies the borrower with id `user` holds over all books.
    pub open spec fn person_total_spec(self, user: Seq<char>) -> int {
        user_total_of(self.renting_list@, user)
    }

    /// In a well-formed ledger, a book exists exactly when its id is
    /// between 1 and the catalog size.
    pub proof fn lemma_has_book_iff(self, book_id: int)
        requires
            self.wf(),
        ensures
            self.has_book(book_id) == (1 <= book_id <= self.books@.len()),
    {
        if 1 <= book_id <= self.books@.len() {
            assert(self.books@[book_id - 1].id == book_id);
        }
    }

    /// An empty ledger: no books, no loans.
    pub fn new() -> (r: Self)
        ensures
            r.wf(),
            r.books@.len() == 0,
            r.renting_list@.len() == 0,
            forall|b: int| r.total_reserved_spec(b) == 0,
            forall|u: Seq<char>| r.person_total_spec(u) == 0,
    {
        let r = BookLibrary { books: Vec::<Book>::new(), renting_list: Vec::<BookRentals>::new() };
        proof {
            assert forall|b: int| r.total_reserved_spec(b) == 0 by {
                lemma_no_group(r.renting_list@, b);
            }
        }
        r
    }

    /// Appends a new book to the catalog, with id equal to the new catalog
    /// size.  Any quantity is accepted, including zero and negative ones;
    /// no loan is ever granted against a book whose quantity is not
    /// positive.  The catalog size must stay below `i32::MAX` so that the
    /// new id fits its type.
    pub fn add_book(&mut self, title: &str, author: &str, quantity: i32)
        requires
            old(self).wf(),
            old(self).books@.len() < i32::MAX,
        ensures
            final(self).wf(),
            final(self).books@.len() == old(self).books@.len() + 1,
            forall|i: int|
                0 <= i < old(self).books@.len() ==> final(self).books@[i] == old(self).books@[i],
            final(self).books@.last().id == old(self).books@.len() + 1,
            final(self).books@.last().title@ == title@,
            final(self).books@.last().author@ == author@,
            final(self).books@.last().quantity == quantity,
            final(self).renting_list == old(self).renting_list,
            forall|b: int| final(self).total_reserved_spec(b) == old(self).total_reserved_spec(b),
            forall|u: Seq<char>|
                final(self).person_total_spec(u) == old(self).person_total_spec(u),
    {
        let total_book = self.books.len() as i32;
        let new_book = Book {
            id: total_book + 1,
            author: String::from_str(author),
            quantity,
            title: String::from_str(title),
        };
        self.books.push(new_book);
    }

    /// A fresh rental list holding a single borrower's entry.
    pub fn create_new_rent(user_id: String, total: i32) -> (r: Vec<RentEntry>)
        ensures
            r@.len() == 1,
            r@[0].user_id@ == user_id@,
            r@[0].count == total,
    {
        let mut r = Vec::<RentEntry>::new();
        r.push(RentEntry { user_id, count: total });
        r
    }

    /// Total number of copies of `book_id` currently out on loan, over all
    /// borrowers; 0 when the book has no rental list (or does not exist).
    /// A pure query: it takes the ledger by shared reference and its
    /// result is a function of the ledger's state alone, so repeated calls
    /// agree as long as no loan intervenes.
    #[verifier::loop_isolation(false)]
    pub fn total_renting_of_book(&self, book_id: i32) -> (r: i32)
        requires
            self.wf(),
        ensures
            r == self.total_reserved_spec(book_id as int),
            0 <= r,
    {
        let m = self.renting_list.len();
        let mut g: usize = 0;
        let mut gi: usize = m;
        while g < m && gi == m
            invariant
                g <= m,
                gi == m || (gi < m && self.renting_list@[gi as int].book_id == book_id),
                gi == m ==> forall|x: int|
                    0 <= x < g ==> (#[trigger] self.renting_list@[x]).book_id != book_id,
            decreases m - g,
        {
            if self.renting_list[g].book_id == book_id {
                gi = g;
            }
            g += 1;
        }
        if gi == m {
            proof {
                lemma_no_group(self.renting_list@, book_id as int);
            }
            0
        } else {
            proof {
                lemma_group_index(self.renting_list@, book_id as int, gi as int);
                lemma_sum_nonneg(self.renting_list@[gi as int].entries@);
            }
            tally_entries(&self.renting_list[gi].entries)
        }
    }

    /// Total number of copies the borrower with this id holds, over all
    /// books.  A pure query, like `total_renting_of_book`; the running sum
    /// is carried in an `i32`, so the borrower's overall total must fit
    /// that type.
    #[verifier::loop_isolation(false)]
    pub fn person_renting_count(&self, user_id: String) -> (r: i32)
        requires
            self.wf(),
            self.person_total_spec(user_id@) <= i32::MAX,
        ensures
            r == self.person_total_spec(user_id@),
            0 <= r,
    {
        proof {
            assert(all_counts_nonneg(self.renting_list@));
            assert(self.renting_list@.take(0) =~= Seq::<BookRentals>::empty());
        }
        let m = self.renting_list.len();
        let mut acc: i32 = 0;
        let mut g: usize = 0;
        while g < m
            invariant
                g <= m,
                0 <= acc,
                acc == user_total_of(self.renting_list@.take(g as int), user_id@),
            decreases m - g,
        {
            let c = user_tally(&self.renting_list[g].entries, &user_id);
            proof {
                lemma_user_total_take_succ(self.renting_list@, user_id@, g as int);
                lemma_user_total_take_le(self.renting_list@, user_id@, g as int + 1);
            }
            acc = acc + c;
            g += 1;
        }
        proof {
            assert(self.renting_list@.take(m as int) =~= self.renting_list@);
        }
        acc
    }

    /// Handles one loan request: `person` asks for `total` copies of the
    /// book with id `book_id` (1 copy when `total` is `None`).
    ///
    /// A negative count fails with `InvalidBookCount`; an unknown book id
    /// fails with `NotFound`; a count larger than the book's remaining
    /// availability is denied with `Ok(false)`.  In all three cases the
    /// ledger is left exactly as it was.  Otherwise the loan is granted
    /// with `Ok(true)`: the book's reserved total and the borrower's
    /// held count and overall total each grow by exactly the requested
    /// count, and no other cell of the reservation table changes.
    #[verifier::loop_isolation(false)]
    pub fn rent_book(&mut self, person: &Person, book_id: i32, total: Option<i32>) -> (res: Result<
        bool,
        BookRentStatus,
    >)
        requires
            old(self).wf(),
        ensures
            final(self).wf(),
            final(self).books == old(self).books,
            requested_count(total) < 0 ==> res == Err::<bool, BookRentStatus>(
                BookRentStatus::InvalidBookCount,
            ) && *final(self) == *old(self),
            requested_count(total) >= 0 && !old(self).has_book(book_id as int) ==> res == Err::<
                bool,
                BookRentStatus,
            >(BookRentStatus::NotFound) && *final(self) == *old(self),
            requested_count(total) >= 0 && old(self).has_book(book_id as int) && requested_count(
                total,
            ) > old(self).book_quantity(book_id as int) - old(self).total_reserved_spec(
                book_id as int,
            ) ==> res == Ok::<bool, BookRentStatus>(false) && *final(self) == *old(self),
            requested_count(total) >= 0 && old(self).has_book(book_id as int) && requested_count(
                total,
            ) <= old(self).book_quantity(book_id as int) - old(self).total_reserved_spec(
                book_id as int,
            ) ==> {
                &&& res == Ok::<bool, BookRentStatus>(true)
                &&& final(self).total_reserved_spec(book_id as int) == old(
                    self,
                ).total_reserved_spec(book_id as int) + requested_count(total)
                &&& final(self).held_count_spec(book_id as int, person.id@) == old(
                    self,
                ).held_count_spec(book_id as int, person.id@) + requested_count(total)
                &&& final(self).person_total_spec(person.id@) == old(self).person_total_spec(
                    person.id@,
                ) + requested_count(total)
                &&& forall|b: int|
                    b != book_id as int ==> final(self).total_reserved_spec(b) == old(
                        self,
                    ).total_reserved_spec(b)
                &&& forall|b: int, u: Seq<char>|
                    b != book_id as int || u != person.id@ ==> final(self).held_count_spec(b, u)
                        == old(self).held_count_spec(b, u)
                &&& forall|u: Seq<char>|
                    u != person.id@ ==> final(self).person_total_spec(u) == old(
                        self,
                    ).person_total_spec(u)
            },
    {
        let count: i32 = match total {
            Some(t) => t,
            None => 1,
        };
        if count < 0 {
            return Err(BookRentStatus::InvalidBookCount);
        }
        // Look the book up in the catalog.
        let n = self.books.len();
        let mut i: usize = 0;
        let mut bi: usize = n;
        while i < n && bi == n
            invariant
                i <= n,
                bi == n || (bi < n && self.books@[bi as int].id == book_id),
                bi == n ==> forall|x: int|
                    0 <= x < i ==> (#[trigger] self.books@[x]).id != book_id,
            decreases n - i,
        {
            if self.books[i].id == book_id {
                bi = i;
            }
            i += 1;
        }
        if bi == n {
            proof {
                assert(!old(self).has_book(book_id as int));
            }
            return Err(BookRentStatus::NotFound);
        }
        let quantity = self.books[bi].quantity;
        proof {
            assert(old(self).has_book(book_id as int));
            assert(self.books@[bi as int].id == bi + 1);
            assert(book_id as int == bi + 1);
            assert(quantity == old(self).book_quantity(book_id as int));
        }
        // Look for the book's rental list.
        let m = self.renting_list.len();
        let mut g: usize = 0;
        let mut gi: usize = m;
        while g < m && gi == m
            invariant
                g <= m,
                gi == m || (gi < m && self.renting_list@[gi as int].book_id == book_id),
                gi == m ==> forall|x: int|
                    0 <= x < g ==> (#[trigger] self.renting_list@[x]).book_id != book_id,
            decreases m - g,
        {
            if self.renting_list[g].book_id == book_id {
                gi = g;
            }
            g += 1;
        }
        if gi == m {
            // First loan for this book: the whole quantity is available.
            proof {
                lemma_no_group(self.renting_list@, book_id as int);
            }
            if count > quantity {
                return Ok(false);
            }
            let entries = Self::create_new_rent(person.id.clone(), count);
            let ng = BookRentals { book_id, entries };
            let ghost ngg = ng;
            let ghost pre = self.renting_list@;
            self.renting_list.push(ng);
            proof {
                assert(ngg.entries@.drop_last() =~= Seq::<RentEntry>::empty());
                assert(sum_counts(Seq::<RentEntry>::empty()) == 0);
                assert(sum_counts(ngg.entries@) == count);
                assert forall|u: Seq<char>|
                    user_count(ngg.entries@, u) == (if u == person.id@ {
                        count as int
                    } else {
                        0
                    }) by {
                    assert(user_count(Seq::<RentEntry>::empty(), u) == 0);
                }
                lemma_reserved_after_push(pre, ngg);
                assert forall|u: Seq<char>|
                    user_total_of(self.renting_list@, u) == user_total_of(pre, u) + user_count(
                        ngg.entries@,
                        u,
                    ) by {
                    lemma_user_total_push(pre, ngg, u);
                }
                assert(counts_nonneg(ngg.entries@));
                assert(users_distinct(ngg.entries@));
                assert(self.wf()) by {
                    assert forall|k: int|
                        0 <= k < self.renting_list@.len() implies {
                        &&& 1 <= (#[trigger] self.renting_list@[k]).book_id
                        &&& self.renting_list@[k].book_id <= self.books@.len()
                        &&& counts_nonneg(self.renting_list@[k].entries@)
                        &&& users_distinct(self.renting_list@[k].entries@)
                        &&& sum_counts(self.renting_list@[k].entries@)
                            <= self.books@[self.renting_list@[k].book_id - 1].quantity
                    } by {
                        if k < pre.len() {
                            assert(self.renting_list@[k] == pre[k]);
                        }
                    }
                }
            }
            return Ok(true);
        }
        // The book already has a rental list: its total tells how many
        // copies are still free.
        proof {
            lemma_group_index(self.renting_list@, book_id as int, gi as int);
            lemma_sum_nonneg(self.renting_list@[gi as int].entries@);
        }
        let reserved = tally_entries(&self.renting_list[gi].entries);
        proof {
            assert(reserved == old(self).total_reserved_spec(book_id as int));
        }
        if count > quantity - reserved {
            return Ok(false);
        }
        let ghost pre = self.renting_list@;
        let g_ref = &mut self.renting_list[gi];
        bump_user(&mut g_ref.entries, &person.id, count);
        proof {
            let groups2 = self.renting_list@;
            let ng = groups2[gi as int];
            assert(ng.book_id == book_id);
            assert(groups2 == pre.update(gi as int, ng));
            lemma_reserved_after_update(pre, gi as int, ng);
            assert forall|u: Seq<char>|
                user_total_of(groups2, u) == user_total_of(pre, u) - user_count(
                    pre[gi as int].entries@,
                    u,
                ) + user_count(ng.entries@, u) by {
                lemma_user_total_update(pre, gi as int, ng, u);
            }
            assert(self.wf()) by {
                assert forall|k: int|
                    0 <= k < groups2.len() implies {
                    &&& 1 <= (#[trigger] groups2[k]).book_id
                    &&& groups2[k].book_id <= self.books@.len()
                    &&& counts_nonneg(groups2[k].entries@)
                    &&& users_distinct(groups2[k].entries@)
                    &&& sum_counts(groups2[k].entries@) <= self.books@[groups2[k].book_id
                        - 1].quantity
                } by {
                    if k != gi as int {
                        assert(groups2[k] == pre[k]);
                    }
                }
            }
        }
        Ok(true)
    }

    /// The ledger's central invariant, read off from well-formedness: the
    /// reserved total of a book is never negative, and never exceeds the
    /// book's quantity as long as that quantity is nonnegative.  A book
    /// with a negative quantity (which the catalog accepts) never has a
    /// granted loan, so its reserved total stays 0 — as does that of a
    /// book id absent from the catalog.
    pub proof fn lemma_reserved_within_quantity(self, book_id: int)
        requires
            self.wf(),
        ensures
            0 <= self.total_reserved_spec(book_id),
            self.has_book(book_id) && self.book_quantity(book_id) >= 0
                ==> self.total_reserved_spec(book_id) <= self.book_quantity(book_id),
            !(self.has_book(book_id) && self.book_quantity(book_id) >= 0)
                ==> self.total_reserved_spec(book_id) == 0,
    {
        self.lemma_has_book_iff(book_id);
        if has_group(self.renting_list@, book_id) {
            let gi = group_index(self.renting_list@, book_id);
            assert(0 <= gi < self.renting_list@.len() && self.renting_list@[gi].book_id
                == book_id);
            lemma_sum_nonneg(self.renting_list@[gi].entries@);
        }
    }
}

} // verus!
