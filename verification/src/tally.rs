//! The mathematical model of the reservation table.
//!
//! A book's rental list is modelled as a sequence of entries; the table as
//! a sequence of such lists, at most one per book.  The spec functions here
//! say what a list sums to, what one borrower holds, and which list belongs
//! to which book; the lemmas relate those sums across the updates the
//! ledger performs (changing one entry, appending an entry, appending a
//! whole list).

use vstd::prelude::*;

use crate::records::BookRentals;
use crate::records::RentEntry;

verus! {

/// Total number of copies recorded across all entries of one rental list.
pub open spec fn sum_counts(entries: Seq<RentEntry>) -> int
    decreases entries.len(),
{
    if entries.len() == 0 {
        0
    } else {
        sum_counts(entries.drop_last()) + entries.last().count
    }
}

/// Number of copies the borrower with id `user` holds in one rental list.
/// Summed over all matching entries, though a well-formed list holds at
/// most one entry per borrower.
pub open spec fn user_count(entries: Seq<RentEntry>, user: Seq<char>) -> int
    decreases entries.len(),
{
    if entries.len() == 0 {
        0
    } else {
        user_count(entries.drop_last(), user) + if entries.last().user_id@ == user {
            entries.last().count as int
        } else {
            0
        }
    }
}

/// Every held-copy count in the list is nonnegative.
pub open spec fn counts_nonneg(entries: Seq<RentEntry>) -> bool {
    forall|i: int| 0 <= i < entries.len() ==> (#[trigger] entries[i]).count >= 0
}

/// No borrower appears twice in the list.
pub open spec fn users_distinct(entries: Seq<RentEntry>) -> bool {
    forall|i: int, j: int|
        0 <= i < j < entries.len() ==> (#[trigger] entries[i]).user_id@ != (
        #[trigger] entries[j]).user_id@
}

/// No book has two rental lists.
pub open spec fn distinct_books(groups: Seq<BookRentals>) -> bool {
    forall|i: int, j: int|
        0 <= i < j < groups.len() ==> (#[trigger] groups[i]).book_id != (
        #[trigger] groups[j]).book_id
}

/// Every rental list in the table has only nonnegative counts.
pub open spec fn all_counts_nonneg(groups: Seq<BookRentals>) -> bool {
    forall|g: int| 0 <= g < groups.len() ==> counts_nonneg((#[trigger] groups[g]).entries@)
}

/// Some rental list in the table belongs to `book_id`.
pub open spec fn has_group(groups: Seq<BookRentals>, book_id: int) -> bool {
    exists|g: int| 0 <= g < groups.len() && (#[trigger] groups[g]).book_id == book_id
}

/// The position of the rental list that belongs to `book_id`; meaningful
/// only when `has_group` holds and the table's book ids are distinct.
pub open spec fn group_index(groups: Seq<BookRentals>, book_id: int) -> int {
    choose|g: int| 0 <= g < groups.len() && (#[trigger] groups[g]).book_id == book_id
}

/// Total number of copies of `book_id` currently held, over all borrowers:
/// the sum of its rental list, or 0 when no list exists.
pub open spec fn reserved_of(groups: Seq<BookRentals>, book_id: int) -> int {
    if has_group(groups, book_id) {
        sum_counts(groups[group_index(groups, book_id)].entries@)
    } else {
        0
    }
}

/// Number of copies of `book_id` held by the borrower with id `user`.
pub open spec fn held_of(groups: Seq<BookRentals>, book_id: int, user: Seq<char>) -> int {
    if has_group(groups, book_id) {
        user_count(groups[group_index(groups, book_id)].entries@, user)
    } else {
        0
    }
}

/// Number of copies the borrower with id `user` holds over all books.
pub open spec fn user_total_of(groups: Seq<BookRentals>, user: Seq<char>) -> int
    decreases groups.len(),
{
    if groups.len() == 0 {
        0
    } else {
        user_total_of(groups.drop_last(), user) + user_count(groups.last().entries@, user)
    }
}

/// Extending a prefix sum by one entry adds that entry's count.
pub proof fn lemma_sum_take_succ(s: Seq<RentEntry>, i: int)
    requires
        0 <= i < s.len(),
    ensures
        sum_counts(s.take(i + 1)) == sum_counts(s.take(i)) + s[i].count,
{
    assert(s.take(i + 1).drop_last() =~= s.take(i));
    assert(s.take(i + 1).last() == s[i]);
}

/// A sum of nonnegative counts is nonnegative.
pub proof fn lemma_sum_nonneg(s: Seq<RentEntry>)
    requires
        counts_nonneg(s),
    ensures
        sum_counts(s) >= 0,
    decreases s.len(),
{
    if s.len() > 0 {
        assert(counts_nonneg(s.drop_last()));
        lemma_sum_nonneg(s.drop_last());
    }
}

/// With nonnegative counts, a prefix sums to no more than the whole list.
pub proof fn lemma_sum_take_le(s: Seq<RentEntry>, i: int)
    requires
        counts_nonneg(s),
        0 <= i <= s.len(),
    ensures
        sum_counts(s.take(i)) <= sum_counts(s),
    decreases s.len() - i,
{
    if i == s.len() {
        assert(s.take(i) =~= s);
    } else {
        lemma_sum_take_succ(s, i);
        lemma_sum_take_le(s, i + 1);
    }
}

/// With nonnegative counts, one entry's count is at most the whole sum.
pub proof fn lemma_entry_le_sum(s: Seq<RentEntry>, j: int)
    requires
        counts_nonneg(s),
        0 <= j < s.len(),
    ensures
        s[j].count <= sum_counts(s),
{
    lemma_sum_take_succ(s, j);
    lemma_sum_take_le(s, j + 1);
    assert(counts_nonneg(s.take(j))) by {
        assert forall|i: int| 0 <= i < s.take(j).len() implies (#[trigger] s.take(
            j,
        )[i]).count >= 0 by {
            assert(s.take(j)[i] == s[i]);
        }
    }
    lemma_sum_nonneg(s.take(j));
}

/// Replacing the entry at `j` shifts the sum by the difference in counts.
pub proof fn lemma_sum_update(s: Seq<RentEntry>, j: int, e: RentEntry)
    requires
        0 <= j < s.len(),
    ensures
        sum_counts(s.update(j, e)) == sum_counts(s) - s[j].count + e.count,
    decreases s.len(),
{
    let s2 = s.update(j, e);
    if j == s.len() - 1 {
        assert(s2.drop_last() =~= s.drop_last());
        assert(s2.last() == e);
    } else {
        assert(s2.drop_last() =~= s.drop_last().update(j, e));
        assert(s2.last() == s.last());
        lemma_sum_update(s.drop_last(), j, e);
    }
}

/// Replacing the entry at `j` shifts each borrower's count by the
/// difference of the contributions of the old and the new entry.
pub proof fn lemma_user_update(s: Seq<RentEntry>, j: int, e: RentEntry, u: Seq<char>)
    requires
        0 <= j < s.len(),
    ensures
        user_count(s.update(j, e), u) == user_count(s, u) - (if s[j].user_id@ == u {
            s[j].count as int
        } else {
            0
        }) + (if e.user_id@ == u {
            e.count as int
        } else {
            0
        }),
    decreases s.len(),
{
    let s2 = s.update(j, e);
    if j == s.len() - 1 {
        assert(s2.drop_last() =~= s.drop_last());
        assert(s2.last() == e);
    } else {
        assert(s2.drop_last() =~= s.drop_last().update(j, e));
        assert(s2.last() == s.last());
        lemma_user_update(s.drop_last(), j, e, u);
    }
}

/// Appending an entry adds its count to the sum.
pub proof fn lemma_sum_push(s: Seq<RentEntry>, e: RentEntry)
    ensures
        sum_counts(s.push(e)) == sum_counts(s) + e.count,
{
    assert(s.push(e).drop_last() =~= s);
    assert(s.push(e).last() == e);
}

/// Appending an entry adds its count to its own borrower and nothing to
/// any other.
pub proof fn lemma_user_push(s: Seq<RentEntry>, e: RentEntry, u: Seq<char>)
    ensures
        user_count(s.push(e), u) == user_count(s, u) + (if e.user_id@ == u {
            e.count as int
        } else {
            0
        }),
{
    assert(s.push(e).drop_last() =~= s);
    assert(s.push(e).last() == e);
}

/// A borrower that appears in no entry holds nothing.
pub proof fn lemma_user_count_absent(s: Seq<RentEntry>, u: Seq<char>)
    requires
        forall|i: int| 0 <= i < s.len() ==> (#[trigger] s[i]).user_id@ != u,
    ensures
        user_count(s, u) == 0,
    decreases s.len(),
{
    if s.len() > 0 {
        assert(forall|i: int|
            0 <= i < s.drop_last().len() ==> (#[trigger] s.drop_last()[i]).user_id@ != u);
        lemma_user_count_absent(s.drop_last(), u);
    }
}

/// In a list without repeated borrowers, a borrower's count is exactly the
/// count of their single entry.
pub proof fn lemma_user_count_at(s: Seq<RentEntry>, u: Seq<char>, j: int)
    requires
        users_distinct(s),
        0 <= j < s.len(),
        s[j].user_id@ == u,
    ensures
        user_count(s, u) == s[j].count,
    decreases s.len(),
{
    assert(users_distinct(s.drop_last())) by {
        assert forall|i1: int, i2: int|
            0 <= i1 < i2 < s.drop_last().len() implies (#[trigger] s.drop_last()[i1]).user_id@ != (
        #[trigger] s.drop_last()[i2]).user_id@ by {
            assert(s[i1].user_id@ != s[i2].user_id@);
        }
    }
    if j == s.len() - 1 {
        assert(forall|i: int|
            0 <= i < s.drop_last().len() ==> (#[trigger] s.drop_last()[i]).user_id@ != u);
        lemma_user_count_absent(s.drop_last(), u);
    } else {
        assert(s.last().user_id@ != u);
        assert(s.drop_last()[j] == s[j]);
        lemma_user_count_at(s.drop_last(), u, j);
    }
}

/// With nonnegative counts, no borrower's count is negative.
pub proof fn lemma_user_nonneg(s: Seq<RentEntry>, u: Seq<char>)
    requires
        counts_nonneg(s),
    ensures
        user_count(s, u) >= 0,
    decreases s.len(),
{
    if s.len() > 0 {
        assert(counts_nonneg(s.drop_last()));
        lemma_user_nonneg(s.drop_last(), u);
    }
}

/// A rental list found at a position is the one `group_index` names, and
/// there is no other, as long as the table's book ids are distinct.
pub proof fn lemma_group_index(groups: Seq<BookRentals>, book_id: int, g: int)
    requires
        distinct_books(groups),
        0 <= g < groups.len(),
        groups[g].book_id == book_id,
    ensures
        has_group(groups, book_id),
        group_index(groups, book_id) == g,
{
    assert(has_group(groups, book_id));
    let g2 = group_index(groups, book_id);
    assert(0 <= g2 < groups.len() && groups[g2].book_id == book_id);
    if g2 < g {
        assert(groups[g2].book_id != groups[g].book_id);
    }
    if g < g2 {
        assert(groups[g].book_id != groups[g2].book_id);
    }
}

/// A book that matches no list in the table has no list.
pub proof fn lemma_no_group(groups: Seq<BookRentals>, book_id: int)
    requires
        forall|g: int| 0 <= g < groups.len() ==> (#[trigger] groups[g]).book_id != book_id,
    ensures
        !has_group(groups, book_id),
        reserved_of(groups, book_id) == 0,
        forall|u: Seq<char>| held_of(groups, book_id, u) == 0,
{
}

/// Replacing one book's rental list with another list for the same book
/// changes that book's totals to the new list's and leaves every other
/// book's totals untouched.
pub proof fn lemma_reserved_after_update(groups: Seq<BookRentals>, gi: int, ng: BookRentals)
    requires
        distinct_books(groups),
        0 <= gi < groups.len(),
        ng.book_id == groups[gi].book_id,
    ensures
        distinct_books(groups.update(gi, ng)),
        forall|b: int| has_group(groups.update(gi, ng), b) == has_group(groups, b),
        reserved_of(groups.update(gi, ng), ng.book_id as int) == sum_counts(ng.entries@),
        forall|b: int|
            b != ng.book_id as int ==> reserved_of(groups.update(gi, ng), b) == reserved_of(
                groups,
                b,
            ),
        forall|u: Seq<char>|
            held_of(groups.update(gi, ng), ng.book_id as int, u) == user_count(ng.entries@, u),
        forall|b: int, u: Seq<char>|
            b != ng.book_id as int ==> held_of(groups.update(gi, ng), b, u) == held_of(
                groups,
                b,
                u,
            ),
{
    let g2 = groups.update(gi, ng);
    assert(forall|k: int|
        0 <= k < g2.len() ==> (#[trigger] g2[k]).book_id == groups[k].book_id);
    assert(distinct_books(g2)) by {
        assert forall|i: int, j: int| 0 <= i < j < g2.len() implies (#[trigger] g2[i]).book_id != (
        #[trigger] g2[j]).book_id by {
            assert(groups[i].book_id != groups[j].book_id);
        }
    }
    assert forall|b: int| has_group(g2, b) == has_group(groups, b) by {
        if has_group(groups, b) {
            let w = choose|g: int| 0 <= g < groups.len() && (#[trigger] groups[g]).book_id == b;
            assert(g2[w].book_id == b);
            assert(has_group(g2, b));
        }
        if has_group(g2, b) {
            let w = choose|g: int| 0 <= g < g2.len() && (#[trigger] g2[g]).book_id == b;
            assert(groups[w].book_id == b);
            assert(has_group(groups, b));
        }
    }
    lemma_group_index(g2, ng.book_id as int, gi);
    assert(reserved_of(g2, ng.book_id as int) == sum_counts(ng.entries@));
    assert forall|b: int, u: Seq<char>| b != ng.book_id as int implies held_of(g2, b, u)
        == held_of(groups, b, u) && reserved_of(g2, b) == reserved_of(groups, b) by {
        if has_group(groups, b) {
            let gb = group_index(groups, b);
            assert(0 <= gb < groups.len() && groups[gb].book_id == b);
            assert(gb != gi);
            lemma_group_index(g2, b, gb);
            assert(g2[gb] == groups[gb]);
        }
    }
}

/// Appending a rental list for a book that had none gives that book the
/// new list's totals and leaves every other book's totals untouched.
pub proof fn lemma_reserved_after_push(groups: Seq<BookRentals>, ng: BookRentals)
    requires
        distinct_books(groups),
        !has_group(groups, ng.book_id as int),
    ensures
        distinct_books(groups.push(ng)),
        has_group(groups.push(ng), ng.book_id as int),
        reserved_of(groups.push(ng), ng.book_id as int) == sum_counts(ng.entries@),
        forall|b: int|
            b != ng.book_id as int ==> has_group(groups.push(ng), b) == has_group(groups, b),
        forall|b: int|
            b != ng.book_id as int ==> reserved_of(groups.push(ng), b) == reserved_of(groups, b),
        forall|u: Seq<char>|
            held_of(groups.push(ng), ng.book_id as int, u) == user_count(ng.entries@, u),
        forall|b: int, u: Seq<char>|
            b != ng.book_id as int ==> held_of(groups.push(ng), b, u) == held_of(groups, b, u),
{
    let g2 = groups.push(ng);
    assert(forall|k: int| 0 <= k < groups.len() ==> #[trigger] g2[k] == groups[k]);
    assert(g2[groups.len() as int] == ng);
    assert(forall|k: int|
        0 <= k < groups.len() ==> (#[trigger] groups[k]).book_id != ng.book_id as int);
    assert(distinct_books(g2)) by {
        assert forall|i: int, j: int| 0 <= i < j < g2.len() implies (#[trigger] g2[i]).book_id != (
        #[trigger] g2[j]).book_id by {
            if j < groups.len() {
                assert(groups[i].book_id != groups[j].book_id);
            } else {
                assert(groups[i].book_id != ng.book_id as int);
            }
        }
    }
    lemma_group_index(g2, ng.book_id as int, groups.len() as int);
    assert forall|b: int| b != ng.book_id as int implies reserved_of(g2, b) == reserved_of(
        groups,
        b,
    ) && has_group(g2, b) == has_group(groups, b) by {
        if has_group(groups, b) {
            let gb = group_index(groups, b);
            assert(0 <= gb < groups.len() && groups[gb].book_id == b);
            lemma_group_index(g2, b, gb);
            assert(g2[gb] == groups[gb]);
        } else {
            assert(forall|g: int| 0 <= g < g2.len() ==> (#[trigger] g2[g]).book_id != b);
            lemma_no_group(g2, b);
        }
    }
    assert forall|b: int, u: Seq<char>| b != ng.book_id as int implies held_of(g2, b, u)
        == held_of(groups, b, u) by {
        if has_group(groups, b) {
            let gb = group_index(groups, b);
            assert(0 <= gb < groups.len() && groups[gb].book_id == b);
            lemma_group_index(g2, b, gb);
            assert(g2[gb] == groups[gb]);
        } else {
            assert(forall|g: int| 0 <= g < g2.len() ==> (#[trigger] g2[g]).book_id != b);
            lemma_no_group(g2, b);
        }
    }
}

/// Extending a prefix of the table by one rental list adds that list's
/// contribution to the borrower's overall total.
pub proof fn lemma_user_total_take_succ(groups: Seq<BookRentals>, u: Seq<char>, g: int)
    requires
        0 <= g < groups.len(),
    ensures
        user_total_of(groups.take(g + 1), u) == user_total_of(groups.take(g), u) + user_count(
            groups[g].entries@,
            u,
        ),
{
    assert(groups.take(g + 1).drop_last() =~= groups.take(g));
    assert(groups.take(g + 1).last() == groups[g]);
}

/// With nonnegative counts everywhere, a borrower's total over a prefix of
/// the table is at most their total over the whole table.
pub proof fn lemma_user_total_take_le(groups: Seq<BookRentals>, u: Seq<char>, g: int)
    requires
        all_counts_nonneg(groups),
        0 <= g <= groups.len(),
    ensures
        user_total_of(groups.take(g), u) <= user_total_of(groups, u),
    decreases groups.len() - g,
{
    if g == groups.len() {
        assert(groups.take(g) =~= groups);
    } else {
        lemma_user_total_take_succ(groups, u, g);
        lemma_user_nonneg(groups[g].entries@, u);
        lemma_user_total_take_le(groups, u, g + 1);
    }
}

/// Replacing one book's rental list shifts each borrower's overall total
/// by the difference of their counts in the old and the new list.
pub proof fn lemma_user_total_update(groups: Seq<BookRentals>, gi: int, ng: BookRentals, u: Seq<char>)
    requires
        0 <= gi < groups.len(),
    ensures
        user_total_of(groups.update(gi, ng), u) == user_total_of(groups, u) - user_count(
            groups[gi].entries@,
            u,
        ) + user_count(ng.entries@, u),
    decreases groups.len(),
{
    let g2 = groups.update(gi, ng);
    if gi == groups.len() - 1 {
        assert(g2.drop_last() =~= groups.drop_last());
        assert(g2.last() == ng);
    } else {
        assert(g2.drop_last() =~= groups.drop_last().update(gi, ng));
        assert(g2.last() == groups.last());
        lemma_user_total_update(groups.drop_last(), gi, ng, u);
    }
}

/// Appending a rental list adds its contribution to each borrower's
/// overall total.
pub proof fn lemma_user_total_push(groups: Seq<BookRentals>, ng: BookRentals, u: Seq<char>)
    ensures
        user_total_of(groups.push(ng), u) == user_total_of(groups, u) + user_count(ng.entries@, u),
{
    assert(groups.push(ng).drop_last() =~= groups);
    assert(groups.push(ng).last() == ng);
}

} // verus!
