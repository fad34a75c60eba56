use lending_ledger::BookLibrary;
use lending_ledger::BookRentStatus;
use lending_ledger::Person;

fn borrower(id: &str) -> Person {
    Person { id: id.to_string(), name: "Borrower".to_string() }
}

#[test]
fn first_request_over_quantity_is_denied() {
    let mut lib = BookLibrary::new();
    lib.add_book("Slim volume", "A. Author", 2);

    let p = borrower("alice");
    let outcome = lib.rent_book(&p, 1, Some(3));

    assert_eq!(outcome, Ok(false));
    assert_eq!(lib.total_renting_of_book(1), 0);
}

#[test]
fn repeated_loans_fill_quantity() {
    let mut lib = BookLibrary::new();
    lib.add_book("Three copies", "A. Author", 3);

    let x = borrower("x");
    assert_eq!(lib.rent_book(&x, 1, Some(2)), Ok(true));
    assert_eq!(lib.rent_book(&x, 1, Some(1)), Ok(true));
    assert_eq!(lib.total_renting_of_book(1), 3);
    assert_eq!(lib.rent_book(&x, 1, Some(1)), Ok(false));
    assert_eq!(lib.total_renting_of_book(1), 3);
}

#[test]
fn unknown_book_is_not_found() {
    let mut lib = BookLibrary::new();
    lib.add_book("Only book", "A. Author", 1);

    let p = borrower("alice");
    assert_eq!(lib.rent_book(&p, 7, Some(1)), Err(BookRentStatus::NotFound));
}

#[test]
fn negative_count_is_invalid() {
    let mut lib = BookLibrary::new();
    lib.add_book("Only book", "A. Author", 1);

    let p = borrower("alice");
    assert_eq!(lib.rent_book(&p, 1, Some(-1)), Err(BookRentStatus::InvalidBookCount));
}

#[test]
fn two_borrowers_share_one_book() {
    let mut lib = BookLibrary::new();
    lib.add_book("Three copies", "A. Author", 3);

    let a = borrower("a");
    let b = borrower("b");
    assert_eq!(lib.rent_book(&a, 1, Some(2)), Ok(true));
    assert_eq!(lib.rent_book(&b, 1, Some(2)), Ok(false));
    assert_eq!(lib.rent_book(&b, 1, Some(1)), Ok(true));
    assert_eq!(lib.total_renting_of_book(1), 3);
    assert_eq!(lib.person_renting_count("a".to_string()), 2);
    assert_eq!(lib.person_renting_count("b".to_string()), 1);
}

#[test]
fn queries_repeat_without_changing_anything() {
    let mut lib = BookLibrary::new();
    lib.add_book("Three copies", "A. Author", 3);
    let p = borrower("alice");
    assert_eq!(lib.rent_book(&p, 1, Some(2)), Ok(true));

    let first = lib.total_renting_of_book(1);
    let second = lib.total_renting_of_book(1);
    let third = lib.total_renting_of_book(1);
    assert_eq!(first, 2);
    assert_eq!(second, first);
    assert_eq!(third, first);

    let held_once = lib.person_renting_count("alice".to_string());
    let held_again = lib.person_renting_count("alice".to_string());
    assert_eq!(held_once, 2);
    assert_eq!(held_again, held_once);
}

#[test]
fn granted_loan_increases_total_by_exactly_the_count() {
    let mut lib = BookLibrary::new();
    lib.add_book("Big stock", "A. Author", 10);
    let p = borrower("alice");

    let before = lib.total_renting_of_book(1);
    assert_eq!(lib.rent_book(&p, 1, Some(4)), Ok(true));
    assert_eq!(lib.total_renting_of_book(1), before + 4);
}

#[test]
fn denied_or_failed_loan_changes_nothing() {
    let mut lib = BookLibrary::new();
    lib.add_book("Three copies", "A. Author", 3);
    let p = borrower("alice");
    assert_eq!(lib.rent_book(&p, 1, Some(2)), Ok(true));

    let before = lib.total_renting_of_book(1);
    assert_eq!(lib.rent_book(&p, 1, Some(2)), Ok(false));
    assert_eq!(lib.total_renting_of_book(1), before);
    assert_eq!(lib.rent_book(&p, 9, Some(1)), Err(BookRentStatus::NotFound));
    assert_eq!(lib.total_renting_of_book(1), before);
    assert_eq!(lib.rent_book(&p, 1, Some(-3)), Err(BookRentStatus::InvalidBookCount));
    assert_eq!(lib.total_renting_of_book(1), before);
    assert_eq!(lib.person_renting_count("alice".to_string()), 2);
}

#[test]
fn missing_count_defaults_to_one_copy() {
    let mut lib = BookLibrary::new();
    lib.add_book("Two copies", "A. Author", 2);
    let p = borrower("alice");

    assert_eq!(lib.rent_book(&p, 1, None), Ok(true));
    assert_eq!(lib.total_renting_of_book(1), 1);
    assert_eq!(lib.rent_book(&p, 1, None), Ok(true));
    assert_eq!(lib.rent_book(&p, 1, None), Ok(false));
    assert_eq!(lib.total_renting_of_book(1), 2);
}

#[test]
fn zero_copies_always_fit() {
    let mut lib = BookLibrary::new();
    lib.add_book("No copies", "A. Author", 0);
    let p = borrower("alice");

    assert_eq!(lib.rent_book(&p, 1, Some(0)), Ok(true));
    assert_eq!(lib.total_renting_of_book(1), 0);
    assert_eq!(lib.rent_book(&p, 1, Some(1)), Ok(false));
}

#[test]
fn negative_quantity_book_never_grants() {
    let mut lib = BookLibrary::new();
    lib.add_book("Phantom stock", "A. Author", -2);
    let p = borrower("alice");

    assert_eq!(lib.rent_book(&p, 1, Some(0)), Ok(false));
    assert_eq!(lib.rent_book(&p, 1, Some(1)), Ok(false));
    assert_eq!(lib.total_renting_of_book(1), 0);
}

#[test]
fn empty_catalog_has_nothing_to_rent() {
    let mut lib = BookLibrary::new();
    let p = borrower("alice");

    assert_eq!(lib.rent_book(&p, 1, Some(1)), Err(BookRentStatus::NotFound));
    assert_eq!(lib.total_renting_of_book(1), 0);
    assert_eq!(lib.person_renting_count("alice".to_string()), 0);
}

#[test]
fn borrower_totals_span_books() {
    let mut lib = BookLibrary::new();
    lib.add_book("First", "A. Author", 3);
    lib.add_book("Second", "B. Author", 4);
    let p = borrower("alice");
    let q = borrower("bob");

    assert_eq!(lib.rent_book(&p, 1, Some(2)), Ok(true));
    assert_eq!(lib.rent_book(&p, 2, Some(3)), Ok(true));
    assert_eq!(lib.rent_book(&q, 2, Some(1)), Ok(true));

    assert_eq!(lib.person_renting_count("alice".to_string()), 5);
    assert_eq!(lib.person_renting_count("bob".to_string()), 1);
    assert_eq!(lib.person_renting_count("carol".to_string()), 0);
    assert_eq!(lib.total_renting_of_book(1), 2);
    assert_eq!(lib.total_renting_of_book(2), 4);
}

#[test]
fn catalog_assigns_sequential_ids() {
    let mut lib = BookLibrary::new();
    lib.add_book("First", "A. Author", 1);
    lib.add_book("Second", "B. Author", 2);
    lib.add_book("Third", "C. Author", 3);

    assert_eq!(lib.books.len(), 3);
    assert_eq!(lib.books[0].id, 1);
    assert_eq!(lib.books[1].id, 2);
    assert_eq!(lib.books[2].id, 3);
    assert_eq!(lib.books[1].title, "Second");
    assert_eq!(lib.books[1].author, "B. Author");
    assert_eq!(lib.books[1].quantity, 2);
}

#[test]
fn create_new_rent_holds_one_entry() {
    let entries = BookLibrary::create_new_rent("alice".to_string(), 4);

    assert_eq!(entries.len(), 1);
    assert_eq!(entries[0].user_id, "alice");
    assert_eq!(entries[0].count, 4);
}
