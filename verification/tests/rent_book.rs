use lending_ledger::BookLibrary;
use lending_ledger::BookRentStatus;
use lending_ledger::Person;

fn init() -> BookLibrary {
    let mut list_library = BookLibrary::new();
    list_library.add_book("Sách 1", "Nguyễn A", 2);
    list_library.add_book("Sách 2", "Nguyễn B", 3);
    list_library.add_book("Sách 3", "Nguyễn C", 4);
    list_library.add_book("Sách 4", "Nguyễn D", 5);

    list_library
}

fn init_with_rented(person: &Person, total_rent: i32) -> BookLibrary {
    let mut list_library = BookLibrary::new();
    list_library.add_book("Sách 1", "Nguyễn A", 3);
    list_library.add_book("Sách 2", "Nguyễn B", 3);
    list_library.add_book("Sách 3", "Nguyễn C", 3);
    list_library.add_book("Sách 4", "Nguyễn D", 3);

    let _ = list_library.rent_book(person, 2, Some(total_rent));

    list_library
}

fn person() -> Person {
    Person { id: "20020389".to_string(), name: "Nguyen Dai".to_string() }
}

#[test]
fn rent_success_1() {
    let mut list_library = init();

    let person = person();

    let rented_book = list_library.rent_book(&person, 2, Some(3)).unwrap();

    assert_eq!(rented_book, true)
}

#[test]
fn rent_over_total_book_1() {
    let mut list_library = init();

    let person = person();

    let rented_book = list_library.rent_book(&person, 2, Some(5)).unwrap();

    assert_eq!(rented_book, false)
}

#[test]
fn rent_success_2() {
    let person = person();

    let mut list_library = init_with_rented(&person, 2);

    let rented_book = list_library.rent_book(&person, 2, Some(1)).unwrap();

    assert_eq!(rented_book, true)
}

#[test]
fn rent_over_total_book_2() {
    let person = person();

    let mut list_library = init_with_rented(&person, 2);

    let rented_book = list_library.rent_book(&person, 2, Some(3)).unwrap();

    assert_eq!(rented_book, false)
}

#[test]
fn rent_book_not_exist() {
    let mut list_library = init();

    let person = person();

    let err = list_library.rent_book(&person, 5, Some(3)).unwrap_err();

    assert_eq!(err, BookRentStatus::NotFound)
}

#[test]
fn rent_book_count_invalid() {
    let mut list_library = init();

    let person = person();

    let err = list_library.rent_book(&person, 5, Some(-1)).unwrap_err();

    assert_eq!(err, BookRentStatus::InvalidBookCount)
}
