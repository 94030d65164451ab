use libra_manager::date::Date;
use libra_manager::error::Error;
use libra_manager::models::{Book, Client, UpdateUser, User};
use libra_manager::store::Library;

fn book(isbn: &str, title: &str, items: i32) -> Book {
    Book {
        isbn: isbn.to_string(),
        title: title.to_string(),
        author: "Autor".to_string(),
        items,
    }
}

fn client(id: &str, first: &str) -> Client {
    Client {
        id: id.to_string(),
        first_name: first.to_string(),
        last_name: "Pop".to_string(),
        email: "p@example.com".to_string(),
        phone: "0700".to_string(),
    }
}

fn user(name: &str, pw: &str, role: &str) -> User {
    User {
        username: name.to_string(),
        password: pw.to_string(),
        first_name: "Ana".to_string(),
        last_name: "Ionescu".to_string(),
        role: role.to_string(),
    }
}

fn date(y: u32, m: u32, d: u32) -> Date {
    Date { year: y, month: m, day: d }
}

fn lending_library() -> Library {
    let mut lib = Library::new();
    lib.create_book(book("111", "Carte", 2)).unwrap();
    lib.create_client(client("c1", "Ion")).unwrap();
    lib.create_client(client("c2", "Maria")).unwrap();
    lib.create_client(client("c3", "Dan")).unwrap();
    lib
}

#[test]
fn book_crud_round_trip() {
    let mut lib = Library::new();
    lib.create_book(book("111", "Carte", 3)).unwrap();
    let fetched = lib.fetch_book(&"111".to_string()).unwrap();
    assert_eq!(fetched.title, "Carte");
    assert_eq!(fetched.items, 3);
    assert!(lib.fetch_book(&"222".to_string()).is_none());
    lib.update_book(book("111", "Carte Noua", 5)).unwrap();
    let fetched = lib.fetch_book(&"111".to_string()).unwrap();
    assert_eq!(fetched.title, "Carte Noua");
    assert_eq!(fetched.items, 5);
    assert_eq!(lib.fetch_books().len(), 1);
    lib.delete_book(&"111".to_string()).unwrap();
    assert!(lib.fetch_book(&"111".to_string()).is_none());
}

#[test]
fn duplicate_keys_are_constraint_violations() {
    let mut lib = lending_library();
    assert!(matches!(
        lib.create_book(book("111", "Alta", 1)),
        Err(Error::ConstraintViolation)
    ));
    assert!(matches!(
        lib.create_client(client("c1", "Alt")),
        Err(Error::ConstraintViolation)
    ));
    lib.create_user(user("ana", "parola", "admin")).unwrap();
    assert!(matches!(
        lib.create_user(user("ana", "alta", "user")),
        Err(Error::ConstraintViolation)
    ));
}

#[test]
fn negative_copy_count_is_refused() {
    let mut lib = Library::new();
    assert!(matches!(
        lib.create_book(book("111", "Carte", -1)),
        Err(Error::ConstraintViolation)
    ));
}

#[test]
fn login_checks_password_verbatim() {
    let mut lib = Library::new();
    lib.create_user(user("ana", "Parola1", "admin")).unwrap();
    let u = lib.login(&"ana".to_string(), &"Parola1".to_string()).unwrap();
    assert_eq!(u.role, "admin");
    assert!(matches!(
        lib.login(&"ana".to_string(), &"parola1".to_string()),
        Err(Error::AuthError)
    ));
    assert!(matches!(
        lib.login(&"bogdan".to_string(), &"Parola1".to_string()),
        Err(Error::NotFound)
    ));
}

#[test]
fn update_user_is_guarded_by_current_password() {
    let mut lib = Library::new();
    lib.create_user(user("ana", "veche", "admin")).unwrap();
    let upd = UpdateUser {
        username: "ana".to_string(),
        first_name: "Ana-Maria".to_string(),
        last_name: "Pop".to_string(),
        password: Some("noua".to_string()),
    };
    assert!(matches!(
        lib.update_user(&upd, &"gresita".to_string()),
        Err(Error::AuthError)
    ));
    lib.update_user(&upd, &"veche".to_string()).unwrap();
    assert!(lib.login(&"ana".to_string(), &"noua".to_string()).is_ok());
    let keep = UpdateUser {
        username: "ana".to_string(),
        first_name: "Ana".to_string(),
        last_name: "Pop".to_string(),
        password: None,
    };
    lib.update_user(&keep, &"noua".to_string()).unwrap();
    assert!(lib.login(&"ana".to_string(), &"noua".to_string()).is_ok());
    let u = lib.fetch_user(&"ana".to_string()).unwrap();
    assert_eq!(u.first_name, "Ana");
    assert_eq!(u.role, "admin");
    let missing = UpdateUser {
        username: "lipsa".to_string(),
        first_name: "X".to_string(),
        last_name: "Y".to_string(),
        password: None,
    };
    assert!(matches!(
        lib.update_user(&missing, &"noua".to_string()),
        Err(Error::NotFound)
    ));
}

#[test]
fn availability_none_for_unknown_book() {
    let lib = lending_library();
    assert_eq!(
        lib.is_book_available(&"999".to_string(), &"c1".to_string()),
        None
    );
}

#[test]
fn all_copies_out_blocks_every_client() {
    let mut lib = lending_library();
    let today = date(2024, 3, 25);
    lib.add_borrow(&"111".to_string(), &"c1".to_string(), today).unwrap();
    lib.add_borrow(&"111".to_string(), &"c2".to_string(), today).unwrap();
    // Both copies are out: even a client with no loan at all is refused.
    assert_eq!(
        lib.is_book_available(&"111".to_string(), &"c3".to_string()),
        Some(false)
    );
    assert_eq!(
        lib.is_book_available(&"111".to_string(), &"c1".to_string()),
        Some(false)
    );
}

#[test]
fn holder_is_never_offered_the_same_book() {
    let mut lib = lending_library();
    let today = date(2024, 3, 25);
    lib.add_borrow(&"111".to_string(), &"c1".to_string(), today).unwrap();
    // One copy of two is still in: free clients may take it, the holder not.
    assert_eq!(
        lib.is_book_available(&"111".to_string(), &"c2".to_string()),
        Some(true)
    );
    assert_eq!(
        lib.is_book_available(&"111".to_string(), &"c1".to_string()),
        Some(false)
    );
}

#[test]
fn loan_runs_fourteen_days() {
    let mut lib = lending_library();
    lib.add_borrow(&"111".to_string(), &"c1".to_string(), date(2024, 3, 25))
        .unwrap();
    let rows = lib.fetch_borrowers(&"111".to_string()).unwrap();
    assert_eq!(rows.len(), 1);
    assert_eq!(rows[0].borrow.start_date, date(2024, 3, 25));
    assert_eq!(rows[0].borrow.end_date, date(2024, 4, 8));
    assert!(!rows[0].borrow.returned);
    assert_eq!(rows[0].client.id, "c1");
}

#[test]
fn loan_due_date_crosses_leap_february() {
    let mut lib = lending_library();
    lib.add_borrow(&"111".to_string(), &"c1".to_string(), date(2024, 2, 20))
        .unwrap();
    let rows = lib.fetch_borrowers(&"111".to_string()).unwrap();
    assert_eq!(rows[0].borrow.end_date, date(2024, 3, 5));
}

#[test]
fn returning_a_loan_frees_the_copy() {
    let mut lib = lending_library();
    let today = date(2024, 3, 25);
    lib.add_borrow(&"111".to_string(), &"c1".to_string(), today).unwrap();
    lib.add_borrow(&"111".to_string(), &"c2".to_string(), today).unwrap();
    assert_eq!(
        lib.is_book_available(&"111".to_string(), &"c3".to_string()),
        Some(false)
    );
    let id = lib.fetch_borrowers(&"111".to_string()).unwrap()[0].borrow.id;
    lib.update_borrow(id, true, date(2024, 3, 30)).unwrap();
    // The returned loan no longer counts toward the active total.
    assert_eq!(
        lib.is_book_available(&"111".to_string(), &"c3".to_string()),
        Some(true)
    );
    assert_eq!(
        lib.is_book_available(&"111".to_string(), &"c1".to_string()),
        Some(true)
    );
}

#[test]
fn ending_a_loan_twice_changes_nothing_more() {
    let mut lib = lending_library();
    lib.add_borrow(&"111".to_string(), &"c1".to_string(), date(2024, 3, 25))
        .unwrap();
    let id = lib.fetch_borrowers(&"111".to_string()).unwrap()[0].borrow.id;
    lib.update_borrow(id, true, date(2024, 4, 1)).unwrap();
    let after_once = lib.fetch_borrowers(&"111".to_string()).unwrap();
    lib.update_borrow(id, true, date(2024, 4, 1)).unwrap();
    let after_twice = lib.fetch_borrowers(&"111".to_string()).unwrap();
    assert_eq!(after_once, after_twice);
    assert_eq!(
        lib.is_book_available(&"111".to_string(), &"c1".to_string()),
        Some(true)
    );
}

#[test]
fn ending_an_unknown_loan_is_not_found() {
    let mut lib = lending_library();
    assert!(matches!(
        lib.update_borrow(7, true, date(2024, 4, 1)),
        Err(Error::NotFound)
    ));
}

#[test]
fn guarded_start_loan_checks_and_inserts_in_one_step() {
    let mut lib = lending_library();
    let today = date(2024, 3, 25);
    assert_eq!(
        lib.try_start_loan(&"111".to_string(), &"c1".to_string(), today),
        Ok(true)
    );
    // The same client cannot take the same title twice.
    assert_eq!(
        lib.try_start_loan(&"111".to_string(), &"c1".to_string(), today),
        Ok(false)
    );
    assert_eq!(
        lib.try_start_loan(&"111".to_string(), &"c2".to_string(), today),
        Ok(true)
    );
    // Both copies are now out.
    assert_eq!(
        lib.try_start_loan(&"111".to_string(), &"c3".to_string(), today),
        Ok(false)
    );
    assert!(matches!(
        lib.try_start_loan(&"999".to_string(), &"c1".to_string(), today),
        Err(Error::NotFound)
    ));
}

#[test]
fn borrow_into_unknown_rows_is_refused() {
    let mut lib = lending_library();
    let today = date(2024, 3, 25);
    assert!(matches!(
        lib.add_borrow(&"999".to_string(), &"c1".to_string(), today),
        Err(Error::ConstraintViolation)
    ));
    assert!(matches!(
        lib.add_borrow(&"111".to_string(), &"nimeni".to_string(), today),
        Err(Error::ConstraintViolation)
    ));
}

#[test]
fn referenced_rows_cannot_be_deleted() {
    let mut lib = lending_library();
    lib.add_borrow(&"111".to_string(), &"c1".to_string(), date(2024, 3, 25))
        .unwrap();
    assert!(matches!(
        lib.delete_book(&"111".to_string()),
        Err(Error::ConstraintViolation)
    ));
    assert!(matches!(
        lib.delete_client(&"c1".to_string()),
        Err(Error::ConstraintViolation)
    ));
    let id = lib.fetch_borrowers(&"111".to_string()).unwrap()[0].borrow.id;
    lib.delete_borrow(id).unwrap();
    lib.delete_book(&"111".to_string()).unwrap();
    lib.delete_client(&"c1".to_string()).unwrap();
    assert!(lib.fetch_book(&"111".to_string()).is_none());
    assert!(lib.fetch_client(&"c1".to_string()).is_none());
}

#[test]
fn joins_keep_history_visible() {
    let mut lib = lending_library();
    lib.create_book(book("222", "Alta", 1)).unwrap();
    let today = date(2024, 3, 25);
    lib.add_borrow(&"111".to_string(), &"c1".to_string(), today).unwrap();
    lib.add_borrow(&"222".to_string(), &"c1".to_string(), today).unwrap();
    let id = lib.fetch_borrowers(&"111".to_string()).unwrap()[0].borrow.id;
    lib.update_borrow(id, true, date(2024, 4, 1)).unwrap();
    // Returned loans stay listed: history remains visible.
    let of_client = lib.fetch_borrowed_books(&"c1".to_string()).unwrap();
    assert_eq!(of_client.len(), 2);
    assert_eq!(of_client[0].book.isbn, "111");
    assert!(of_client[0].borrow.returned);
    assert_eq!(of_client[1].book.isbn, "222");
    assert!(!of_client[1].borrow.returned);
    let of_book = lib.fetch_borrowers(&"111".to_string()).unwrap();
    assert_eq!(of_book.len(), 1);
    assert_eq!(of_book[0].client.first_name, "Ion");
    assert!(lib.fetch_borrowers(&"999".to_string()).is_none());
    assert!(lib.fetch_borrowed_books(&"nimeni".to_string()).is_none());
}

#[test]
fn client_and_user_lists_round_trip() {
    let mut lib = lending_library();
    assert_eq!(lib.fetch_clients().len(), 3);
    lib.update_client(client("c2", "Marioara")).unwrap();
    assert_eq!(
        lib.fetch_client(&"c2".to_string()).unwrap().first_name,
        "Marioara"
    );
    lib.create_user(user("ana", "pw", "admin")).unwrap();
    assert_eq!(lib.fetch_users().len(), 1);
    lib.delete_user(&"ana".to_string()).unwrap();
    assert!(lib.fetch_user(&"ana".to_string()).is_none());
}
