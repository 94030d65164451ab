use vstd::prelude::*;
use crate::date::Date;
use crate::error::Error;
use crate::models::{Book, Borrow, BookBorrow, Client, ClientBorrow, UpdateUser, User};

verus! {

// ---------------------------------------------------------------------------
// Spec-level views of the four tables.
// ---------------------------------------------------------------------------
pub open spec fn has_book(s: Seq<Book>, isbn: Seq<char>) -> bool {
    exists|i: int| 0 <= i < s.len() && s[i].isbn@ == isbn
}

pub open spec fn book_index(s: Seq<Book>, isbn: Seq<char>) -> int {
    choose|i: int| 0 <= i < s.len() && s[i].isbn@ == isbn
}

pub open spec fn book_named(s: Seq<Book>, isbn: Seq<char>) -> Book {
    s[book_index(s, isbn)]
}

pub open spec fn has_client(s: Seq<Client>, id: Seq<char>) -> bool {
    exists|i: int| 0 <= i < s.len() && s[i].id@ == id
}

pub open spec fn client_index(s: Seq<Client>, id: Seq<char>) -> int {
    choose|i: int| 0 <= i < s.len() && s[i].id@ == id
}

pub open spec fn client_named(s: Seq<Client>, id: Seq<char>) -> Client {
    s[client_index(s, id)]
}

pub open spec fn has_user(s: Seq<User>, name: Seq<char>) -> bool {
    exists|i: int| 0 <= i < s.len() && s[i].username@ == name
}

pub open spec fn user_index(s: Seq<User>, name: Seq<char>) -> int {
    choose|i: int| 0 <= i < s.len() && s[i].username@ == name
}

pub open spec fn user_named(s: Seq<User>, name: Seq<char>) -> User {
    s[user_index(s, name)]
}

pub open spec fn has_borrow(s: Seq<Borrow>, id: int) -> bool {
    exists|i: int| 0 <= i < s.len() && s[i].id == id
}

pub open spec fn borrow_index(s: Seq<Borrow>, id: int) -> int {
    choose|i: int| 0 <= i < s.len() && s[i].id == id
}

pub open spec fn borrow_named(s: Seq<Borrow>, id: int) -> Borrow {
    s[borrow_index(s, id)]
}

/// Whether any loan row (returned or not) references the book.
pub open spec fn book_referenced(s: Seq<Borrow>, isbn: Seq<char>) -> bool {
    exists|i: int| 0 <= i < s.len() && s[i].book_isbn@ == isbn
}

/// Whether any loan row (returned or not) references the client.
pub open spec fn client_referenced(s: Seq<Borrow>, id: Seq<char>) -> bool {
    exists|i: int| 0 <= i < s.len() && s[i].client_id@ == id
}

// ---------------------------------------------------------------------------
// Key uniqueness, one predicate per table.
// ---------------------------------------------------------------------------
pub open spec fn unique_isbns(s: Seq<Book>) -> bool {
    forall|i: int, j: int| 0 <= i < j < s.len() ==> s[i].isbn@ != s[j].isbn@
}

pub open spec fn unique_client_ids(s: Seq<Client>) -> bool {
    forall|i: int, j: int| 0 <= i < j < s.len() ==> s[i].id@ != s[j].id@
}

pub open spec fn unique_usernames(s: Seq<User>) -> bool {
    forall|i: int, j: int| 0 <= i < j < s.len() ==> s[i].username@ != s[j].username@
}

pub open spec fn unique_borrow_ids(s: Seq<Borrow>) -> bool {
    forall|i: int, j: int| 0 <= i < j < s.len() ==> s[i].id != s[j].id
}

// Under uniqueness, any index holding the key is the chosen one.
pub proof fn lemma_book_index_is(s: Seq<Book>, isbn: Seq<char>, i: int)
    requires
        unique_isbns(s),
        0 <= i < s.len(),
        s[i].isbn@ == isbn,
    ensures
        has_book(s, isbn),
        book_index(s, isbn) == i,
        book_named(s, isbn) == s[i],
{
    assert(has_book(s, isbn));
    let k = book_index(s, isbn);
    if k != i {
        assert(s[if k < i { k } else { i }].isbn@ != s[if k < i { i } else { k }].isbn@);
    }
}

pub proof fn lemma_client_index_is(s: Seq<Client>, id: Seq<char>, i: int)
    requires
        unique_client_ids(s),
        0 <= i < s.len(),
        s[i].id@ == id,
    ensures
        has_client(s, id),
        client_index(s, id) == i,
        client_named(s, id) == s[i],
{
    assert(has_client(s, id));
    let k = client_index(s, id);
    if k != i {
        assert(s[if k < i { k } else { i }].id@ != s[if k < i { i } else { k }].id@);
    }
}

pub proof fn lemma_user_index_is(s: Seq<User>, name: Seq<char>, i: int)
    requires
        unique_usernames(s),
        0 <= i < s.len(),
        s[i].username@ == name,
    ensures
        has_user(s, name),
        user_index(s, name) == i,
        user_named(s, name) == s[i],
{
    assert(has_user(s, name));
    let k = user_index(s, name);
    if k != i {
        assert(s[if k < i { k } else { i }].username@ != s[if k < i { i } else { k }].username@);
    }
}

pub proof fn lemma_borrow_index_is(s: Seq<Borrow>, id: int, i: int)
    requires
        unique_borrow_ids(s),
        0 <= i < s.len(),
        s[i].id == id,
    ensures
        has_borrow(s, id),
        borrow_index(s, id) == i,
        borrow_named(s, id) == s[i],
{
    assert(has_borrow(s, id));
    let k = borrow_index(s, id);
    if k != i {
        assert(s[if k < i { k } else { i }].id != s[if k < i { i } else { k }].id);
    }
}

// ---------------------------------------------------------------------------
// The lending view: which loans of a book are still out.
// ---------------------------------------------------------------------------

/// Whether a loan counts against the given book: it names that book and has
/// not been returned.
pub open spec fn is_active_for(b: Borrow, isbn: Seq<char>) -> bool {
    !b.returned && b.book_isbn@ == isbn
}

/// How many un-returned loans of the given book exist.
pub open spec fn count_active(s: Seq<Borrow>, isbn: Seq<char>) -> int
    decreases s.len(),
{
    if s.len() == 0 {
        0
    } else {
        count_active(s.drop_last(), isbn) + if is_active_for(s.last(), isbn) {
            1int
        } else {
            0int
        }
    }
}

/// Whether the given client still holds an un-returned loan of the book.
pub open spec fn holds_active(s: Seq<Borrow>, isbn: Seq<char>, client: Seq<char>) -> bool {
    exists|i: int| 0 <= i < s.len() && is_active_for(s[i], isbn) && s[i].client_id@ == client
}

/// The availability rule: `None` when the book is unknown, otherwise a copy
/// is free for this client iff un-returned loans number fewer than the
/// owned copies and the client does not already hold one.
pub open spec fn spec_available(
    books: Seq<Book>,
    borrows: Seq<Borrow>,
    isbn: Seq<char>,
    client: Seq<char>,
) -> Option<bool> {
    if !has_book(books, isbn) {
        None
    } else {
        Some(count_active(borrows, isbn) < book_named(books, isbn).items && !holds_active(
            borrows,
            isbn,
            client,
        ))
    }
}

proof fn lemma_count_active_take_step(s: Seq<Borrow>, isbn: Seq<char>, i: int)
    requires
        0 <= i < s.len(),
    ensures
        count_active(s.take(i + 1), isbn) == count_active(s.take(i), isbn) + if is_active_for(
            s[i],
            isbn,
        ) {
            1int
        } else {
            0int
        },
{
    assert(s.take(i + 1).drop_last() =~= s.take(i));
    assert(s.take(i + 1).last() == s[i]);
}

// ---------------------------------------------------------------------------
// Lookup helpers over bare table vectors.
// ---------------------------------------------------------------------------
fn find_book_pos(books: &Vec<Book>, isbn: &String) -> (r: Option<usize>)
    ensures
        match r {
            Some(i) => i < books@.len() && books@[i as int].isbn@ == isbn@,
            None => !has_book(books@, isbn@),
        },
{
    let mut i: usize = 0;
    while i < books.len()
        invariant
            i <= books@.len(),
            forall|j: int| 0 <= j < i ==> books@[j].isbn@ != isbn@,
        decreases books@.len() - i,
    {
        if books[i].isbn == *isbn {
            return Some(i);
        }
        i = i + 1;
    }
    None
}

fn find_client_pos(clients: &Vec<Client>, id: &String) -> (r: Option<usize>)
    ensures
        match r {
            Some(i) => i < clients@.len() && clients@[i as int].id@ == id@,
            None => !has_client(clients@, id@),
        },
{
    let mut i: usize = 0;
    while i < clients.len()
        invariant
            i <= clients@.len(),
            forall|j: int| 0 <= j < i ==> clients@[j].id@ != id@,
        decreases clients@.len() - i,
    {
        if clients[i].id == *id {
            return Some(i);
        }
        i = i + 1;
    }
    None
}

fn find_user_pos(users: &Vec<User>, name: &String) -> (r: Option<usize>)
    ensures
        match r {
            Some(i) => i < users@.len() && users@[i as int].username@ == name@,
            None => !has_user(users@, name@),
        },
{
    let mut i: usize = 0;
    while i < users.len()
        invariant
            i <= users@.len(),
            forall|j: int| 0 <= j < i ==> users@[j].username@ != name@,
        decreases users@.len() - i,
    {
        if users[i].username == *name {
            return Some(i);
        }
        i = i + 1;
    }
    None
}

fn find_borrow_pos(borrows: &Vec<Borrow>, id: i32) -> (r: Option<usize>)
    ensures
        match r {
            Some(i) => i < borrows@.len() && borrows@[i as int].id == id,
            None => !has_borrow(borrows@, id as int),
        },
{
    let mut i: usize = 0;
    while i < borrows.len()
        invariant
            i <= borrows@.len(),
            forall|j: int| 0 <= j < i ==> borrows@[j].id != id,
        decreases borrows@.len() - i,
    {
        if borrows[i].id == id {
            return Some(i);
        }
        i = i + 1;
    }
    None
}

fn borrows_reference_book(borrows: &Vec<Borrow>, isbn: &String) -> (r: bool)
    ensures
        r == book_referenced(borrows@, isbn@),
{
    let mut i: usize = 0;
    while i < borrows.len()
        invariant
            i <= borrows@.len(),
            forall|j: int| 0 <= j < i ==> borrows@[j].book_isbn@ != isbn@,
        decreases borrows@.len() - i,
    {
        if borrows[i].book_isbn == *isbn {
            proof {
                assert(book_referenced(borrows@, isbn@));
            }
            return true;
        }
        i = i + 1;
    }
    false
}

fn borrows_reference_client(borrows: &Vec<Borrow>, id: &String) -> (r: bool)
    ensures
        r == client_referenced(borrows@, id@),
{
    let mut i: usize = 0;
    while i < borrows.len()
        invariant
            i <= borrows@.len(),
            forall|j: int| 0 <= j < i ==> borrows@[j].client_id@ != id@,
        decreases borrows@.len() - i,
    {
        if borrows[i].client_id == *id {
            proof {
                assert(client_referenced(borrows@, id@));
            }
            return true;
        }
        i = i + 1;
    }
    false
}

// ---------------------------------------------------------------------------
// The store itself.
// ---------------------------------------------------------------------------

/// The relational store: four tables and the id counter for loans, with
/// unique keys, referential integrity from loans to books and clients, and a
/// non-negative copy count on every book.
pub struct Library {
    books: Vec<Book>,
    clients: Vec<Client>,
    users: Vec<User>,
    borrows: Vec<Borrow>,
    next_borrow_id: i32,
}

impl Library {
    pub closed spec fn spec_books(&self) -> Seq<Book> {
        self.books@
    }

    pub closed spec fn spec_clients(&self) -> Seq<Client> {
        self.clients@
    }

    pub closed spec fn spec_users(&self) -> Seq<User> {
        self.users@
    }

    pub closed spec fn spec_borrows(&self) -> Seq<Borrow> {
        self.borrows@
    }

    /// The id the next loan will receive.
    pub closed spec fn spec_next_id(&self) -> int {
        self.next_borrow_id as int
    }

    /// Well-formedness: unique keys, loans referencing existing books and
    /// clients, loan ids below the counter, and non-negative copy counts.
    pub open spec fn wf(&self) -> bool {
        &&& unique_isbns(self.spec_books())
        &&& unique_client_ids(self.spec_clients())
        &&& unique_usernames(self.spec_users())
        &&& unique_borrow_ids(self.spec_borrows())
        &&& forall|i: int|
            0 <= i < self.spec_borrows().len() ==> has_book(
                self.spec_books(),
                #[trigger] self.spec_borrows()[i].book_isbn@,
            )
        &&& forall|i: int|
            0 <= i < self.spec_borrows().len() ==> has_client(
                self.spec_clients(),
                #[trigger] self.spec_borrows()[i].client_id@,
            )
        &&& forall|i: int|
            0 <= i < self.spec_borrows().len() ==> 0 <= #[trigger] self.spec_borrows()[i].id
                < self.spec_next_id()
        &&& 0 <= self.spec_next_id() <= i32::MAX
        &&& forall|i: int|
            0 <= i < self.spec_books().len() ==> #[trigger] self.spec_books()[i].items >= 0
    }

    /// An empty store.
    pub fn new() -> (r: Library)
        ensures
            r.wf(),
            r.spec_books() == Seq::<Book>::empty(),
            r.spec_clients() == Seq::<Client>::empty(),
            r.spec_users() == Seq::<User>::empty(),
            r.spec_borrows() == Seq::<Borrow>::empty(),
            r.spec_next_id() == 0,
    {
        Library {
            books: Vec::new(),
            clients: Vec::new(),
            users: Vec::new(),
            borrows: Vec::new(),
            next_borrow_id: 0,
        }
    }

    // -----------------------------------------------------------------------
    // Books
    // -----------------------------------------------------------------------

    /// All books, in insertion order.
    pub fn fetch_books(&self) -> (r: Vec<Book>)
        ensures
            r@ == self.spec_books(),
    {
        let mut out: Vec<Book> = Vec::new();
        let mut i: usize = 0;
        while i < self.books.len()
            invariant
                i <= self.books@.len(),
                out@ =~= self.books@.take(i as int),
            decreases self.books@.len() - i,
        {
            out.push(self.books[i].clone());
            i = i + 1;
        }
        proof {
            assert(out@ =~= self.books@);
        }
        out
    }

    /// The book with the given isbn, if any.
    pub fn fetch_book(&self, isbn: &String) -> (r: Option<Book>)
        requires
            self.wf(),
        ensures
            r is Some <==> has_book(self.spec_books(), isbn@),
            r matches Some(b) ==> b == book_named(self.spec_books(), isbn@),
    {
        match find_book_pos(&self.books, isbn) {
            Some(i) => {
                proof {
                    lemma_book_index_is(self.books@, isbn@, i as int);
                }
                Some(self.books[i].clone())
            },
            None => None,
        }
    }

    /// Adds a book. Refused when the isbn is already present or the copy
    /// count is negative.
    pub fn create_book(&mut self, book: Book) -> (r: Result<(), Error>)
        requires
            old(self).wf(),
        ensures
            final(self).wf(),
            r is Ok <==> (!has_book(old(self).spec_books(), book.isbn@) && book.items >= 0),
            r is Ok ==> final(self).spec_books() == old(self).spec_books().push(book),
            r matches Err(e) ==> e is ConstraintViolation && *final(self) == *old(self),
            final(self).spec_clients() == old(self).spec_clients(),
            final(self).spec_users() == old(self).spec_users(),
            final(self).spec_borrows() == old(self).spec_borrows(),
            final(self).spec_next_id() == old(self).spec_next_id(),
    {
        if book.items < 0 {
            return Err(Error::ConstraintViolation);
        }
        match find_book_pos(&self.books, &book.isbn) {
            Some(i) => {
                proof {
                    assert(has_book(self.spec_books(), book.isbn@));
                }
                Err(Error::ConstraintViolation)
            },
            None => {
                self.books.push(book);
                proof {
                    assert(final(self).wf()) by {
                        let s = self.books@;
                        let olds = old(self).spec_books();
                        assert(forall|a: int, b: int|
                            0 <= a < b < s.len() ==> s[a].isbn@ != s[b].isbn@) by {
                            assert(forall|a: int| 0 <= a < olds.len() ==> s[a] == olds[a]);
                        }
                        assert(forall|j: int|
                            0 <= j < self.borrows@.len() ==> has_book(
                                s,
                                #[trigger] self.borrows@[j].book_isbn@,
                            )) by {
                            assert forall|j: int| 0 <= j < self.borrows@.len() implies has_book(
                                s,
                                #[trigger] self.borrows@[j].book_isbn@,
                            ) by {
                                let key = self.borrows@[j].book_isbn@;
                                let bi = book_index(olds, key);
                                assert(s[bi].isbn@ == key);
                            }
                        }
                    }
                }
                Ok(())
            },
        }
    }

    /// Overwrites the book with the same isbn; a no-op when that isbn is
    /// unknown. Refused when the new copy count is negative.
    pub fn update_book(&mut self, book: Book) -> (r: Result<(), Error>)
        requires
            old(self).wf(),
        ensures
            final(self).wf(),
            r is Ok <==> book.items >= 0,
            r matches Err(e) ==> e is ConstraintViolation && *final(self) == *old(self),
            r is Ok && has_book(old(self).spec_books(), book.isbn@) ==> final(self).spec_books()
                == old(self).spec_books().update(
                book_index(old(self).spec_books(), book.isbn@),
                book,
            ),
            r is Ok && !has_book(old(self).spec_books(), book.isbn@) ==> *final(self) == *old(
                self,
            ),
            final(self).spec_clients() == old(self).spec_clients(),
            final(self).spec_users() == old(self).spec_users(),
            final(self).spec_borrows() == old(self).spec_borrows(),
            final(self).spec_next_id() == old(self).spec_next_id(),
    {
        if book.items < 0 {
            return Err(Error::ConstraintViolation);
        }
        match find_book_pos(&self.books, &book.isbn) {
            Some(i) => {
                proof {
                    lemma_book_index_is(self.books@, book.isbn@, i as int);
                }
                self.books.set(i, book);
                proof {
                    let s = self.books@;
                    let olds = old(self).spec_books();
                    assert(final(self).wf()) by {
                        assert(forall|a: int, b: int|
                            0 <= a < b < s.len() ==> s[a].isbn@ != s[b].isbn@);
                        assert(forall|j: int|
                            0 <= j < self.borrows@.len() ==> has_book(
                                s,
                                #[trigger] self.borrows@[j].book_isbn@,
                            )) by {
                            assert forall|j: int| 0 <= j < self.borrows@.len() implies has_book(
                                s,
                                #[trigger] self.borrows@[j].book_isbn@,
                            ) by {
                                let key = self.borrows@[j].book_isbn@;
                                let bi = book_index(olds, key);
                                assert(s[bi].isbn@ == key);
                            }
                        }
                    }
                }
                Ok(())
            },
            None => Ok(()),
        }
    }

    /// Removes the book with the given isbn. Refused while any loan row still
    /// references it; a no-op when the isbn is unknown.
    pub fn delete_book(&mut self, isbn: &String) -> (r: Result<(), Error>)
        requires
            old(self).wf(),
        ensures
            final(self).wf(),
            r is Ok <==> !book_referenced(old(self).spec_borrows(), isbn@),
            r matches Err(e) ==> e is ConstraintViolation && *final(self) == *old(self),
            r is Ok && has_book(old(self).spec_books(), isbn@) ==> final(self).spec_books() == old(
                self,
            ).spec_books().remove(book_index(old(self).spec_books(), isbn@)),
            r is Ok && !has_book(old(self).spec_books(), isbn@) ==> *final(self) == *old(self),
            final(self).spec_clients() == old(self).spec_clients(),
            final(self).spec_users() == old(self).spec_users(),
            final(self).spec_borrows() == old(self).spec_borrows(),
            final(self).spec_next_id() == old(self).spec_next_id(),
    {
        if borrows_reference_book(&self.borrows, isbn) {
            return Err(Error::ConstraintViolation);
        }
        match find_book_pos(&self.books, isbn) {
            Some(i) => {
                proof {
                    lemma_book_index_is(self.books@, isbn@, i as int);
                }
                self.books.remove(i);
                proof {
                    let s = self.books@;
                    let olds = old(self).spec_books();
                    assert(final(self).wf()) by {
                        assert(forall|a: int, b: int|
                            0 <= a < b < s.len() ==> s[a].isbn@ != s[b].isbn@) by {
                            assert(forall|a: int|
                                0 <= a < s.len() ==> s[a] == olds[if a < i { a } else { a + 1 }]);
                        }
                        assert(forall|j: int|
                            0 <= j < self.borrows@.len() ==> has_book(
                                s,
                                #[trigger] self.borrows@[j].book_isbn@,
                            )) by {
                            assert forall|j: int| 0 <= j < self.borrows@.len() implies has_book(
                                s,
                                #[trigger] self.borrows@[j].book_isbn@,
                            ) by {
                                let key = self.borrows@[j].book_isbn@;
                                let bi = book_index(olds, key);
                                assert(olds[bi].isbn@ == key);
                                assert(key != isbn@);
                                if bi < i {
                                    assert(s[bi].isbn@ == key);
                                } else {
                                    assert(s[bi - 1].isbn@ == key);
                                }
                            }
                        }
                    }
                }
                Ok(())
            },
            None => Ok(()),
        }
    }

    // -----------------------------------------------------------------------
    // Clients
    // -----------------------------------------------------------------------

    /// All clients, in insertion order.
    pub fn fetch_clients(&self) -> (r: Vec<Client>)
        ensures
            r@ == self.spec_clients(),
    {
        let mut out: Vec<Client> = Vec::new();
        let mut i: usize = 0;
        while i < self.clients.len()
            invariant
                i <= self.clients@.len(),
                out@ =~= self.clients@.take(i as int),
            decreases self.clients@.len() - i,
        {
            out.push(self.clients[i].clone());
            i = i + 1;
        }
        proof {
            assert(out@ =~= self.clients@);
        }
        out
    }

    /// The client with the given id, if any.
    pub fn fetch_client(&self, id: &String) -> (r: Option<Client>)
        requires
            self.wf(),
        ensures
            r is Some <==> has_client(self.spec_clients(), id@),
            r matches Some(c) ==> c == client_named(self.spec_clients(), id@),
    {
        match find_client_pos(&self.clients, id) {
            Some(i) => {
                proof {
                    lemma_client_index_is(self.clients@, id@, i as int);
                }
                Some(self.clients[i].clone())
            },
            None => None,
        }
    }

    /// Adds a client. Refused when the id is already present.
    pub fn create_client(&mut self, client: Client) -> (r: Result<(), Error>)
        requires
            old(self).wf(),
        ensures
            final(self).wf(),
            r is Ok <==> !has_client(old(self).spec_clients(), client.id@),
            r is Ok ==> final(self).spec_clients() == old(self).spec_clients().push(client),
            r matches Err(e) ==> e is ConstraintViolation && *final(self) == *old(self),
            final(self).spec_books() == old(self).spec_books(),
            final(self).spec_users() == old(self).spec_users(),
            final(self).spec_borrows() == old(self).spec_borrows(),
            final(self).spec_next_id() == old(self).spec_next_id(),
    {
        match find_client_pos(&self.clients, &client.id) {
            Some(i) => {
                proof {
                    assert(has_client(self.spec_clients(), client.id@));
                }
                Err(Error::ConstraintViolation)
            },
            None => {
                self.clients.push(client);
                proof {
                    assert(final(self).wf()) by {
                        let s = self.clients@;
                        let olds = old(self).spec_clients();
                        assert(forall|a: int, b: int|
                            0 <= a < b < s.len() ==> s[a].id@ != s[b].id@) by {
                            assert(forall|a: int| 0 <= a < olds.len() ==> s[a] == olds[a]);
                        }
                        assert(forall|j: int|
                            0 <= j < self.borrows@.len() ==> has_client(
                                s,
                                #[trigger] self.borrows@[j].client_id@,
                            )) by {
                            assert forall|j: int| 0 <= j < self.borrows@.len() implies has_client(
                                s,
                                #[trigger] self.borrows@[j].client_id@,
                            ) by {
                                let key = self.borrows@[j].client_id@;
                                let ci = client_index(olds, key);
                                assert(s[ci].id@ == key);
                            }
                        }
                    }
                }
                Ok(())
            },
        }
    }

    /// Overwrites the client with the same id; a no-op when that id is
    /// unknown.
    pub fn update_client(&mut self, client: Client) -> (r: Result<(), Error>)
        requires
            old(self).wf(),
        ensures
            final(self).wf(),
            r is Ok,
            has_client(old(self).spec_clients(), client.id@) ==> final(self).spec_clients() == old(
                self,
            ).spec_clients().update(client_index(old(self).spec_clients(), client.id@), client),
            !has_client(old(self).spec_clients(), client.id@) ==> *final(self) == *old(self),
            final(self).spec_books() == old(self).spec_books(),
            final(self).spec_users() == old(self).spec_users(),
            final(self).spec_borrows() == old(self).spec_borrows(),
            final(self).spec_next_id() == old(self).spec_next_id(),
    {
        match find_client_pos(&self.clients, &client.id) {
            Some(i) => {
                proof {
                    lemma_client_index_is(self.clients@, client.id@, i as int);
                }
                self.clients.set(i, client);
                proof {
                    let s = self.clients@;
                    let olds = old(self).spec_clients();
                    assert(final(self).wf()) by {
                        assert(forall|a: int, b: int|
                            0 <= a < b < s.len() ==> s[a].id@ != s[b].id@);
                        assert(forall|j: int|
                            0 <= j < self.borrows@.len() ==> has_client(
                                s,
                                #[trigger] self.borrows@[j].client_id@,
                            )) by {
                            assert forall|j: int| 0 <= j < self.borrows@.len() implies has_client(
                                s,
                                #[trigger] self.borrows@[j].client_id@,
                            ) by {
                                let key = self.borrows@[j].client_id@;
                                let ci = client_index(olds, key);
                                assert(s[ci].id@ == key);
                            }
                        }
                    }
                }
                Ok(())
            },
            None => Ok(()),
        }
    }

    /// Removes the client with the given id. Refused while any loan row still
    /// references it; a no-op when the id is unknown.
    pub fn delete_client(&mut self, id: &String) -> (r: Result<(), Error>)
        requires
            old(self).wf(),
        ensures
            final(self).wf(),
            r is Ok <==> !client_referenced(old(self).spec_borrows(), id@),
            r matches Err(e) ==> e is ConstraintViolation && *final(self) == *old(self),
            r is Ok && has_client(old(self).spec_clients(), id@) ==> final(self).spec_clients()
                == old(self).spec_clients().remove(
                client_index(old(self).spec_clients(), id@),
            ),
            r is Ok && !has_client(old(self).spec_clients(), id@) ==> *final(self) == *old(self),
            final(self).spec_books() == old(self).spec_books(),
            final(self).spec_users() == old(self).spec_users(),
            final(self).spec_borrows() == old(self).spec_borrows(),
            final(self).spec_next_id() == old(self).spec_next_id(),
    {
        if borrows_reference_client(&self.borrows, id) {
            return Err(Error::ConstraintViolation);
        }
        match find_client_pos(&self.clients, id) {
            Some(i) => {
                proof {
                    lemma_client_index_is(self.clients@, id@, i as int);
                }
                self.clients.remove(i);
                proof {
                    let s = self.clients@;
                    let olds = old(self).spec_clients();
                    assert(final(self).wf()) by {
                        assert(forall|a: int, b: int|
                            0 <= a < b < s.len() ==> s[a].id@ != s[b].id@) by {
                            assert(forall|a: int|
                                0 <= a < s.len() ==> s[a] == olds[if a < i { a } else { a + 1 }]);
                        }
                        assert(forall|j: int|
                            0 <= j < self.borrows@.len() ==> has_client(
                                s,
                                #[trigger] self.borrows@[j].client_id@,
                            )) by {
                            assert forall|j: int| 0 <= j < self.borrows@.len() implies has_client(
                                s,
                                #[trigger] self.borrows@[j].client_id@,
                            ) by {
                                let key = self.borrows@[j].client_id@;
                                let ci = client_index(olds, key);
                                assert(olds[ci].id@ == key);
                                assert(key != id@);
                                if ci < i {
                                    assert(s[ci].id@ == key);
                                } else {
                                    assert(s[ci - 1].id@ == key);
                                }
                            }
                        }
                    }
                }
                Ok(())
            },
            None => Ok(()),
        }
    }

    // -----------------------------------------------------------------------
    // Users
    // -----------------------------------------------------------------------

    /// All accounts, in insertion order.
    pub fn fetch_users(&self) -> (r: Vec<User>)
        ensures
            r@ == self.spec_users(),
    {
        let mut out: Vec<User> = Vec::new();
        let mut i: usize = 0;
        while i < self.users.len()
            invariant
                i <= self.users@.len(),
                out@ =~= self.users@.take(i as int),
            decreases self.users@.len() - i,
        {
            out.push(self.users[i].clone());
            i = i + 1;
        }
        proof {
            assert(out@ =~= self.users@);
        }
        out
    }

    /// The account with the given username, if any.
    pub fn fetch_user(&self, username: &String) -> (r: Option<User>)
        requires
            self.wf(),
        ensures
            r is Some <==> has_user(self.spec_users(), username@),
            r matches Some(u) ==> u == user_named(self.spec_users(), username@),
    {
        match find_user_pos(&self.users, username) {
            Some(i) => {
                proof {
                    lemma_user_index_is(self.users@, username@, i as int);
                }
                Some(self.users[i].clone())
            },
            None => None,
        }
    }

    /// Adds an account. Refused when the username is already present.
    pub fn create_user(&mut self, user: User) -> (r: Result<(), Error>)
        requires
            old(self).wf(),
        ensures
            final(self).wf(),
            r is Ok <==> !has_user(old(self).spec_users(), user.username@),
            r is Ok ==> final(self).spec_users() == old(self).spec_users().push(user),
            r matches Err(e) ==> e is ConstraintViolation && *final(self) == *old(self),
            final(self).spec_books() == old(self).spec_books(),
            final(self).spec_clients() == old(self).spec_clients(),
            final(self).spec_borrows() == old(self).spec_borrows(),
            final(self).spec_next_id() == old(self).spec_next_id(),
    {
        match find_user_pos(&self.users, &user.username) {
            Some(i) => {
                proof {
                    assert(has_user(self.spec_users(), user.username@));
                }
                Err(Error::ConstraintViolation)
            },
            None => {
                self.users.push(user);
                proof {
                    assert(final(self).wf()) by {
                        let s = self.users@;
                        let olds = old(self).spec_users();
                        assert(forall|a: int, b: int|
                            0 <= a < b < s.len() ==> s[a].username@ != s[b].username@) by {
                            assert(forall|a: int| 0 <= a < olds.len() ==> s[a] == olds[a]);
                        }
                    }
                }
                Ok(())
            },
        }
    }

    /// Removes the account with the given username; a no-op when it is
    /// unknown.
    pub fn delete_user(&mut self, username: &String) -> (r: Result<(), Error>)
        requires
            old(self).wf(),
        ensures
            final(self).wf(),
            r is Ok,
            has_user(old(self).spec_users(), username@) ==> final(self).spec_users() == old(
                self,
            ).spec_users().remove(user_index(old(self).spec_users(), username@)),
            !has_user(old(self).spec_users(), username@) ==> *final(self) == *old(self),
            final(self).spec_books() == old(self).spec_books(),
            final(self).spec_clients() == old(self).spec_clients(),
            final(self).spec_borrows() == old(self).spec_borrows(),
            final(self).spec_next_id() == old(self).spec_next_id(),
    {
        match find_user_pos(&self.users, username) {
            Some(i) => {
                proof {
                    lemma_user_index_is(self.users@, username@, i as int);
                }
                self.users.remove(i);
                proof {
                    assert(final(self).wf()) by {
                        let s = self.users@;
                        let olds = old(self).spec_users();
                        assert(forall|a: int, b: int|
                            0 <= a < b < s.len() ==> s[a].username@ != s[b].username@) by {
                            assert(forall|a: int|
                                0 <= a < s.len() ==> s[a] == olds[if a < i { a } else { a + 1 }]);
                        }
                    }
                }
                Ok(())
            },
            None => Ok(()),
        }
    }

    /// Checks a username and password pair: the stored account on a verbatim
    /// password match, `NotFound` for an unknown username, `AuthError` on a
    /// mismatch.
    pub fn login(&self, username: &String, password: &String) -> (r: Result<User, Error>)
        requires
            self.wf(),
        ensures
            r == spec_login(self.spec_users(), username@, password@),
    {
        match find_user_pos(&self.users, username) {
            Some(i) => {
                proof {
                    lemma_user_index_is(self.users@, username@, i as int);
                }
                if self.users[i].password == *password {
                    Ok(self.users[i].clone())
                } else {
                    Err(Error::AuthError)
                }
            },
            None => Err(Error::NotFound),
        }
    }

    /// Rewrites an account's name fields, and its password when the update
    /// carries one, after re-checking the current password. `NotFound` for an
    /// unknown username, `AuthError` when the given current password does not
    /// match the stored one.
    pub fn update_user(&mut self, update: &UpdateUser, password: &String) -> (r: Result<
        (),
        Error,
    >)
        requires
            old(self).wf(),
        ensures
            final(self).wf(),
            r is Ok <==> (has_user(old(self).spec_users(), update.username@) && user_named(
                old(self).spec_users(),
                update.username@,
            ).password@ == password@),
            !has_user(old(self).spec_users(), update.username@) ==> (r matches Err(e) && e
                is NotFound),
            has_user(old(self).spec_users(), update.username@) && user_named(
                old(self).spec_users(),
                update.username@,
            ).password@ != password@ ==> (r matches Err(e) && e is AuthError),
            r is Err ==> *final(self) == *old(self),
            r is Ok ==> final(self).spec_users() == old(self).spec_users().update(
                user_index(old(self).spec_users(), update.username@),
                spec_updated_user(user_named(old(self).spec_users(), update.username@), update),
            ),
            final(self).spec_books() == old(self).spec_books(),
            final(self).spec_clients() == old(self).spec_clients(),
            final(self).spec_borrows() == old(self).spec_borrows(),
            final(self).spec_next_id() == old(self).spec_next_id(),
    {
        match find_user_pos(&self.users, &update.username) {
            Some(i) => {
                proof {
                    lemma_user_index_is(self.users@, update.username@, i as int);
                }
                if self.users[i].password == *password {
                    let stored = self.users[i].clone();
                    let new_password = match &update.password {
                        Some(p) => p.clone(),
                        None => stored.password,
                    };
                    let new_user = User {
                        username: stored.username,
                        password: new_password,
                        first_name: update.first_name.clone(),
                        last_name: update.last_name.clone(),
                        role: stored.role,
                    };
                    proof {
                        assert(new_user == spec_updated_user(
                            user_named(old(self).spec_users(), update.username@),
                            update,
                        ));
                    }
                    self.users.set(i, new_user);
                    proof {
                        assert(final(self).wf()) by {
                            let s = self.users@;
                            assert(forall|a: int, b: int|
                                0 <= a < b < s.len() ==> s[a].username@ != s[b].username@);
                        }
                    }
                    Ok(())
                } else {
                    Err(Error::AuthError)
                }
            },
            None => Err(Error::NotFound),
        }
    }
}

/// The outcome of a login attempt against a table of accounts.
pub open spec fn spec_login(users: Seq<User>, name: Seq<char>, pw: Seq<char>) -> Result<
    User,
    Error,
> {
    if !has_user(users, name) {
        Err(Error::NotFound)
    } else if user_named(users, name).password@ != pw {
        Err(Error::AuthError)
    } else {
        Ok(user_named(users, name))
    }
}

/// How an account update rewrites a stored account: names come from the
/// update, the password only when the update carries one, the role stays.
pub open spec fn spec_updated_user(stored: User, upd: &UpdateUser) -> User {
    User {
        username: stored.username,
        password: match upd.password {
            Some(p) => p,
            None => stored.password,
        },
        first_name: upd.first_name,
        last_name: upd.last_name,
        role: stored.role,
    }
}

// ---------------------------------------------------------------------------
// Lending
// ---------------------------------------------------------------------------

/// The loan rows naming the given book, in table order, returned or not.
pub open spec fn borrows_of_book(s: Seq<Borrow>, isbn: Seq<char>) -> Seq<Borrow>
    decreases s.len(),
{
    if s.len() == 0 {
        Seq::empty()
    } else if s.last().book_isbn@ == isbn {
        borrows_of_book(s.drop_last(), isbn).push(s.last())
    } else {
        borrows_of_book(s.drop_last(), isbn)
    }
}

/// The loan rows naming the given client, in table order, returned or not.
pub open spec fn borrows_of_client(s: Seq<Borrow>, id: Seq<char>) -> Seq<Borrow>
    decreases s.len(),
{
    if s.len() == 0 {
        Seq::empty()
    } else if s.last().client_id@ == id {
        borrows_of_client(s.drop_last(), id).push(s.last())
    } else {
        borrows_of_client(s.drop_last(), id)
    }
}

/// How ending a loan rewrites the loan table: the row with the given id gets
/// the new returned flag and end date, every other row stays; an unknown id
/// changes nothing.
pub open spec fn spec_end_loan(s: Seq<Borrow>, id: int, returned: bool, end: Date) -> Seq<
    Borrow,
> {
    if !has_borrow(s, id) {
        s
    } else {
        s.update(
            borrow_index(s, id),
            Borrow { returned, end_date: end, ..s[borrow_index(s, id)] },
        )
    }
}

proof fn lemma_count_active_update(s: Seq<Borrow>, i: int, b: Borrow, isbn: Seq<char>)
    requires
        0 <= i < s.len(),
    ensures
        count_active(s.update(i, b), isbn) == count_active(s, isbn) - (if is_active_for(
            s[i],
            isbn,
        ) {
            1int
        } else {
            0int
        }) + (if is_active_for(b, isbn) {
            1int
        } else {
            0int
        }),
    decreases s.len(),
{
    let t = s.update(i, b);
    if i == s.len() - 1 {
        assert(t.drop_last() =~= s.drop_last());
        assert(t.last() == b);
    } else {
        assert(t.drop_last() =~= s.drop_last().update(i, b));
        assert(t.last() == s.last());
        lemma_count_active_update(s.drop_last(), i, b, isbn);
    }
}

// ---------------------------------------------------------------------------
// Laws of the lending workflow.
// ---------------------------------------------------------------------------

/// A full book is available to nobody: once the un-returned loans of a book
/// reach its owned copies, the availability check reports false for every
/// client, including clients with no active loan at all.
pub proof fn lemma_full_book_never_available(
    books: Seq<Book>,
    borrows: Seq<Borrow>,
    isbn: Seq<char>,
    client: Seq<char>,
)
    requires
        has_book(books, isbn),
        count_active(borrows, isbn) >= book_named(books, isbn).items,
    ensures
        spec_available(books, borrows, isbn, client) == Some(false),
{
}

/// A client already holding an un-returned loan of a book is never reported
/// available for that book again, regardless of remaining copies.
pub proof fn lemma_holder_never_available(
    books: Seq<Book>,
    borrows: Seq<Borrow>,
    isbn: Seq<char>,
    client: Seq<char>,
)
    requires
        has_book(books, isbn),
        holds_active(borrows, isbn, client),
    ensures
        spec_available(books, borrows, isbn, client) == Some(false),
{
}

/// A returned loan is inactive: ending a loan that was still out drops the
/// book's active-loan count by one, and gives no client an active hold it
/// did not already have. An availability check made right after the update
/// therefore counts without the returned loan.
pub proof fn lemma_returned_loan_inactive(s: Seq<Borrow>, id: int, end: Date, isbn: Seq<char>)
    requires
        unique_borrow_ids(s),
        has_borrow(s, id),
        is_active_for(borrow_named(s, id), isbn),
    ensures
        count_active(spec_end_loan(s, id, true, end), isbn) == count_active(s, isbn) - 1,
        forall|c: Seq<char>|
            holds_active(spec_end_loan(s, id, true, end), isbn, c) ==> holds_active(s, isbn, c),
{
    let i = borrow_index(s, id);
    let b2 = Borrow { returned: true, end_date: end, ..s[i] };
    let t = spec_end_loan(s, id, true, end);
    assert(t == s.update(i, b2));
    lemma_count_active_update(s, i, b2, isbn);
    assert(!is_active_for(b2, isbn));
    assert forall|c: Seq<char>| holds_active(t, isbn, c) implies holds_active(s, isbn, c) by {
        let k = choose|k: int|
            0 <= k < t.len() && is_active_for(t[k], isbn) && t[k].client_id@ == c;
        if k != i {
            assert(t[k] == s[k]);
            assert(holds_active(s, isbn, c));
        } else {
            assert(t[i] == b2);
        }
    }
}

/// Ending a loan is idempotent: applying the same id, returned flag and end
/// date a second time leaves the loan table exactly as after the first
/// application.
pub proof fn lemma_end_loan_idempotent(s: Seq<Borrow>, id: int, returned: bool, end: Date)
    requires
        unique_borrow_ids(s),
    ensures
        spec_end_loan(spec_end_loan(s, id, returned, end), id, returned, end) == spec_end_loan(
            s,
            id,
            returned,
            end,
        ),
{
    if has_borrow(s, id) {
        let i = borrow_index(s, id);
        let b2 = Borrow { returned, end_date: end, ..s[i] };
        let t = s.update(i, b2);
        assert(forall|a: int| 0 <= a < t.len() ==> #[trigger] t[a].id == s[a].id);
        assert(unique_borrow_ids(t));
        lemma_borrow_index_is(t, id, i);
        let b3 = Borrow { returned, end_date: end, ..t[i] };
        assert(b3 == b2);
        assert(t.update(i, b3) =~= t);
    }
}

proof fn lemma_holds_active_take_step(s: Seq<Borrow>, isbn: Seq<char>, client: Seq<char>, i: int)
    requires
        0 <= i < s.len(),
    ensures
        holds_active(s.take(i + 1), isbn, client) == (holds_active(s.take(i), isbn, client) || (
        is_active_for(s[i], isbn) && s[i].client_id@ == client)),
{
    let pre = s.take(i);
    let post = s.take(i + 1);
    assert(post =~= pre.push(s[i]));
    if holds_active(post, isbn, client) {
        let k = choose|k: int|
            0 <= k < post.len() && is_active_for(post[k], isbn) && post[k].client_id@ == client;
        if k < i {
            assert(pre[k] == post[k]);
            assert(holds_active(pre, isbn, client));
        } else {
            assert(post[k] == s[i]);
        }
    }
    if holds_active(pre, isbn, client) {
        let k = choose|k: int|
            0 <= k < pre.len() && is_active_for(pre[k], isbn) && pre[k].client_id@ == client;
        assert(post[k] == pre[k]);
        assert(holds_active(post, isbn, client));
    }
    if is_active_for(s[i], isbn) && s[i].client_id@ == client {
        assert(post[i] == s[i]);
        assert(holds_active(post, isbn, client));
    }
}

proof fn lemma_borrows_of_book_take_step(s: Seq<Borrow>, isbn: Seq<char>, i: int)
    requires
        0 <= i < s.len(),
    ensures
        borrows_of_book(s.take(i + 1), isbn) == if s[i].book_isbn@ == isbn {
            borrows_of_book(s.take(i), isbn).push(s[i])
        } else {
            borrows_of_book(s.take(i), isbn)
        },
{
    assert(s.take(i + 1).drop_last() =~= s.take(i));
    assert(s.take(i + 1).last() == s[i]);
}

proof fn lemma_borrows_of_client_take_step(s: Seq<Borrow>, id: Seq<char>, i: int)
    requires
        0 <= i < s.len(),
    ensures
        borrows_of_client(s.take(i + 1), id) == if s[i].client_id@ == id {
            borrows_of_client(s.take(i), id).push(s[i])
        } else {
            borrows_of_client(s.take(i), id)
        },
{
    assert(s.take(i + 1).drop_last() =~= s.take(i));
    assert(s.take(i + 1).last() == s[i]);
}

impl Library {
    /// The availability check: `None` for an unknown book; otherwise whether
    /// this client may take a copy now, per `spec_available`. Read-only.
    pub fn is_book_available(&self, isbn: &String, client_id: &String) -> (r: Option<bool>)
        requires
            self.wf(),
        ensures
            r == spec_available(self.spec_books(), self.spec_borrows(), isbn@, client_id@),
    {
        match find_book_pos(&self.books, isbn) {
            Some(bi) => {
                proof {
                    lemma_book_index_is(self.books@, isbn@, bi as int);
                }
                let items = self.books[bi].items;
                let mut count: usize = 0;
                let mut already = false;
                let mut i: usize = 0;
                while i < self.borrows.len()
                    invariant
                        self.wf(),
                        i <= self.borrows@.len(),
                        count <= i,
                        count == count_active(self.borrows@.take(i as int), isbn@),
                        already == holds_active(self.borrows@.take(i as int), isbn@, client_id@),
                    decreases self.borrows@.len() - i,
                {
                    proof {
                        lemma_count_active_take_step(self.borrows@, isbn@, i as int);
                        lemma_holds_active_take_step(self.borrows@, isbn@, client_id@, i as int);
                    }
                    let b = &self.borrows[i];
                    if !b.returned && b.book_isbn == *isbn {
                        count = count + 1;
                        if b.client_id == *client_id {
                            already = true;
                        }
                    }
                    i = i + 1;
                }
                proof {
                    assert(self.borrows@.take(self.borrows@.len() as int) =~= self.borrows@);
                }
                let free = !already && (items >= 0 && (count as u64) < (items as u64));
                Some(free)
            },
            None => None,
        }
    }

    /// All loans of a book joined with their clients, history included.
    /// `None` for an unknown book.
    pub fn fetch_borrowers(&self, isbn: &String) -> (r: Option<Vec<ClientBorrow>>)
        requires
            self.wf(),
        ensures
            r is Some <==> has_book(self.spec_books(), isbn@),
            r matches Some(v) ==> {
                &&& v@.len() == borrows_of_book(self.spec_borrows(), isbn@).len()
                &&& forall|k: int|
                    0 <= k < v@.len() ==> #[trigger] v@[k].borrow == borrows_of_book(
                        self.spec_borrows(),
                        isbn@,
                    )[k] && v@[k].client == client_named(
                        self.spec_clients(),
                        borrows_of_book(self.spec_borrows(), isbn@)[k].client_id@,
                    )
            },
    {
        match find_book_pos(&self.books, isbn) {
            Some(_) => {
                proof {
                    assert(has_book(self.spec_books(), isbn@));
                }
                let mut out: Vec<ClientBorrow> = Vec::new();
                let mut i: usize = 0;
                while i < self.borrows.len()
                    invariant
                        self.wf(),
                        i <= self.borrows@.len(),
                        out@.len() == borrows_of_book(
                            self.borrows@.take(i as int),
                            isbn@,
                        ).len(),
                        forall|k: int|
                            0 <= k < out@.len() ==> #[trigger] out@[k].borrow == borrows_of_book(
                                self.borrows@.take(i as int),
                                isbn@,
                            )[k] && out@[k].client == client_named(
                                self.clients@,
                                borrows_of_book(self.borrows@.take(i as int), isbn@)[k].client_id@,
                            ),
                    decreases self.borrows@.len() - i,
                {
                    proof {
                        lemma_borrows_of_book_take_step(self.borrows@, isbn@, i as int);
                    }
                    if self.borrows[i].book_isbn == *isbn {
                        let client = match find_client_pos(&self.clients, &self.borrows[i].client_id) {
                            Some(ci) => {
                                proof {
                                    lemma_client_index_is(
                                        self.clients@,
                                        self.borrows@[i as int].client_id@,
                                        ci as int,
                                    );
                                }
                                self.clients[ci].clone()
                            },
                            None => {
                                proof {
                                    assert(has_client(
                                        self.spec_clients(),
                                        self.spec_borrows()[i as int].client_id@,
                                    ));
                                }
                                unreached()
                            },
                        };
                        out.push(ClientBorrow { client, borrow: self.borrows[i].clone() });
                        proof {
                            let pre = borrows_of_book(self.borrows@.take(i as int), isbn@);
                            let post = borrows_of_book(
                                self.borrows@.take(i as int + 1),
                                isbn@,
                            );
                            assert(post == pre.push(self.borrows@[i as int]));
                            assert(forall|k: int| 0 <= k < pre.len() ==> post[k] == pre[k]);
                            assert(post[post.len() - 1] == self.borrows@[i as int]);
                        }
                    }
                    i = i + 1;
                }
                proof {
                    assert(self.borrows@.take(self.borrows@.len() as int) =~= self.borrows@);
                    assert(out@.len() == borrows_of_book(self.spec_borrows(), isbn@).len());
                    assert(forall|k: int|
                        0 <= k < out@.len() ==> #[trigger] out@[k].borrow == borrows_of_book(
                            self.spec_borrows(),
                            isbn@,
                        )[k] && out@[k].client == client_named(
                            self.spec_clients(),
                            borrows_of_book(self.spec_borrows(), isbn@)[k].client_id@,
                        ));
                }
                Some(out)
            },
            None => None,
        }
    }

    /// All loans of a client joined with their books, history included.
    /// `None` for an unknown client.
    pub fn fetch_borrowed_books(&self, id: &String) -> (r: Option<Vec<BookBorrow>>)
        requires
            self.wf(),
        ensures
            r is Some <==> has_client(self.spec_clients(), id@),
            r matches Some(v) ==> {
                &&& v@.len() == borrows_of_client(self.spec_borrows(), id@).len()
                &&& forall|k: int|
                    0 <= k < v@.len() ==> #[trigger] v@[k].borrow == borrows_of_client(
                        self.spec_borrows(),
                        id@,
                    )[k] && v@[k].book == book_named(
                        self.spec_books(),
                        borrows_of_client(self.spec_borrows(), id@)[k].book_isbn@,
                    )
            },
    {
        match find_client_pos(&self.clients, id) {
            Some(_) => {
                proof {
                    assert(has_client(self.spec_clients(), id@));
                }
                let mut out: Vec<BookBorrow> = Vec::new();
                let mut i: usize = 0;
                while i < self.borrows.len()
                    invariant
                        self.wf(),
                        i <= self.borrows@.len(),
                        out@.len() == borrows_of_client(
                            self.borrows@.take(i as int),
                            id@,
                        ).len(),
                        forall|k: int|
                            0 <= k < out@.len() ==> #[trigger] out@[k].borrow == borrows_of_client(
                                self.borrows@.take(i as int),
                                id@,
                            )[k] && out@[k].book == book_named(
                                self.books@,
                                borrows_of_client(self.borrows@.take(i as int), id@)[k].book_isbn@,
                            ),
                    decreases self.borrows@.len() - i,
                {
                    proof {
                        lemma_borrows_of_client_take_step(self.borrows@, id@, i as int);
                    }
                    if self.borrows[i].client_id == *id {
                        let book = match find_book_pos(&self.books, &self.borrows[i].book_isbn) {
                            Some(bi) => {
                                proof {
                                    lemma_book_index_is(
                                        self.books@,
                                        self.borrows@[i as int].book_isbn@,
                                        bi as int,
                                    );
                                }
                                self.books[bi].clone()
                            },
                            None => {
                                proof {
                                    assert(has_book(
                                        self.spec_books(),
                                        self.spec_borrows()[i as int].book_isbn@,
                                    ));
                                }
                                unreached()
                            },
                        };
                        out.push(BookBorrow { book, borrow: self.borrows[i].clone() });
                        proof {
                            let pre = borrows_of_client(self.borrows@.take(i as int), id@);
                            let post = borrows_of_client(
                                self.borrows@.take(i as int + 1),
                                id@,
                            );
                            assert(post == pre.push(self.borrows@[i as int]));
                            assert(forall|k: int| 0 <= k < pre.len() ==> post[k] == pre[k]);
                            assert(post[post.len() - 1] == self.borrows@[i as int]);
                        }
                    }
                    i = i + 1;
                }
                proof {
                    assert(self.borrows@.take(self.borrows@.len() as int) =~= self.borrows@);
                    assert(out@.len() == borrows_of_client(self.spec_borrows(), id@).len());
                    assert(forall|k: int|
                        0 <= k < out@.len() ==> #[trigger] out@[k].borrow == borrows_of_client(
                            self.spec_borrows(),
                            id@,
                        )[k] && out@[k].book == book_named(
                            self.spec_books(),
                            borrows_of_client(self.spec_borrows(), id@)[k].book_isbn@,
                        ));
                }
                Some(out)
            },
            None => None,
        }
    }

    /// Opens a loan: a new row with a fresh id, today as the start date, the
    /// due date fourteen days later, and the returned flag clear. Refused
    /// when the book or client is unknown or the id space is exhausted. Does
    /// not re-check availability; see `try_start_loan` for the guarded form.
    pub fn add_borrow(&mut self, isbn: &String, client_id: &String, today: Date) -> (r: Result<
        (),
        Error,
    >)
        requires
            old(self).wf(),
            today.valid(),
            today.year <= 9998,
        ensures
            final(self).wf(),
            r is Ok <==> (has_book(old(self).spec_books(), isbn@) && has_client(
                old(self).spec_clients(),
                client_id@,
            ) && old(self).spec_next_id() < i32::MAX),
            r matches Err(e) ==> e is ConstraintViolation && *final(self) == *old(self),
            r is Ok ==> exists|b: Borrow|
                #![auto]
                {
                    &&& final(self).spec_borrows() == old(self).spec_borrows().push(b)
                    &&& b.id == old(self).spec_next_id()
                    &&& b.client_id@ == client_id@
                    &&& b.book_isbn@ == isbn@
                    &&& b.start_date == today
                    &&& b.returned == false
                    &&& b.end_date.valid()
                    &&& b.end_date.day_index() == today.day_index() + 14
                },
            r is Ok ==> final(self).spec_next_id() == old(self).spec_next_id() + 1,
            final(self).spec_books() == old(self).spec_books(),
            final(self).spec_clients() == old(self).spec_clients(),
            final(self).spec_users() == old(self).spec_users(),
    {
        if self.next_borrow_id == i32::MAX {
            return Err(Error::ConstraintViolation);
        }
        match find_book_pos(&self.books, isbn) {
            Some(_) => {
                proof {
                    assert(has_book(self.spec_books(), isbn@));
                }
            },
            None => {
                return Err(Error::ConstraintViolation);
            },
        }
        match find_client_pos(&self.clients, client_id) {
            Some(_) => {
                proof {
                    assert(has_client(self.spec_clients(), client_id@));
                }
            },
            None => {
                return Err(Error::ConstraintViolation);
            },
        }
        let end = today.plus_days(14);
        let b = Borrow {
            id: self.next_borrow_id,
            client_id: client_id.clone(),
            book_isbn: isbn.clone(),
            start_date: today,
            end_date: end,
            returned: false,
        };
        self.borrows.push(b);
        self.next_borrow_id = self.next_borrow_id + 1;
        proof {
            let s = self.borrows@;
            let olds = old(self).spec_borrows();
            assert(final(self).wf()) by {
                assert forall|j: int| 0 <= j < s.len() implies 0 <= #[trigger] s[j].id
                    < self.next_borrow_id as int by {
                    if j < olds.len() {
                        assert(s[j] == old(self).spec_borrows()[j]);
                        assert(0 <= old(self).spec_borrows()[j].id < old(self).spec_next_id());
                    } else {
                        assert(s[j].id == old(self).spec_next_id());
                    }
                }
                assert forall|a: int, b2: int| 0 <= a < b2 < s.len() implies s[a].id
                    != s[b2].id by {
                    assert(forall|k: int| 0 <= k < olds.len() ==> s[k] == olds[k]);
                    if b2 == olds.len() {
                        assert(0 <= old(self).spec_borrows()[a].id < old(self).spec_next_id());
                        assert(s[b2].id == old(self).spec_next_id());
                    }
                }
                assert forall|j: int| 0 <= j < s.len() implies has_book(
                    self.books@,
                    #[trigger] s[j].book_isbn@,
                ) by {
                    if j < olds.len() {
                        assert(s[j] == old(self).spec_borrows()[j]);
                        assert(has_book(self.books@, old(self).spec_borrows()[j].book_isbn@));
                    }
                }
                assert forall|j: int| 0 <= j < s.len() implies has_client(
                    self.clients@,
                    #[trigger] s[j].client_id@,
                ) by {
                    if j < olds.len() {
                        assert(s[j] == old(self).spec_borrows()[j]);
                        assert(has_client(self.clients@, old(self).spec_borrows()[j].client_id@));
                    }
                }
            }
        }
        Ok(())
    }

    /// The guarded form the lending rules call for: checks availability and
    /// inserts the loan as one operation on the store. `Ok(true)` when the
    /// loan was opened, `Ok(false)` when the book is unavailable for this
    /// client, `NotFound` for an unknown book, and a constraint error for an
    /// unknown client or an exhausted id space.
    pub fn try_start_loan(&mut self, isbn: &String, client_id: &String, today: Date) -> (r: Result<
        bool,
        Error,
    >)
        requires
            old(self).wf(),
            today.valid(),
            today.year <= 9998,
        ensures
            final(self).wf(),
            spec_available(old(self).spec_books(), old(self).spec_borrows(), isbn@, client_id@)
                is None ==> (r matches Err(e) && e is NotFound && *final(self) == *old(self)),
            spec_available(old(self).spec_books(), old(self).spec_borrows(), isbn@, client_id@)
                == Some(false) ==> r == Result::<bool, Error>::Ok(false) && *final(self) == *old(
                self,
            ),
            spec_available(old(self).spec_books(), old(self).spec_borrows(), isbn@, client_id@)
                == Some(true) ==> {
                &&& r == Result::<bool, Error>::Ok(true) <==> (has_client(
                    old(self).spec_clients(),
                    client_id@,
                ) && old(self).spec_next_id() < i32::MAX)
                &&& r is Err ==> *final(self) == *old(self)
                &&& (r matches Err(e) ==> e is ConstraintViolation)
                &&& r == Result::<bool, Error>::Ok(true) ==> exists|b: Borrow|
                    #![auto]
                    {
                        &&& final(self).spec_borrows() == old(self).spec_borrows().push(b)
                        &&& b.id == old(self).spec_next_id()
                        &&& b.client_id@ == client_id@
                        &&& b.book_isbn@ == isbn@
                        &&& b.start_date == today
                        &&& b.returned == false
                        &&& b.end_date.valid()
                        &&& b.end_date.day_index() == today.day_index() + 14
                    }
            },
            final(self).spec_books() == old(self).spec_books(),
            final(self).spec_clients() == old(self).spec_clients(),
            final(self).spec_users() == old(self).spec_users(),
    {
        match self.is_book_available(isbn, client_id) {
            None => Err(Error::NotFound),
            Some(false) => Ok(false),
            Some(true) => {
                match self.add_borrow(isbn, client_id, today) {
                    Ok(()) => Ok(true),
                    Err(e) => Err(e),
                }
            },
        }
    }

    /// Ends (or re-dates) a loan: sets the returned flag and the end date of
    /// the row with the given id, leaving every other field and row alone.
    /// `NotFound` when no such loan exists. Applying the same arguments twice
    /// leaves the same state as applying them once.
    pub fn update_borrow(&mut self, id: i32, returned: bool, end_date: Date) -> (r: Result<
        (),
        Error,
    >)
        requires
            old(self).wf(),
        ensures
            final(self).wf(),
            r is Ok <==> has_borrow(old(self).spec_borrows(), id as int),
            r matches Err(e) ==> e is NotFound && *final(self) == *old(self),
            final(self).spec_borrows() == spec_end_loan(
                old(self).spec_borrows(),
                id as int,
                returned,
                end_date,
            ),
            final(self).spec_books() == old(self).spec_books(),
            final(self).spec_clients() == old(self).spec_clients(),
            final(self).spec_users() == old(self).spec_users(),
            final(self).spec_next_id() == old(self).spec_next_id(),
    {
        match find_borrow_pos(&self.borrows, id) {
            Some(i) => {
                proof {
                    lemma_borrow_index_is(self.borrows@, id as int, i as int);
                }
                let b = &self.borrows[i];
                let updated = Borrow {
                    id: b.id,
                    client_id: b.client_id.clone(),
                    book_isbn: b.book_isbn.clone(),
                    start_date: b.start_date,
                    end_date,
                    returned,
                };
                self.borrows.set(i, updated);
                proof {
                    let s = self.borrows@;
                    let olds = old(self).spec_borrows();
                    assert(s =~= spec_end_loan(olds, id as int, returned, end_date));
                    assert(final(self).wf()) by {
                        assert(forall|a: int| 0 <= a < s.len() ==> #[trigger] s[a].id == olds[a].id);
                        assert(forall|a: int, b2: int|
                            0 <= a < b2 < s.len() ==> s[a].id != s[b2].id);
                        assert forall|a: int| 0 <= a < s.len() implies 0 <= #[trigger] s[a].id
                            < self.next_borrow_id as int by {
                            assert(s[a].id == old(self).spec_borrows()[a].id);
                            assert(0 <= old(self).spec_borrows()[a].id < old(self).spec_next_id());
                        }
                        assert forall|j: int| 0 <= j < s.len() implies has_book(
                            self.books@,
                            #[trigger] s[j].book_isbn@,
                        ) by {
                            assert(s[j].book_isbn@ == olds[j].book_isbn@);
                            assert(has_book(self.books@, old(self).spec_borrows()[j].book_isbn@));
                        }
                        assert forall|j: int| 0 <= j < s.len() implies has_client(
                            self.clients@,
                            #[trigger] s[j].client_id@,
                        ) by {
                            assert(s[j].client_id@ == olds[j].client_id@);
                            assert(has_client(
                                self.clients@,
                                old(self).spec_borrows()[j].client_id@,
                            ));
                        }
                    }
                }
                Ok(())
            },
            None => Err(Error::NotFound),
        }
    }

    /// Removes the loan row with the given id; a no-op when it is unknown.
    pub fn delete_borrow(&mut self, id: i32) -> (r: Result<(), Error>)
        requires
            old(self).wf(),
        ensures
            final(self).wf(),
            r is Ok,
            has_borrow(old(self).spec_borrows(), id as int) ==> final(self).spec_borrows() == old(
                self,
            ).spec_borrows().remove(borrow_index(old(self).spec_borrows(), id as int)),
            !has_borrow(old(self).spec_borrows(), id as int) ==> *final(self) == *old(self),
            final(self).spec_books() == old(self).spec_books(),
            final(self).spec_clients() == old(self).spec_clients(),
            final(self).spec_users() == old(self).spec_users(),
            final(self).spec_next_id() == old(self).spec_next_id(),
    {
        match find_borrow_pos(&self.borrows, id) {
            Some(i) => {
                proof {
                    lemma_borrow_index_is(self.borrows@, id as int, i as int);
                }
                self.borrows.remove(i);
                proof {
                    let s = self.borrows@;
                    let olds = old(self).spec_borrows();
                    assert(final(self).wf()) by {
                        assert(forall|a: int|
                            0 <= a < s.len() ==> s[a] == olds[if a < i { a } else { a + 1 }]);
                        assert(forall|a: int, b2: int|
                            0 <= a < b2 < s.len() ==> s[a].id != s[b2].id);
                        assert forall|j: int| 0 <= j < s.len() implies has_book(
                            self.books@,
                            #[trigger] s[j].book_isbn@,
                        ) by {
                            let oj = if j < i {
                                j
                            } else {
                                j + 1
                            };
                            assert(s[j] == old(self).spec_borrows()[oj]);
                            assert(has_book(self.books@, old(self).spec_borrows()[oj].book_isbn@));
                        }
                        assert forall|j: int| 0 <= j < s.len() implies has_client(
                            self.clients@,
                            #[trigger] s[j].client_id@,
                        ) by {
                            let oj = if j < i {
                                j
                            } else {
                                j + 1
                            };
                            assert(s[j] == old(self).spec_borrows()[oj]);
                            assert(has_client(
                                self.clients@,
                                old(self).spec_borrows()[oj].client_id@,
                            ));
                        }
                    }
                }
                Ok(())
            },
            None => Ok(()),
        }
    }
}

} // verus!
