use vstd::prelude::*;
use crate::date::Date;

verus! {

/// A title in the catalog; `items` counts the physical copies owned.
#[derive(Debug, PartialEq, Eq)]
pub struct Book {
    pub isbn: String,
    pub title: String,
    pub author: String,
    pub items: i32,
}

/// A registered reader, keyed by an externally generated id.
#[derive(Debug, PartialEq, Eq)]
pub struct Client {
    pub id: String,
    pub first_name: String,
    pub last_name: String,
    pub email: String,
    pub phone: String,
}

/// An operator account, keyed by username.
#[derive(Debug, PartialEq, Eq)]
pub struct User {
    pub username: String,
    pub password: String,
    pub first_name: String,
    pub last_name: String,
    pub role: String,
}

/// The fields an account update may change; a `None` password keeps the
/// stored one.
#[derive(Debug, PartialEq, Eq)]
pub struct UpdateUser {
    pub username: String,
    pub first_name: String,
    pub last_name: String,
    pub password: Option<String>,
}

/// A loan of one copy of a book to one client.
#[derive(Debug, PartialEq, Eq)]
pub struct Borrow {
    pub id: i32,
    pub client_id: String,
    pub book_isbn: String,
    pub start_date: Date,
    pub end_date: Date,
    pub returned: bool,
}

/// A loan joined with the book it concerns.
#[derive(Debug, PartialEq, Eq)]
pub struct BookBorrow {
    pub book: Book,
    pub borrow: Borrow,
}

/// A loan joined with the client who holds it.
#[derive(Debug, PartialEq, Eq)]
pub struct ClientBorrow {
    pub client: Client,
    pub borrow: Borrow,
}

impl Clone for Book {
    fn clone(&self) -> (res: Self)
        ensures
            res == *self,
    {
        Book {
            isbn: self.isbn.clone(),
            title: self.title.clone(),
            author: self.author.clone(),
            items: self.items,
        }
    }
}

impl Clone for Client {
    fn clone(&self) -> (res: Self)
        ensures
            res == *self,
    {
        Client {
            id: self.id.clone(),
            first_name: self.first_name.clone(),
            last_name: self.last_name.clone(),
            email: self.email.clone(),
            phone: self.phone.clone(),
        }
    }
}

impl Clone for User {
    fn clone(&self) -> (res: Self)
        ensures
            res == *self,
    {
        User {
            username: self.username.clone(),
            password: self.password.clone(),
            first_name: self.first_name.clone(),
            last_name: self.last_name.clone(),
            role: self.role.clone(),
        }
    }
}

impl Clone for Borrow {
    fn clone(&self) -> (res: Self)
        ensures
            res == *self,
    {
        Borrow {
            id: self.id,
            client_id: self.client_id.clone(),
            book_isbn: self.book_isbn.clone(),
            start_date: self.start_date,
            end_date: self.end_date,
            returned: self.returned,
        }
    }
}

} // verus!
