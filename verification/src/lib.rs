//! A small library-management core: books, clients, users and loans kept in a
//! relational in-memory store with verified lending rules, a fixed-layout
//! badge and barcode renderer, a settings document codec, and the
//! normalization logic for an external book-catalog lookup.

pub mod badge;
pub mod canvas;
pub mod catalog;
pub mod date;
pub mod error;
pub mod models;
pub mod settings;
pub mod store;

pub use error::Error;
