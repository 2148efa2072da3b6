//! A JSON API over the tables of a database file.
//!
//! A request path is read as a route ([`route`]), the route is answered from the database
//! ([`service`]), and the answer becomes a response ([`response`]) or a reply ([`reply`]).
//!
//! A database is a file in memory. [`file`](mod@file) says what its bytes mean, [`fdb`] reads it,
//! [`tables`] finds tables and rows in it, and [`rows`] turns rows into objects. A file may be
//! damaged: what cannot be read without leaving the file is found out by [`damage`] before it is
//! looked at.
//!
//! [`laws`] states what holds of all this together.
pub mod damage;
pub mod fdb;
pub mod file;
pub mod json;
pub mod laws;
pub mod path;
pub mod percent;
pub mod reply;
pub mod response;
pub mod route;
pub mod rows;
pub mod service;
pub mod tables;
pub mod value;
