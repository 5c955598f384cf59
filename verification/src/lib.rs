//! A server that drops files from one device to another over the local network.
//!
//! This crate holds what the server decides. Reading and writing files, talking
//! HTTP and asking the user is left to the program around it, which tells the
//! library what happened and does what the library answers.
//!
//! - [`upload`] receives the files of a form, [`naming`] names them, and
//!   [`progress`] says how far they have come.
//! - [`listing`] writes the page that lists the files, and [`size`] their sizes.
//! - [`thumbnail`] makes small pictures of images, [`scaling`] says how large they
//!   are, and [`thumb_request`] serves them.
//! - [`delete`] deletes files.
//! - [`setup`] finds the directory where files are kept, and [`server`] the address
//!   at which they are reached.
//! - [`error`] says how a request is answered that failed.
//! - [`path`] and [`text`] are what the others are written in, and [`outside`] is
//!   what they take from other crates.

pub mod delete;
pub mod error;
pub mod listing;
pub mod naming;
pub mod outside;
pub mod path;
pub mod progress;
pub mod scaling;
pub mod server;
pub mod setup;
pub mod size;
pub mod text;
pub mod thumb_request;
pub mod thumbnail;
pub mod upload;
