//! Note storage rules for a directory of Markdown notes.
//!
//! A note is a title and a text. It is kept as one file, named by the title
//! followed by `.md`, directly inside the store's directory. This library
//! holds the rules of that layout: how a title names a file, which entries
//! of a directory are notes, in what order notes are listed, and what each
//! operation answers for each outcome of the file system calls made for it.
//! It performs no file system access itself.

pub mod listing;
pub mod location;
pub mod model;
pub mod names;
pub mod order;
pub mod saving;
