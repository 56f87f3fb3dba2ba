//! Resolution of the references that a document lists in its include section.
//!
//! A document names other documents in a section of its own: the lines from
//! the one that begins with `include:` up to the one that begins with
//! `steps:`. Each line of the section that is written as two spaces, a dash
//! and a blank refers to a module, and each module is looked for at a path
//! beside the document.
//!
//! * [`text`] cuts a text into lines and searches sequences of characters.
//! * [`grammar`] reads one line of the section and names the module that a
//!   reference stands for.
//! * [`scanner`] scans a whole document into a [`mapping`] from lines to
//!   candidate paths.
//! * [`index`] keeps the latest mapping of every document seen.
//! * [`diagnostics`] reports the references whose candidate path is missing.
//! * [`definition`] finds the file to open for a reference.
//! * [`dispatch`] decides what the server does about each message of the
//!   editor and each answer of the file system.
//! * [`paths`] and [`uris`] hold what is taken on trust of paths and of
//!   URLs; [`table`] holds the lemmas on tables that are kept as listings.
//!
//! Nothing here reads a file or a socket. The caller asks the file system
//! and hands the answers in.

pub mod definition;
pub mod diagnostics;
pub mod dispatch;
pub mod grammar;
pub mod index;
pub mod mapping;
pub mod paths;
pub mod scanner;
pub mod table;
pub mod text;
pub mod uris;
