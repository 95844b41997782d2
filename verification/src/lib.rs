//! Core model of a tabbed plain-text editor.
//!
//! A [`page::Page`] is one open document: a text buffer, an optional backing
//! file, and a "changed" flag. A [`win::Window`] owns an ordered collection of
//! pages shown as tabs, and [`win::Windows`] is the registry of live windows,
//! used to answer "is this file already open somewhere". All decisions —
//! loading, saving, save-as conflicts, unsaved-change confirmation, and the
//! window-close loop — are made here over plain values; the surrounding user
//! interface performs the file reads and writes and runs the dialogs, and
//! hands their outcomes back in as arguments.

pub mod label;
pub mod page;
pub mod utf8;
pub mod win;
