//! Kondo organises the files of a directory: by the category of their
//! extension, by the patterns of their names, or by clustering them on the shape
//! of their names and on what the text files among them say.
//!
//! This library holds the decisions, over plain values, each with its contract:
//! which folder a file goes to, what the features of a file are, which cluster a
//! file joins and when clustering stops, which clusters are kept, what a group
//! is called and under which name a file is stored. Reading directories and
//! files, moving files, and all arithmetic in floating point are left to the
//! caller: where the library needs a number that is not whole, it gives an exact
//! fraction.
//!
//! Text is handled as sequences of characters. What Unicode tables and the
//! `regex` crate decide is called, not restated: see `chars` and `matching`.

pub mod categorise;
pub mod chars;
pub mod config;
pub mod features;
pub mod filename;
pub mod intelligent;
pub mod kmeans;
pub mod lines;
pub mod matching;
pub mod mover;
pub mod names;
pub mod naming;
pub mod ranking;
pub mod session;
pub mod tfidf;
pub mod words;
