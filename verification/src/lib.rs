//! Cloze flashcards embedded in Markdown notes: the grammar that finds them,
//! the rendering of their contents, and their reconciliation with the notes
//! that a flashcard store already holds.
//!
//! Text is a sequence of characters, and every position and length in a
//! text is counted in characters.

pub mod text;
pub mod error;
pub mod document;
pub mod grammar;
pub mod parser;
pub mod source;
pub mod render;
pub mod headings;
pub mod store;
pub mod cloze;
pub mod collect;
pub mod reconcile;
pub mod pipeline;
pub mod config;
pub mod traverse;
