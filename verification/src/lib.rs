//! A phonetic-alphabet speller: language tables mapping graphemes to
//! phonetic words, a spelling engine that renders a word one user-perceived
//! character at a time, and a session that tracks the selected language.

pub mod assoc;
pub mod engine;
pub mod errors;
pub mod order;
pub mod session;
pub mod table;
pub mod text;
