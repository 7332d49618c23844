//! A word-guessing aid: a list of words of one fixed length, and the rules
//! (letters that occur, letters that do not, letters known at a position)
//! by which that list is narrowed down.

pub mod dictionary;
pub mod error;
pub mod input;
pub mod laws;
pub mod letters;
pub mod rules;
pub mod words;

pub use dictionary::Dictionary;
pub use dictionary::SetType;
pub use error::Error;
pub use error::ErrorKind;
