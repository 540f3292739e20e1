//! Filtering of a word list against the three kinds of clue that a
//! Wordle-style game gives: letters known at fixed positions, letters known
//! to be present somewhere, and letters known to be absent.

pub mod constraints;
pub mod laws;
pub mod matcher;

pub use constraints::{validate_constraints, ConstraintError};

pub use matcher::{
    find_words, has_invalid_chars, matches_correct_letters, matches_incorrect_letters,
    matches_misplaced_letters,
};
