use vstd::prelude::*;

verus! {

/// Why a set of clues cannot be used for matching.
#[derive(Debug, Clone, Copy, PartialEq, Eq, Structural)]
pub enum ConstraintError {
    /// The correct-letters pattern is empty.
    NoCorrectLetters,
    /// The misplaced letters outnumber the positions of the pattern.
    TooManyMisplacedLetters,
}

/// Checks the clues before any word is looked at: the pattern must not be
/// empty, and there cannot be more misplaced letters than positions.
pub fn validate_constraints(correct_letters: &String, misplaced_letters: &String) -> (r: Result<
    (),
    ConstraintError,
>)
    ensures
        correct_letters@.len() == 0 ==> r == Err::<(), ConstraintError>(
            ConstraintError::NoCorrectLetters,
        ),
        correct_letters@.len() > 0 && misplaced_letters@.len() > correct_letters@.len() ==> r
            == Err::<(), ConstraintError>(ConstraintError::TooManyMisplacedLetters),
        r is Ok <==> (correct_letters@.len() > 0 && misplaced_letters@.len()
            <= correct_letters@.len()),
{
    let correct_count = correct_letters.as_str().unicode_len();
    let misplaced_count = misplaced_letters.as_str().unicode_len();
    if correct_count == 0 {
        Err(ConstraintError::NoCorrectLetters)
    } else if misplaced_count > correct_count {
        Err(ConstraintError::TooManyMisplacedLetters)
    } else {
        Ok(())
    }
}

} // verus!
