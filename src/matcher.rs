use vstd::prelude::*;

verus! {

/// The character that leaves a position of the correct-letters pattern open.
pub const PLACEHOLDER: char = '_';

/// A letter of the lowercase ASCII alphabet.
pub open spec fn is_lowercase_letter(c: char) -> bool {
    'a' <= c <= 'z'
}

/// Every character of `w` is a lowercase ASCII letter.
pub open spec fn all_lowercase(w: Seq<char>) -> bool {
    forall|i: int| 0 <= i < w.len() ==> is_lowercase_letter(#[trigger] w[i])
}

/// At each position that both share, `w` holds the letter the pattern fixes,
/// unless the pattern has the placeholder there.
pub open spec fn fits_pattern(pattern: Seq<char>, w: Seq<char>) -> bool {
    forall|i: int|
        0 <= i < pattern.len() && i < w.len() && #[trigger] pattern[i] != PLACEHOLDER ==> w[i]
            == pattern[i]
}

/// Each letter of `letters` occurs somewhere in `w`.
pub open spec fn contains_all(letters: Seq<char>, w: Seq<char>) -> bool {
    forall|i: int| 0 <= i < letters.len() ==> w.contains(#[trigger] letters[i])
}

/// Some letter of `w` is one of `letters`.
pub open spec fn contains_any(letters: Seq<char>, w: Seq<char>) -> bool {
    exists|i: int| 0 <= i < w.len() && letters.contains(#[trigger] w[i])
}

/// The candidate `w` passes all five checks against the clues.
pub open spec fn is_match(
    correct: Seq<char>,
    misplaced: Seq<char>,
    incorrect: Seq<char>,
    w: Seq<char>,
) -> bool {
    &&& w.len() == correct.len()
    &&& all_lowercase(w)
    &&& fits_pattern(correct, w)
    &&& contains_all(misplaced, w)
    &&& !contains_any(incorrect, w)
}

/// The candidates of `words` that match the clues, in the order they come in.
pub open spec fn matching_words(
    words: Seq<Seq<char>>,
    correct: Seq<char>,
    misplaced: Seq<char>,
    incorrect: Seq<char>,
) -> Seq<Seq<char>>
    decreases words.len(),
{
    if words.len() == 0 {
        Seq::empty()
    } else {
        let kept = matching_words(words.drop_last(), correct, misplaced, incorrect);
        if is_match(correct, misplaced, incorrect, words.last()) {
            kept.push(words.last())
        } else {
            kept
        }
    }
}

/// The character sequences of a list of strings.
pub open spec fn words_of(v: Seq<String>) -> Seq<Seq<char>> {
    v.map_values(|s: String| s@)
}

/// Whether `c` occurs in `s`.
fn contains_char(s: &str, c: char) -> (r: bool)
    ensures
        r == s@.contains(c),
{
    let n = s.unicode_len();
    let mut i: usize = 0;
    while i < n
        invariant
            n == s@.len(),
            i <= n,
            forall|j: int| 0 <= j < i ==> s@[j] != c,
        decreases n - i,
    {
        if s.get_char(i) == c {
            return true;
        }
        i = i + 1;
    }
    false
}

/// Whether `word` holds a character outside `a`..=`z`.
pub fn has_invalid_chars(word: &String) -> (r: bool)
    ensures
        r == !all_lowercase(word@),
{
    let w = word.as_str();
    let n = w.unicode_len();
    let mut i: usize = 0;
    while i < n
        invariant
            n == w@.len(),
            w@ == word@,
            i <= n,
            forall|j: int| 0 <= j < i ==> is_lowercase_letter(#[trigger] w@[j]),
        decreases n - i,
    {
        let c = w.get_char(i);
        if c < 'a' || c > 'z' {
            return true;
        }
        i = i + 1;
    }
    false
}

/// Whether `word` has the pattern's letter at every position where the
/// pattern is not the placeholder (over the positions that both share).
pub fn matches_correct_letters(correct_letters: &String, word: &String) -> (r: bool)
    ensures
        r == fits_pattern(correct_letters@, word@),
{
    let p = correct_letters.as_str();
    let w = word.as_str();
    let pn = p.unicode_len();
    let wn = w.unicode_len();
    let n = if pn < wn {
        pn
    } else {
        wn
    };
    let mut i: usize = 0;
    while i < n
        invariant
            pn == p@.len(),
            wn == w@.len(),
            p@ == correct_letters@,
            w@ == word@,
            n <= pn,
            n <= wn,
            n == pn || n == wn,
            i <= n,
            forall|j: int| 0 <= j < i && #[trigger] p@[j] != PLACEHOLDER ==> w@[j] == p@[j],
        decreases n - i,
    {
        let pc = p.get_char(i);
        if pc != PLACEHOLDER && w.get_char(i) != pc {
            return false;
        }
        i = i + 1;
    }
    true
}

/// Whether every letter of `misplaced_letters` occurs somewhere in `word`.
pub fn matches_misplaced_letters(misplaced_letters: &String, word: &String) -> (r: bool)
    ensures
        r == contains_all(misplaced_letters@, word@),
{
    let m = misplaced_letters.as_str();
    let n = m.unicode_len();
    let mut i: usize = 0;
    while i < n
        invariant
            n == m@.len(),
            m@ == misplaced_letters@,
            i <= n,
            forall|j: int| 0 <= j < i ==> word@.contains(#[trigger] m@[j]),
        decreases n - i,
    {
        if !contains_char(word.as_str(), m.get_char(i)) {
            return false;
        }
        i = i + 1;
    }
    true
}

/// Whether some letter of `word` is one of `incorrect_letters`.
pub fn matches_incorrect_letters(incorrect_letters: &String, word: &String) -> (r: bool)
    ensures
        r == contains_any(incorrect_letters@, word@),
{
    let w = word.as_str();
    let n = w.unicode_len();
    let mut i: usize = 0;
    while i < n
        invariant
            n == w@.len(),
            w@ == word@,
            i <= n,
            forall|j: int| 0 <= j < i ==> !incorrect_letters@.contains(#[trigger] w@[j]),
        decreases n - i,
    {
        if contains_char(incorrect_letters.as_str(), w.get_char(i)) {
            return true;
        }
        i = i + 1;
    }
    false
}

/// The words of `dictionary` that match all the clues, in dictionary order.
pub fn find_words(
    dictionary: &Vec<String>,
    correct_letters: &String,
    misplaced_letters: &String,
    incorrect_letters: &String,
) -> (r: Vec<String>)
    ensures
        words_of(r@) == matching_words(
            words_of(dictionary@),
            correct_letters@,
            misplaced_letters@,
            incorrect_letters@,
        ),
{
    let ghost words = words_of(dictionary@);
    let correct_count = correct_letters.as_str().unicode_len();
    let mut matches: Vec<String> = Vec::new();
    let mut i: usize = 0;
    while i < dictionary.len()
        invariant
            words == words_of(dictionary@),
            correct_count == correct_letters@.len(),
            i <= dictionary.len(),
            words_of(matches@) == matching_words(
                words.take(i as int),
                correct_letters@,
                misplaced_letters@,
                incorrect_letters@,
            ),
        decreases dictionary.len() - i,
    {
        let word = &dictionary[i];
        proof {
            assert(words.take(i + 1).drop_last() =~= words.take(i as int));
            assert(words.take(i + 1).last() == word@);
        }
        if word.as_str().unicode_len() == correct_count && !has_invalid_chars(word)
            && matches_correct_letters(correct_letters, word) && matches_misplaced_letters(
            misplaced_letters,
            word,
        ) && !matches_incorrect_letters(incorrect_letters, word) {
            let ghost before = matches@;
            matches.push(word.clone());
            proof {
                assert(words_of(matches@) =~= words_of(before).push(word@));
            }
        }
        i = i + 1;
    }
    proof {
        assert(words.take(dictionary.len() as int) =~= words);
    }
    matches
}

} // verus!
