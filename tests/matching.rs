use wordle_solver::{
    find_words, has_invalid_chars, matches_correct_letters, matches_incorrect_letters,
    matches_misplaced_letters, validate_constraints, ConstraintError,
};

fn words(list: &[&str]) -> Vec<String> {
    list.iter().map(|w| w.to_string()).collect()
}

fn run(correct: &str, misplaced: &str, incorrect: &str, candidates: &[&str]) -> Vec<String> {
    find_words(
        &words(candidates),
        &correct.to_string(),
        &misplaced.to_string(),
        &incorrect.to_string(),
    )
}

#[test]
fn scenario_fixed_first_and_last_letters() {
    assert_eq!(
        run("c_t", "", "", &["cat", "cut", "cot", "dog"]),
        words(&["cat", "cut", "cot"])
    );
}

#[test]
fn scenario_misplaced_letter_required() {
    assert_eq!(
        run("_____", "e", "", &["apple", "grape", "mango"]),
        words(&["apple", "grape"])
    );
}

#[test]
fn scenario_incorrect_letter_excluded() {
    assert_eq!(
        run("_a___", "", "z", &["zebra", "camel", "panic"]),
        words(&["camel", "panic"])
    );
}

#[test]
fn scenario_too_many_misplaced_letters() {
    assert_eq!(
        validate_constraints(&"ab".to_string(), &"abc".to_string()),
        Err(ConstraintError::TooManyMisplacedLetters)
    );
}

#[test]
fn misplaced_as_long_as_pattern_is_accepted() {
    assert_eq!(
        validate_constraints(&"abc".to_string(), &"xyz".to_string()),
        Ok(())
    );
    assert_eq!(
        validate_constraints(&"_____".to_string(), &"".to_string()),
        Ok(())
    );
}

#[test]
fn empty_pattern_is_rejected() {
    assert_eq!(
        validate_constraints(&"".to_string(), &"".to_string()),
        Err(ConstraintError::NoCorrectLetters)
    );
    assert_eq!(
        validate_constraints(&"".to_string(), &"a".to_string()),
        Err(ConstraintError::NoCorrectLetters)
    );
}

#[test]
fn every_match_has_pattern_length() {
    let result = run("__", "", "", &["a", "ab", "abc", "cd", "", "xyz"]);
    assert_eq!(result, words(&["ab", "cd"]));
    assert!(result.iter().all(|w| w.chars().count() == 2));
}

#[test]
fn open_pattern_keeps_plain_words_of_its_length() {
    assert_eq!(
        run(
            "___",
            "",
            "",
            &["cat", "Cat", "ca't", "c4t", "dogs", "do", "owl", "é", "éte"]
        ),
        words(&["cat", "owl"])
    );
}

#[test]
fn result_keeps_input_order_and_duplicates() {
    assert_eq!(
        run("__", "", "", &["zz", "aa", "mm", "aa", "Q1"]),
        words(&["zz", "aa", "mm", "aa"])
    );
}

#[test]
fn repeated_runs_agree() {
    let candidates = ["crane", "slate", "trace", "crate", "react"];
    let first = run("_r___", "e", "s", &candidates);
    let second = run("_r___", "e", "s", &candidates);
    assert_eq!(first, second);
    assert_eq!(first, words(&["crane", "trace", "crate"]));
    let again: Vec<&str> = first.iter().map(|w| w.as_str()).collect();
    assert_eq!(run("_r___", "e", "s", &again), first);
}

#[test]
fn invalid_characters_reject_an_otherwise_matching_word() {
    assert_eq!(
        run("c__'s", "", "", &["cat's", "cats"]),
        Vec::<String>::new()
    );
    assert_eq!(run("_at", "", "", &["Cat", "c4t", "cat"]), words(&["cat"]));
}

#[test]
fn misplaced_letter_may_sit_in_a_fixed_position() {
    assert_eq!(run("c__", "c", "", &["cat", "act"]), words(&["cat"]));
}

#[test]
fn repeated_misplaced_letters_need_one_occurrence() {
    assert_eq!(run("___", "ee", "", &["bee", "bed", "cat"]), words(&["bee", "bed"]));
}

#[test]
fn incorrect_duplicates_collapse() {
    assert_eq!(
        run("___", "", "zzq", &["zoo", "cat", "qua"]),
        words(&["cat"])
    );
}

#[test]
fn empty_dictionary_gives_no_words() {
    assert_eq!(run("_____", "", "", &[]), Vec::<String>::new());
}

#[test]
fn invalid_chars_detection() {
    assert!(!has_invalid_chars(&"hello".to_string()));
    assert!(!has_invalid_chars(&"".to_string()));
    assert!(has_invalid_chars(&"Hello".to_string()));
    assert!(has_invalid_chars(&"don't".to_string()));
    assert!(has_invalid_chars(&"abc1".to_string()));
    assert!(has_invalid_chars(&"café".to_string()));
    assert!(has_invalid_chars(&"a{".to_string()));
    assert!(has_invalid_chars(&"`a".to_string()));
}

#[test]
fn correct_letters_detection() {
    assert!(matches_correct_letters(&"c_t".to_string(), &"cat".to_string()));
    assert!(matches_correct_letters(&"___".to_string(), &"xyz".to_string()));
    assert!(!matches_correct_letters(&"c_t".to_string(), &"cab".to_string()));
    assert!(!matches_correct_letters(&"c_t".to_string(), &"bat".to_string()));
    assert!(matches_correct_letters(&"ab".to_string(), &"abc".to_string()));
}

#[test]
fn misplaced_letters_detection() {
    assert!(matches_misplaced_letters(&"".to_string(), &"cat".to_string()));
    assert!(matches_misplaced_letters(&"ta".to_string(), &"cat".to_string()));
    assert!(!matches_misplaced_letters(&"tz".to_string(), &"cat".to_string()));
}

#[test]
fn incorrect_letters_detection() {
    assert!(!matches_incorrect_letters(&"".to_string(), &"cat".to_string()));
    assert!(matches_incorrect_letters(&"xt".to_string(), &"cat".to_string()));
    assert!(!matches_incorrect_letters(&"xyz".to_string(), &"cat".to_string()));
}
