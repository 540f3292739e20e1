use vstd::prelude::*;

use crate::matcher::{all_lowercase, is_match, matching_words, PLACEHOLDER};

verus! {

/// `kept` is drawn from `words` at the strictly increasing positions `idx`.
pub open spec fn picked_in_order(kept: Seq<Seq<char>>, words: Seq<Seq<char>>, idx: Seq<int>) -> bool {
    &&& idx.len() == kept.len()
    &&& forall|k: int| 0 <= k < idx.len() ==> 0 <= #[trigger] idx[k] < words.len()
    &&& forall|k: int| 0 <= k < idx.len() ==> kept[k] == words[#[trigger] idx[k]]
    &&& forall|k: int, l: int| 0 <= k < l < idx.len() ==> #[trigger] idx[k] < #[trigger] idx[l]
}

/// Every matching word is a candidate that passes all the checks.
pub proof fn lemma_matches_pass_checks(
    words: Seq<Seq<char>>,
    correct: Seq<char>,
    misplaced: Seq<char>,
    incorrect: Seq<char>,
)
    ensures
        forall|k: int|
            0 <= k < matching_words(words, correct, misplaced, incorrect).len() ==> is_match(
                correct,
                misplaced,
                incorrect,
                #[trigger] matching_words(words, correct, misplaced, incorrect)[k],
            ),
        forall|w: Seq<char>| #[trigger]
            matching_words(words, correct, misplaced, incorrect).contains(w) ==> words.contains(w)
                && is_match(correct, misplaced, incorrect, w),
    decreases words.len(),
{
    if words.len() > 0 {
        lemma_matches_pass_checks(words.drop_last(), correct, misplaced, incorrect);
        let kept = matching_words(words.drop_last(), correct, misplaced, incorrect);
        assert forall|w: Seq<char>| #[trigger] kept.contains(w) implies words.contains(w) by {
            let j = choose|j: int| 0 <= j < kept.len() && kept[j] == w;
            assert(kept.contains(kept[j]));
            let m = choose|m: int| 0 <= m < words.drop_last().len() && words.drop_last()[m] == w;
            assert(words[m] == w);
        }
        assert(words[words.len() - 1] == words.last());
        let all = matching_words(words, correct, misplaced, incorrect);
        assert forall|w: Seq<char>| #[trigger] all.contains(w) implies words.contains(w) && is_match(
            correct,
            misplaced,
            incorrect,
            w,
        ) by {
            let j = choose|j: int| 0 <= j < all.len() && all[j] == w;
            if j < kept.len() {
                assert(kept[j] == w);
                assert(kept.contains(w));
            }
        }
    }
}

/// Length invariant: every word returned has exactly the pattern's length.
pub proof fn lemma_matches_have_pattern_length(
    words: Seq<Seq<char>>,
    correct: Seq<char>,
    misplaced: Seq<char>,
    incorrect: Seq<char>,
)
    ensures
        forall|k: int|
            0 <= k < matching_words(words, correct, misplaced, incorrect).len() ==> (
            #[trigger] matching_words(words, correct, misplaced, incorrect)[k]).len()
                == correct.len(),
{
    lemma_matches_pass_checks(words, correct, misplaced, incorrect);
}

/// A word holding any character outside `a`..=`z` is never returned, whatever
/// the clues are.
pub proof fn lemma_invalid_words_excluded(
    words: Seq<Seq<char>>,
    correct: Seq<char>,
    misplaced: Seq<char>,
    incorrect: Seq<char>,
    w: Seq<char>,
)
    requires
        exists|i: int| 0 <= i < w.len() && !('a' <= #[trigger] w[i] <= 'z'),
    ensures
        !matching_words(words, correct, misplaced, incorrect).contains(w),
{
    lemma_matches_pass_checks(words, correct, misplaced, incorrect);
    assert(!all_lowercase(w));
}

/// With a pattern made only of placeholders and no other clue, the result is
/// exactly the candidates of the pattern's length made only of `a`..=`z`.
pub proof fn lemma_open_pattern_keeps_plain_words(words: Seq<Seq<char>>, correct: Seq<char>)
    requires
        forall|i: int| 0 <= i < correct.len() ==> #[trigger] correct[i] == PLACEHOLDER,
    ensures
        matching_words(words, correct, Seq::empty(), Seq::empty()) == words.filter(
            |w: Seq<char>| w.len() == correct.len() && all_lowercase(w),
        ),
    decreases words.len(),
{
    let plain = |w: Seq<char>| w.len() == correct.len() && all_lowercase(w);
    reveal(Seq::filter);
    if words.len() > 0 {
        lemma_open_pattern_keeps_plain_words(words.drop_last(), correct);
        let w = words.last();
        assert(is_match(correct, Seq::empty(), Seq::empty(), w) == plain(w));
    }
}

/// Order preservation: the result is a subsequence of the candidates, each
/// word taken from a later position than the one before it, with no word
/// repeated, reordered or added.
pub proof fn lemma_matches_keep_order(
    words: Seq<Seq<char>>,
    correct: Seq<char>,
    misplaced: Seq<char>,
    incorrect: Seq<char>,
)
    ensures
        exists|idx: Seq<int>|
            picked_in_order(matching_words(words, correct, misplaced, incorrect), words, idx),
    decreases words.len(),
{
    let kept = matching_words(words, correct, misplaced, incorrect);
    if words.len() == 0 {
        assert(picked_in_order(kept, words, Seq::empty()));
    } else {
        let rest = words.drop_last();
        lemma_matches_keep_order(rest, correct, misplaced, incorrect);
        let prev = matching_words(rest, correct, misplaced, incorrect);
        let idx = choose|idx: Seq<int>| picked_in_order(prev, rest, idx);
        if is_match(correct, misplaced, incorrect, words.last()) {
            let idx2 = idx.push(words.len() - 1);
            assert forall|k: int| 0 <= k < idx2.len() implies kept[k] == words[#[trigger] idx2[k]] by {
                if k < idx.len() {
                    assert(idx2[k] == idx[k]);
                    assert(rest[idx[k]] == words[idx[k]]);
                }
            }
            assert forall|k: int, l: int| 0 <= k < l < idx2.len() implies #[trigger] idx2[k]
                < #[trigger] idx2[l] by {
                assert(idx2[k] == idx[k]);
                if l < idx.len() {
                    assert(idx2[l] == idx[l]);
                }
            }
            assert(picked_in_order(kept, words, idx2));
        } else {
            assert forall|k: int| 0 <= k < idx.len() implies kept[k] == words[#[trigger] idx[k]] by {
                assert(rest[idx[k]] == words[idx[k]]);
            }
            assert(picked_in_order(kept, words, idx));
        }
    }
}

/// Idempotence: two runs on the same candidates and clues give the same
/// words, and running the matcher again on its own output changes nothing.
pub proof fn lemma_matching_is_idempotent(
    words: Seq<Seq<char>>,
    correct: Seq<char>,
    misplaced: Seq<char>,
    incorrect: Seq<char>,
    first: Seq<Seq<char>>,
    second: Seq<Seq<char>>,
)
    requires
        first == matching_words(words, correct, misplaced, incorrect),
        second == matching_words(words, correct, misplaced, incorrect),
    ensures
        first == second,
        matching_words(first, correct, misplaced, incorrect) == first,
    decreases words.len(),
{
    if words.len() > 0 {
        let rest = words.drop_last();
        let prev = matching_words(rest, correct, misplaced, incorrect);
        lemma_matching_is_idempotent(rest, correct, misplaced, incorrect, prev, prev);
        lemma_matches_pass_checks(rest, correct, misplaced, incorrect);
        if is_match(correct, misplaced, incorrect, words.last()) {
            assert(first.drop_last() =~= prev);
        }
    }
}

} // verus!
