use vstd::prelude::*;
use crate::text::{is_space, is_space_char, contains_seq, contains_subseq, copy_range};
use crate::levenshtein::{edit_distance, levenshtein_distance, lemma_edit_distance_length_difference};

verus! {

/// `t[i..j]` is a maximal run of non-space characters: a word of the text.
pub open spec fn is_word_at(t: Seq<char>, i: int, j: int) -> bool {
    &&& 0 <= i < j <= t.len()
    &&& forall|k: int| i <= k < j ==> !is_space_char(#[trigger] t[k])
    &&& (i == 0 || is_space_char(t[i - 1]))
    &&& (j == t.len() || is_space_char(t[j]))
}

/// Some word of the text, at least two characters long, lies within edit
/// distance one of the activation phrase.
pub open spec fn word_matches(t: Seq<char>, w: Seq<char>) -> bool {
    exists|i: int, j: int|
        is_word_at(t, i, j) && j - i >= 2 && edit_distance(t.subrange(i, j), w) <= 1
}

/// The text contains one of the known phonetic confusions of the default
/// activation phrase.
pub open spec fn confusable_match(t: Seq<char>) -> bool {
    ||| contains_seq(t, seq!['y', 'o'])
    ||| contains_seq(t, seq!['y', 'o', 'o'])
    ||| contains_seq(t, seq!['y', 'o', 'u'])
    ||| contains_seq(t, seq!['y', 'e', 'a', 'h'])
}

/// The three-tier wake-word decision on lowercased text `t` against the
/// lowercased activation phrase `w`: exact containment, else a word within
/// edit distance one, else a known confusable.
pub open spec fn wake_match(t: Seq<char>, w: Seq<char>) -> bool {
    ||| contains_seq(t, w)
    ||| word_matches(t, w)
    ||| confusable_match(t)
}

/// End of the word starting at `start`: the first white-space position at
/// or after it, or the end of the text.
fn word_end(t: &Vec<char>, start: usize) -> (end: usize)
    requires
        start <= t@.len(),
    ensures
        start <= end <= t@.len(),
        forall|k: int| start <= k < end ==> !is_space_char(#[trigger] t@[k]),
        end == t@.len() || is_space_char(t@[end as int]),
{
    let mut end: usize = start;
    while end < t.len()
        invariant
            start <= end <= t@.len(),
            forall|k: int| start <= k < end ==> !is_space_char(#[trigger] t@[k]),
        decreases t@.len() - end,
    {
        if is_space(t[end]) {
            return end;
        }
        end = end + 1;
    }
    end
}

/// Whether some word of the text of length at least two lies within edit
/// distance one of the activation phrase.
fn scan_words(t: &Vec<char>, w: &Vec<char>) -> (r: bool)
    requires
        1 <= w@.len() <= usize::MAX - 2,
    ensures
        r == word_matches(t@, w@),
{
    let n: usize = t.len();
    let alen: usize = w.len();
    let mut i: usize = 0;
    while i < n
        invariant
            i <= n == t@.len(),
            1 <= alen == w@.len() <= usize::MAX - 2,
            i == 0 || i >= n || is_space_char(t@[i - 1]) || is_space_char(t@[i as int]),
            forall|a: int, b: int|
                is_word_at(t@, a, b) && a < i ==> !(b - a >= 2 && edit_distance(
                    t@.subrange(a, b),
                    w@,
                ) <= 1),
        decreases n - i,
    {
        if is_space(t[i]) {
            proof {
                assert forall|a: int, b: int|
                    is_word_at(t@, a, b) && a < i + 1 implies !(b - a >= 2 && edit_distance(
                        t@.subrange(a, b),
                        w@,
                    ) <= 1) by {
                    if a == i {
                        assert(is_space_char(t@[a]));
                        assert(!is_word_at(t@, a, b));
                    }
                }
            }
            i = i + 1;
        } else {
            let start: usize = i;
            let end: usize = word_end(t, start);
            assert(end > start);
            let ghost word = t@.subrange(start as int, end as int);
            proof {
                assert(is_word_at(t@, start as int, end as int));
            }
            let wlen: usize = end - start;
            let mut hit: bool = false;
            if wlen >= 2 {
                let close: bool = if wlen > alen {
                    wlen - alen <= 1
                } else {
                    alen - wlen <= 1
                };
                if close {
                    let piece = copy_range(t, start, end);
                    let d: usize = levenshtein_distance(&piece, w);
                    if d <= 1 {
                        hit = true;
                    }
                } else {
                    proof {
                        lemma_edit_distance_length_difference(word, w@);
                    }
                }
            }
            if hit {
                proof {
                    assert(is_word_at(t@, start as int, end as int) && end - start >= 2
                        && edit_distance(t@.subrange(start as int, end as int), w@) <= 1);
                }
                return true;
            }
            proof {
                assert forall|a: int, b: int|
                    is_word_at(t@, a, b) && a < end implies !(b - a >= 2 && edit_distance(
                        t@.subrange(a, b),
                        w@,
                    ) <= 1) by {
                    if start as int <= a && a < end {
                        if a > start as int {
                            assert(!is_space_char(t@[a - 1]));
                            assert(!is_word_at(t@, a, b));
                        } else {
                            if is_word_at(t@, a, b) {
                                if b < end {
                                    assert(b < t@.len() && !is_space_char(t@[b as int]));
                                    assert(!is_word_at(t@, a, b));
                                } else if b > end {
                                    assert(end < t@.len() ==> is_space_char(t@[end as int]));
                                    assert(b <= t@.len());
                                    assert(end < b ==> end < t@.len());
                                    assert(!is_word_at(t@, a, b));
                                } else {
                                    assert(t@.subrange(a, b) == word);
                                }
                            }
                        }
                    }
                }
            }
            i = end;
        }
    }
    proof {
        assert forall|a: int, b: int| is_word_at(t@, a, b) implies !(b - a >= 2 && edit_distance(
            t@.subrange(a, b),
            w@,
        ) <= 1) by {
            assert(a < n);
        }
    }
    false
}

/// The full three-tier wake-word decision over character buffers: exact
/// containment of the activation phrase, then near-exact word matching,
/// then the known confusable tokens.
pub(crate) fn matches_in_chars(t: &Vec<char>, w: &Vec<char>) -> (r: bool)
    requires
        1 <= w@.len() <= usize::MAX - 2,
    ensures
        r == wake_match(t@, w@),
{
    if contains_subseq(t, w) {
        return true;
    }
    if scan_words(t, w) {
        return true;
    }
    let mut p1: Vec<char> = Vec::new();
    p1.push('y');
    p1.push('o');
    let mut p2: Vec<char> = Vec::new();
    p2.push('y');
    p2.push('o');
    p2.push('o');
    let mut p3: Vec<char> = Vec::new();
    p3.push('y');
    p3.push('o');
    p3.push('u');
    let mut p4: Vec<char> = Vec::new();
    p4.push('y');
    p4.push('e');
    p4.push('a');
    p4.push('h');
    proof {
        assert(p1@ =~= seq!['y', 'o']);
        assert(p2@ =~= seq!['y', 'o', 'o']);
        assert(p3@ =~= seq!['y', 'o', 'u']);
        assert(p4@ =~= seq!['y', 'e', 'a', 'h']);
    }
    contains_subseq(t, &p1) || contains_subseq(t, &p2) || contains_subseq(t, &p3)
        || contains_subseq(t, &p4)
}

} // verus!
