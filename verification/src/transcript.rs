use vstd::prelude::*;
use crate::strings::{chars_of, string_from_chars};
use crate::text::{copy_range, match_at, trim_chars, trimmed};

verus! {

/// The marker the transcriber emits for non-speech noise.
pub open spec fn noise_marker() -> Seq<char> {
    seq!['[', 'n', 'o', 'i', 's', 'e', ']']
}

/// The marker the transcriber emits for silence.
pub open spec fn silence_marker() -> Seq<char> {
    seq!['[', 's', 'i', 'l', 'e', 'n', 'c', 'e', ']']
}

/// The text with every occurrence of the marker removed, scanning left to
/// right over non-overlapping occurrences.
pub open spec fn stripped(s: Seq<char>, p: Seq<char>) -> Seq<char>
    decreases s.len(),
{
    if p.len() == 0 || s.len() < p.len() {
        s
    } else if s.take(p.len() as int) == p {
        stripped(s.skip(p.len() as int), p)
    } else {
        seq![s[0]] + stripped(s.skip(1), p)
    }
}

/// One transcriber segment after cleaning: both markers removed, then
/// white space trimmed from the ends.
pub open spec fn cleaned_segment(s: Seq<char>) -> Seq<char> {
    trimmed(stripped(stripped(s, noise_marker()), silence_marker()))
}

/// The transcript the segments join into: each cleaned segment that is
/// non-empty, in order, each followed by one space.
pub open spec fn joined(segs: Seq<Seq<char>>) -> Seq<char>
    decreases segs.len(),
{
    if segs.len() == 0 {
        Seq::empty()
    } else {
        let piece = cleaned_segment(segs.last());
        joined(segs.drop_last()) + if piece.len() > 0 {
            piece + seq![' ']
        } else {
            Seq::empty()
        }
    }
}

/// The finished transcript: the joined segments with the ends trimmed.
pub open spec fn transcript_of(segs: Seq<Seq<char>>) -> Seq<char> {
    trimmed(joined(segs))
}

/// The text with every occurrence of the pattern removed.
fn strip_all(t: &Vec<char>, p: &Vec<char>) -> (r: Vec<char>)
    requires
        p@.len() >= 1,
    ensures
        r@ == stripped(t@, p@),
{
    let n: usize = t.len();
    let m: usize = p.len();
    let mut out: Vec<char> = Vec::new();
    let mut i: usize = 0;
    proof {
        assert(t@.skip(0) =~= t@);
        assert(out@ + stripped(t@, p@) =~= stripped(t@, p@));
    }
    while i < n
        invariant
            i <= n == t@.len(),
            1 <= m == p@.len(),
            stripped(t@, p@) == out@ + stripped(t@.skip(i as int), p@),
        decreases n - i,
    {
        let ghost rest = t@.skip(i as int);
        if m <= n - i && match_at(t, p, i) {
            proof {
                assert(rest.take(m as int) =~= t@.subrange(i as int, i + m as int));
                assert(rest.skip(m as int) =~= t@.skip(i + m));
            }
            i = i + m;
        } else {
            proof {
                if i + m <= n as int {
                    assert(rest.take(m as int) =~= t@.subrange(i as int, i + m as int));
                }
                assert(rest.skip(1) =~= t@.skip(i + 1));
                assert(stripped(rest, p@) == seq![rest[0]] + stripped(t@.skip(i + 1), p@));
                assert(out@ + stripped(rest, p@) =~= out@.push(t@[i as int]) + stripped(
                    t@.skip(i + 1),
                    p@,
                ));
            }
            out.push(t[i]);
            i = i + 1;
        }
    }
    proof {
        assert(t@.skip(n as int) =~= Seq::<char>::empty());
        assert(out@ + Seq::<char>::empty() =~= out@);
    }
    out
}

/// One transcriber segment cleaned: noise and silence markers removed,
/// white space trimmed from the ends.
pub fn clean_segment(segment: &str) -> (r: String)
    ensures
        r@ == cleaned_segment(segment@),
{
    let t = chars_of(segment);
    let mut noise: Vec<char> = Vec::new();
    noise.push('[');
    noise.push('n');
    noise.push('o');
    noise.push('i');
    noise.push('s');
    noise.push('e');
    noise.push(']');
    let mut silence: Vec<char> = Vec::new();
    silence.push('[');
    silence.push('s');
    silence.push('i');
    silence.push('l');
    silence.push('e');
    silence.push('n');
    silence.push('c');
    silence.push('e');
    silence.push(']');
    proof {
        assert(noise@ =~= noise_marker());
        assert(silence@ =~= silence_marker());
    }
    let step1 = strip_all(&t, &noise);
    let step2 = strip_all(&step1, &silence);
    let out = trim_chars(&step2);
    string_from_chars(&out)
}

/// The transcript assembled from the transcriber's segments: each segment
/// is cleaned, non-empty ones are joined in order with single spaces, and
/// the ends are trimmed.
pub fn clean_transcript(segments: &Vec<String>) -> (r: String)
    ensures
        r@ == transcript_of(segments@.map_values(|s: String| s@)),
{
    let ghost segs = segments@.map_values(|s: String| s@);
    let mut out: Vec<char> = Vec::new();
    let mut i: usize = 0;
    while i < segments.len()
        invariant
            i <= segments@.len(),
            segs == segments@.map_values(|s: String| s@),
            out@ == joined(segs.take(i as int)),
        decreases segments@.len() - i,
    {
        let piece = clean_segment(segments[i].as_str());
        let pc = chars_of(piece.as_str());
        proof {
            assert(segs.take(i + 1).drop_last() =~= segs.take(i as int));
            assert(segs.take(i + 1).last() == segs[i as int]);
        }
        if pc.len() > 0 {
            let mut k: usize = 0;
            let ghost base = out@;
            while k < pc.len()
                invariant
                    k <= pc@.len(),
                    out@ == base + pc@.take(k as int),
                decreases pc@.len() - k,
            {
                out.push(pc[k]);
                proof {
                    assert(base + pc@.take(k + 1) =~= (base + pc@.take(k as int)).push(
                        pc@[k as int],
                    ));
                }
                k = k + 1;
            }
            out.push(' ');
            proof {
                assert(pc@.take(pc@.len() as int) =~= pc@);
                assert(out@ =~= joined(segs.take(i as int)) + (pc@ + seq![' ']));
            }
        } else {
            proof {
                assert(out@ =~= joined(segs.take(i as int)) + Seq::<char>::empty());
            }
        }
        i = i + 1;
    }
    proof {
        assert(segs.take(segments@.len() as int) =~= segs);
    }
    let final_chars = trim_chars(&out);
    string_from_chars(&final_chars)
}

/// A sentence-ending character, where replies are cut into utterances.
pub open spec fn is_sentence_end(c: char) -> bool {
    c == '.' || c == '?' || c == '!'
}

/// Index of the first sentence-ending character, or the length if none.
pub open spec fn first_sentence_end(t: Seq<char>) -> int
    decreases t.len(),
{
    if t.len() == 0 {
        0
    } else if is_sentence_end(t.first()) {
        0
    } else {
        1 + first_sentence_end(t.drop_first())
    }
}

/// The first split index never runs past the end of the text.
pub proof fn lemma_first_sentence_end_range(t: Seq<char>)
    ensures
        0 <= first_sentence_end(t) <= t.len(),
    decreases t.len(),
{
    if t.len() > 0 && !is_sentence_end(t.first()) {
        lemma_first_sentence_end_range(t.drop_first());
    }
}

/// The utterance chunks of a reply: the text split at sentence-ending
/// punctuation, each piece trimmed, empty pieces skipped, order kept.
pub open spec fn utterances_of(t: Seq<char>) -> Seq<Seq<char>>
    decreases t.len() via utterances_of_decreases
{
    let d = first_sentence_end(t);
    if d == t.len() {
        if trimmed(t).len() > 0 {
            seq![trimmed(t)]
        } else {
            Seq::empty()
        }
    } else {
        let head = trimmed(t.take(d));
        let rest = utterances_of(t.skip(d + 1));
        if head.len() > 0 {
            seq![head] + rest
        } else {
            rest
        }
    }
}

#[via_fn]
proof fn utterances_of_decreases(t: Seq<char>) {
    lemma_first_sentence_end_range(t);
}

/// A stretch without sentence-ending characters, ended by one (or by the
/// end of the text), pins down where the first split falls.
proof fn lemma_first_sentence_end(t: Seq<char>, d: int)
    requires
        0 <= d <= t.len(),
        forall|k: int| 0 <= k < d ==> !is_sentence_end(#[trigger] t[k]),
        d == t.len() || is_sentence_end(t[d]),
    ensures
        first_sentence_end(t) == d,
    decreases d,
{
    if d == 0 {
        if t.len() > 0 {
            assert(is_sentence_end(t.first()));
        }
    } else {
        assert(!is_sentence_end(t.first()));
        assert(t.drop_first() =~= t.skip(1));
        lemma_first_sentence_end(t.skip(1), d - 1);
    }
}

/// Whether one character ends a sentence.
fn is_sentence_end_char(c: char) -> (r: bool)
    ensures
        r == is_sentence_end(c),
{
    c == '.' || c == '?' || c == '!'
}

/// The reply split into utterance chunks for speech output: pieces between
/// sentence-ending punctuation, trimmed, with empty pieces skipped.
pub fn split_utterances(text: &str) -> (r: Vec<String>)
    ensures
        r@.map_values(|s: String| s@) == utterances_of(text@),
{
    let t = chars_of(text);
    let n: usize = t.len();
    let mut out: Vec<String> = Vec::new();
    let mut seg_start: usize = 0;
    let mut i: usize = 0;
    proof {
        assert(t@.skip(0) =~= t@);
        assert(out@.map_values(|s: String| s@) + utterances_of(t@) =~= utterances_of(t@));
    }
    while i < n
        invariant
            seg_start <= i <= n == t@.len(),
            forall|k: int| seg_start <= k < i ==> !is_sentence_end(#[trigger] t@[k]),
            utterances_of(text@) == out@.map_values(|s: String| s@) + utterances_of(
                t@.skip(seg_start as int),
            ),
            text@ == t@,
        decreases n - i,
    {
        if is_sentence_end_char(t[i]) {
            let ghost rest = t@.skip(seg_start as int);
            proof {
                lemma_first_sentence_end(rest, i - seg_start);
                assert(rest.take(i - seg_start) =~= t@.subrange(seg_start as int, i as int));
                assert(rest.skip(i - seg_start + 1) =~= t@.skip(i + 1));
            }
            let piece = copy_range(&t, seg_start, i);
            let cut = trim_chars(&piece);
            if cut.len() > 0 {
                let ghost before = out@;
                let s = string_from_chars(&cut);
                out.push(s);
                proof {
                    assert(out@.map_values(|s: String| s@) =~= before.map_values(
                        |s: String| s@,
                    ).push(cut@));
                    assert(before.map_values(|s: String| s@).push(cut@) =~= before.map_values(
                        |s: String| s@,
                    ) + seq![trimmed(t@.subrange(seg_start as int, i as int))]);
                }
            }
            seg_start = i + 1;
        }
        i = i + 1;
    }
    let ghost rest = t@.skip(seg_start as int);
    proof {
        lemma_first_sentence_end(rest, n - seg_start);
        assert(rest.take(rest.len() as int) =~= rest);
        assert(rest =~= t@.subrange(seg_start as int, n as int));
    }
    let piece = copy_range(&t, seg_start, n);
    let cut = trim_chars(&piece);
    if cut.len() > 0 {
        let ghost before = out@;
        let s = string_from_chars(&cut);
        out.push(s);
        proof {
            assert(out@.map_values(|s: String| s@) =~= before.map_values(|s: String| s@).push(
                cut@,
            ));
            assert(before.map_values(|s: String| s@).push(cut@) =~= before.map_values(
                |s: String| s@,
            ) + seq![trimmed(rest)]);
        }
    } else {
        proof {
            assert(out@.map_values(|s: String| s@) + Seq::<Seq<char>>::empty() =~= out@.map_values(
                |s: String| s@,
            ));
        }
    }
    out
}

} // verus!
