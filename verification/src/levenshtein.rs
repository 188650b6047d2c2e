use vstd::prelude::*;
use vstd::math::min;

verus! {

/// Levenshtein edit distance between two character sequences: the least
/// number of single-character insertions, deletions and substitutions
/// (each of cost one) that turns one into the other, defined by the
/// classic recurrence on the final characters.
pub open spec fn edit_distance(a: Seq<char>, b: Seq<char>) -> int
    decreases a.len(), b.len(),
{
    if a.len() == 0 {
        b.len() as int
    } else if b.len() == 0 {
        a.len() as int
    } else {
        let del = edit_distance(a.drop_last(), b) + 1;
        let ins = edit_distance(a, b.drop_last()) + 1;
        let sub = edit_distance(a.drop_last(), b.drop_last()) + if a.last() == b.last() {
            0int
        } else {
            1int
        };
        min(min(del, ins), sub)
    }
}

/// The distance is never negative.
pub proof fn lemma_edit_distance_nonneg(a: Seq<char>, b: Seq<char>)
    ensures
        edit_distance(a, b) >= 0,
    decreases a.len(), b.len(),
{
    if a.len() > 0 && b.len() > 0 {
        lemma_edit_distance_nonneg(a.drop_last(), b);
        lemma_edit_distance_nonneg(a, b.drop_last());
        lemma_edit_distance_nonneg(a.drop_last(), b.drop_last());
    }
}

/// The distance never exceeds the longer length.
pub proof fn lemma_edit_distance_le_max(a: Seq<char>, b: Seq<char>)
    ensures
        edit_distance(a, b) <= vstd::math::max(a.len() as int, b.len() as int),
    decreases a.len(), b.len(),
{
    if a.len() > 0 && b.len() > 0 {
        lemma_edit_distance_le_max(a.drop_last(), b.drop_last());
    }
}

/// A string is at distance zero from itself.
pub proof fn lemma_edit_distance_self(s: Seq<char>)
    ensures
        edit_distance(s, s) == 0,
    decreases s.len(),
{
    if s.len() > 0 {
        lemma_edit_distance_self(s.drop_last());
        lemma_edit_distance_nonneg(s.drop_last(), s);
        lemma_edit_distance_nonneg(s, s.drop_last());
    }
}

/// The distance is symmetric.
pub proof fn lemma_edit_distance_symmetric(a: Seq<char>, b: Seq<char>)
    ensures
        edit_distance(a, b) == edit_distance(b, a),
    decreases a.len(), b.len(),
{
    if a.len() > 0 && b.len() > 0 {
        lemma_edit_distance_symmetric(a.drop_last(), b);
        lemma_edit_distance_symmetric(a, b.drop_last());
        lemma_edit_distance_symmetric(a.drop_last(), b.drop_last());
    }
}

/// The distance is zero exactly between equal strings.
pub proof fn lemma_edit_distance_zero(a: Seq<char>, b: Seq<char>)
    ensures
        edit_distance(a, b) == 0 <==> a == b,
    decreases a.len(), b.len(),
{
    if a.len() == 0 || b.len() == 0 {
        if a.len() == 0 && b.len() == 0 {
            assert(a =~= b);
        } else {
            assert(a != b);
        }
    } else {
        lemma_edit_distance_zero(a.drop_last(), b.drop_last());
        lemma_edit_distance_nonneg(a.drop_last(), b);
        lemma_edit_distance_nonneg(a, b.drop_last());
        lemma_edit_distance_nonneg(a.drop_last(), b.drop_last());
        if edit_distance(a, b) == 0 {
            assert(a.drop_last() == b.drop_last() && a.last() == b.last());
            assert(a =~= a.drop_last().push(a.last()));
            assert(b =~= b.drop_last().push(b.last()));
        } else {
            if a == b {
                lemma_edit_distance_self(a);
            }
        }
    }
}

/// Changing exactly one character of a string moves it to distance one.
pub proof fn lemma_edit_distance_one_substitution(a: Seq<char>, k: int, c: char)
    requires
        0 <= k < a.len(),
        c != a[k],
    ensures
        edit_distance(a, a.update(k, c)) == 1,
    decreases a.len(),
{
    let b = a.update(k, c);
    lemma_edit_distance_zero(a, b);
    assert(a[k] != b[k]);
    assert(a != b);
    lemma_edit_distance_nonneg(a, b);
    if k == a.len() - 1 {
        assert(b.drop_last() =~= a.drop_last());
        lemma_edit_distance_self(a.drop_last());
        assert(edit_distance(a.drop_last(), b.drop_last()) == 0);
        assert(edit_distance(a, b) <= 1);
    } else {
        assert(b.drop_last() =~= a.drop_last().update(k, c));
        assert(a.last() == b.last());
        lemma_edit_distance_one_substitution(a.drop_last(), k, c);
        lemma_edit_distance_nonneg(a.drop_last(), b);
        lemma_edit_distance_nonneg(a, b.drop_last());
        assert(edit_distance(a, b) <= 1);
    }
}

/// The distance is at least the difference of the lengths.
pub proof fn lemma_edit_distance_length_difference(a: Seq<char>, b: Seq<char>)
    ensures
        edit_distance(a, b) >= vstd::math::abs(a.len() - b.len()),
    decreases a.len(), b.len(),
{
    if a.len() > 0 && b.len() > 0 {
        lemma_edit_distance_length_difference(a.drop_last(), b);
        lemma_edit_distance_length_difference(a, b.drop_last());
        lemma_edit_distance_length_difference(a.drop_last(), b.drop_last());
    }
}

/// Levenshtein distance by the classic dynamic programme, kept as two
/// rolling rows of the full distance matrix.
pub fn levenshtein_distance(s1: &Vec<char>, s2: &Vec<char>) -> (r: usize)
    requires
        s1@.len() < usize::MAX,
        s2@.len() < usize::MAX,
    ensures
        r as int == edit_distance(s1@, s2@),
{
    let len1: usize = s1.len();
    let len2: usize = s2.len();
    let mut prev: Vec<usize> = Vec::new();
    let mut j: usize = 0;
    while j <= len2
        invariant
            j <= len2 + 1,
            len2 == s2@.len() < usize::MAX,
            prev@.len() == j,
            forall|t: int| 0 <= t < j ==> prev@[t] == edit_distance(Seq::<char>::empty(), s2@.take(t)),
        decreases len2 + 1 - j,
    {
        proof {
            assert(s2@.take(j as int).len() == j);
        }
        prev.push(j);
        j = j + 1;
    }
    let mut i: usize = 1;
    while i <= len1
        invariant
            1 <= i <= len1 + 1,
            len1 == s1@.len() < usize::MAX,
            len2 == s2@.len() < usize::MAX,
            prev@.len() == len2 + 1,
            forall|t: int|
                0 <= t <= len2 ==> prev@[t] == edit_distance(
                    s1@.take(i - 1),
                    s2@.take(t),
                ),
        decreases len1 + 1 - i,
    {
        let mut cur: Vec<usize> = Vec::new();
        proof {
            assert(s1@.take(i as int).len() == i);
            assert(s2@.take(0).len() == 0);
        }
        cur.push(i);
        let mut j2: usize = 1;
        while j2 <= len2
            invariant
                1 <= i <= len1,
                1 <= j2 <= len2 + 1,
                len1 == s1@.len() < usize::MAX,
                len2 == s2@.len() < usize::MAX,
                prev@.len() == len2 + 1,
                forall|t: int|
                    0 <= t <= len2 ==> prev@[t] == edit_distance(
                        s1@.take(i - 1),
                        s2@.take(t),
                    ),
                cur@.len() == j2,
                forall|t: int|
                    0 <= t < j2 ==> cur@[t] == edit_distance(s1@.take(i as int), s2@.take(t)),
            decreases len2 + 1 - j2,
        {
            let ghost pa = s1@.take(i as int);
            let ghost pb = s2@.take(j2 as int);
            proof {
                assert(pa.len() == i && pb.len() == j2);
                assert(pa.drop_last() =~= s1@.take(i - 1));
                assert(pb.drop_last() =~= s2@.take(j2 - 1));
                assert(pa.last() == s1@[i - 1]);
                assert(pb.last() == s2@[j2 - 1]);
                lemma_edit_distance_nonneg(pa.drop_last(), pb);
                lemma_edit_distance_nonneg(pa, pb.drop_last());
                lemma_edit_distance_nonneg(pa.drop_last(), pb.drop_last());
                lemma_edit_distance_le_max(pa.drop_last(), pb);
                lemma_edit_distance_le_max(pa, pb.drop_last());
                lemma_edit_distance_le_max(pa.drop_last(), pb.drop_last());
            }
            let cost: usize = if s1[i - 1] == s2[j2 - 1] {
                0
            } else {
                1
            };
            let del: usize = prev[j2] + 1;
            let ins: usize = cur[j2 - 1] + 1;
            let sub: usize = prev[j2 - 1] + cost;
            let mut best: usize = del;
            if ins < best {
                best = ins;
            }
            if sub < best {
                best = sub;
            }
            proof {
                assert(best as int == edit_distance(pa, pb));
            }
            cur.push(best);
            j2 = j2 + 1;
        }
        prev = cur;
        i = i + 1;
    }
    proof {
        assert(s1@.take(len1 as int) =~= s1@);
        assert(s2@.take(len2 as int) =~= s2@);
    }
    prev[len2]
}

} // verus!
