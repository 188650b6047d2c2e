use vstd::prelude::*;

verus! {

/// The Unicode white-space characters, as `char::is_whitespace` and
/// `str::split_whitespace` treat them.
pub open spec fn is_space_char(c: char) -> bool {
    ||| c == ' '
    ||| c == '\t'
    ||| c == '\n'
    ||| c == '\u{000B}'
    ||| c == '\u{000C}'
    ||| c == '\r'
    ||| c == '\u{0085}'
    ||| c == '\u{00A0}'
    ||| c == '\u{1680}'
    ||| c == '\u{2000}'
    ||| c == '\u{2001}'
    ||| c == '\u{2002}'
    ||| c == '\u{2003}'
    ||| c == '\u{2004}'
    ||| c == '\u{2005}'
    ||| c == '\u{2006}'
    ||| c == '\u{2007}'
    ||| c == '\u{2008}'
    ||| c == '\u{2009}'
    ||| c == '\u{200A}'
    ||| c == '\u{2028}'
    ||| c == '\u{2029}'
    ||| c == '\u{202F}'
    ||| c == '\u{205F}'
    ||| c == '\u{3000}'
}

/// Whether one character is white space.
pub fn is_space(c: char) -> (r: bool)
    ensures
        r == is_space_char(c),
{
    c == ' ' || c == '\t' || c == '\n' || c == '\u{000B}' || c == '\u{000C}' || c == '\r'
        || c == '\u{0085}' || c == '\u{00A0}' || c == '\u{1680}' || c == '\u{2000}'
        || c == '\u{2001}' || c == '\u{2002}' || c == '\u{2003}' || c == '\u{2004}'
        || c == '\u{2005}' || c == '\u{2006}' || c == '\u{2007}' || c == '\u{2008}'
        || c == '\u{2009}' || c == '\u{200A}' || c == '\u{2028}' || c == '\u{2029}'
        || c == '\u{202F}' || c == '\u{205F}' || c == '\u{3000}'
}

/// The pattern `p` occurs contiguously somewhere in `t`.
pub open spec fn contains_seq(t: Seq<char>, p: Seq<char>) -> bool {
    exists|i: int| 0 <= i <= t.len() - p.len() && #[trigger] t.subrange(i, i + p.len()) == p
}

/// Substring search: whether the pattern occurs contiguously in the text.
pub fn contains_subseq(t: &Vec<char>, p: &Vec<char>) -> (r: bool)
    ensures
        r == contains_seq(t@, p@),
{
    let n: usize = t.len();
    let m: usize = p.len();
    if m > n {
        return false;
    }
    let mut i: usize = 0;
    while i <= n - m
        invariant
            m <= n == t@.len(),
            m == p@.len(),
            i <= n - m + 1,
            forall|k: int| 0 <= k < i ==> #[trigger] t@.subrange(k, k + m as int) != p@,
        decreases n - m + 1 - i,
    {
        let mut j: usize = 0;
        let mut matched: bool = true;
        while j < m
            invariant
                i + m <= n == t@.len(),
                m == p@.len(),
                j <= m,
                matched <==> (forall|l: int| 0 <= l < j ==> t@[i + l] == p@[l]),
            decreases m - j,
        {
            if t[i + j] != p[j] {
                matched = false;
            }
            j = j + 1;
        }
        if matched {
            proof {
                assert(t@.subrange(i as int, i + m) =~= p@);
            }
            return true;
        }
        proof {
            let ghost l = choose|l: int| 0 <= l < m && t@[i + l] != p@[l];
            assert(t@.subrange(i as int, i + m)[l] == t@[i + l]);
            assert(t@.subrange(i as int, i + m) != p@);
        }
        i = i + 1;
    }
    proof {
        assert forall|k: int| 0 <= k <= t@.len() - p@.len() implies #[trigger] t@.subrange(
            k,
            k + p@.len() as int,
        ) != p@ by {
            assert(k < i);
        }
    }
    false
}

/// The characters `t[start..end]` as an owned buffer.
pub(crate) fn copy_range(t: &Vec<char>, start: usize, end: usize) -> (r: Vec<char>)
    requires
        start <= end <= t@.len(),
    ensures
        r@ == t@.subrange(start as int, end as int),
{
    let mut out: Vec<char> = Vec::new();
    let mut i: usize = start;
    while i < end
        invariant
            start <= i <= end <= t@.len(),
            out@ == t@.subrange(start as int, i as int),
        decreases end - i,
    {
        out.push(t[i]);
        proof {
            assert(out@ =~= t@.subrange(start as int, i + 1));
        }
        i = i + 1;
    }
    out
}

/// Whether the pattern sits at position `i` of the text.
pub(crate) fn match_at(t: &Vec<char>, p: &Vec<char>, i: usize) -> (r: bool)
    requires
        i + p@.len() <= t@.len(),
    ensures
        r <==> t@.subrange(i as int, i + p@.len()) == p@,
{
    let n: usize = t.len();
    let m: usize = p.len();
    let mut j: usize = 0;
    let mut matched: bool = true;
    while j < m
        invariant
            i + m <= n == t@.len(),
            m == p@.len(),
            j <= m,
            matched <==> (forall|l: int| 0 <= l < j ==> t@[i + l] == p@[l]),
        decreases m - j,
    {
        if t[i + j] != p[j] {
            matched = false;
        }
        j = j + 1;
    }
    proof {
        if matched {
            assert(t@.subrange(i as int, i + m as int) =~= p@);
        } else {
            let ghost l = choose|l: int| 0 <= l < m && t@[i + l] != p@[l];
            assert(t@.subrange(i as int, i + m as int)[l] == t@[i + l]);
        }
    }
    matched
}

/// The text with its leading white space removed.
pub open spec fn trim_start(s: Seq<char>) -> Seq<char>
    decreases s.len(),
{
    if s.len() > 0 && is_space_char(s.first()) {
        trim_start(s.drop_first())
    } else {
        s
    }
}

/// The text with its trailing white space removed.
pub open spec fn trim_end(s: Seq<char>) -> Seq<char>
    decreases s.len(),
{
    if s.len() > 0 && is_space_char(s.last()) {
        trim_end(s.drop_last())
    } else {
        s
    }
}

/// The text with white space removed from both ends.
pub open spec fn trimmed(s: Seq<char>) -> Seq<char> {
    trim_end(trim_start(s))
}

/// Skipping a fully white-space prefix is exactly what trimming the start
/// does.
proof fn lemma_trim_start_skip(s: Seq<char>, i: int)
    requires
        0 <= i <= s.len(),
        forall|k: int| 0 <= k < i ==> is_space_char(#[trigger] s[k]),
        i == s.len() || !is_space_char(s[i]),
    ensures
        trim_start(s) == s.skip(i),
    decreases i,
{
    if i == 0 {
        assert(s.skip(0) =~= s);
    } else {
        assert(is_space_char(s.first()));
        assert(s.drop_first() =~= s.skip(1));
        lemma_trim_start_skip(s.skip(1), i - 1);
        assert(s.skip(1).skip(i - 1) =~= s.skip(i));
    }
}

/// Cutting a fully white-space suffix is exactly what trimming the end
/// does.
proof fn lemma_trim_end_take(s: Seq<char>, e: int)
    requires
        0 <= e <= s.len(),
        forall|k: int| e <= k < s.len() ==> is_space_char(#[trigger] s[k]),
        e == 0 || !is_space_char(s[e - 1]),
    ensures
        trim_end(s) == s.take(e),
    decreases s.len(),
{
    if e == s.len() {
        if s.len() > 0 {
            assert(!is_space_char(s.last()));
        }
        assert(s.take(e) =~= s);
    } else {
        assert(is_space_char(s.last()));
        lemma_trim_end_take(s.drop_last(), e);
        assert(s.drop_last().take(e) =~= s.take(e));
    }
}

/// Index of the first non-space character at or after `from`.
fn skip_spaces(t: &Vec<char>, from: usize) -> (i: usize)
    requires
        from <= t@.len(),
    ensures
        from <= i <= t@.len(),
        forall|k: int| from <= k < i ==> is_space_char(#[trigger] t@[k]),
        i == t@.len() || !is_space_char(t@[i as int]),
{
    let mut i: usize = from;
    while i < t.len()
        invariant
            from <= i <= t@.len(),
            forall|k: int| from <= k < i ==> is_space_char(#[trigger] t@[k]),
        decreases t@.len() - i,
    {
        if !is_space(t[i]) {
            return i;
        }
        i = i + 1;
    }
    i
}

/// Index just past the last non-space character at or after `start`.
fn trim_back(t: &Vec<char>, start: usize) -> (e: usize)
    requires
        start <= t@.len(),
    ensures
        start <= e <= t@.len(),
        forall|k: int| e <= k < t@.len() ==> is_space_char(#[trigger] t@[k]),
        e == start || !is_space_char(t@[e - 1]),
{
    let mut e: usize = t.len();
    while e > start
        invariant
            start <= e <= t@.len(),
            forall|k: int| e <= k < t@.len() ==> is_space_char(#[trigger] t@[k]),
        decreases e,
    {
        if !is_space(t[e - 1]) {
            return e;
        }
        e = e - 1;
    }
    e
}

/// The characters with white space removed from both ends.
pub fn trim_chars(t: &Vec<char>) -> (r: Vec<char>)
    ensures
        r@ == trimmed(t@),
{
    let start: usize = skip_spaces(t, 0);
    let end: usize = trim_back(t, start);
    proof {
        lemma_trim_start_skip(t@, start as int);
        lemma_trim_end_take(t@.skip(start as int), end - start);
        assert(t@.skip(start as int).take(end - start) =~= t@.subrange(
            start as int,
            end as int,
        ));
    }
    copy_range(t, start, end)
}

} // verus!
