//! Character-level helpers: splitting text at a separator, and comparing a
//! stretch of characters with a literal.
use vstd::prelude::*;

verus! {

/// `k` is the position of the first `sep` in `s`.
pub open spec fn is_first_sep(s: Seq<char>, sep: char, k: int) -> bool {
    &&& 0 <= k < s.len()
    &&& s[k] == sep
    &&& forall|m: int| 0 <= m < k ==> s[m] != sep
}

/// The pieces of `s` between occurrences of `sep`, in order. There is always
/// at least one piece; a separator at the end leaves an empty last piece.
pub open spec fn split(s: Seq<char>, sep: char) -> Seq<Seq<char>>
    decreases s.len(),
{
    if exists|k: int| is_first_sep(s, sep, k) {
        let k = choose|k: int| is_first_sep(s, sep, k);
        seq![s.subrange(0, k)] + split(s.subrange(k + 1, s.len() as int), sep)
    } else {
        seq![s]
    }
}

/// Unfolds `split` where the first separator is known.
pub proof fn lemma_split_at(s: Seq<char>, sep: char, k: int)
    requires
        is_first_sep(s, sep, k),
    ensures
        split(s, sep) == seq![s.subrange(0, k)] + split(s.subrange(k + 1, s.len() as int), sep),
{
    let j = choose|j: int| is_first_sep(s, sep, j);
    assert(is_first_sep(s, sep, j));
    if j < k {
        assert(s[j] != sep);
    } else if k < j {
        assert(s[k] != sep);
    }
}

/// Unfolds `split` where `s` holds no separator.
pub proof fn lemma_split_none(s: Seq<char>, sep: char)
    requires
        forall|m: int| 0 <= m < s.len() ==> s[m] != sep,
    ensures
        split(s, sep) == seq![s],
{
    assert(!exists|k: int| is_first_sep(s, sep, k));
}

/// The characters of `s`, in order, as a vector.
pub fn chars_of(s: &str) -> (r: Vec<char>)
    ensures
        r@ == s@,
{
    let mut out: Vec<char> = Vec::new();
    for c in it: s.chars()
        invariant
            out@ == it.seq().subrange(0, it.index() as int),
    {
        out.push(c);
    }
    out
}

/// The position of the first `sep` in `t[from..to]`, or `to` where there is none.
pub fn find_sep(t: &Vec<char>, sep: char, from: usize, to: usize) -> (k: usize)
    requires
        from <= to <= t@.len(),
    ensures
        from <= k <= to,
        forall|m: int| from <= m < k ==> t@[m] != sep,
        k < to ==> t@[k as int] == sep,
{
    let mut k = from;
    while k < to
        invariant
            from <= k <= to <= t@.len(),
            forall|m: int| from <= m < k ==> t@[m] != sep,
        decreases to - k,
    {
        if t[k] == sep {
            return k;
        }
        k = k + 1;
    }
    k
}

/// Whether `t[from..to]` reads exactly `lit`.
pub fn range_is(t: &Vec<char>, from: usize, to: usize, lit: &str) -> (r: bool)
    requires
        from <= to <= t@.len(),
    ensures
        r == (t@.subrange(from as int, to as int) == lit@),
{
    let n = lit.unicode_len();
    if to - from != n {
        return false;
    }
    let mut i: usize = 0;
    while i < n
        invariant
            n == lit@.len(),
            to - from == n,
            from <= to <= t@.len(),
            i <= n,
            forall|m: int| 0 <= m < i ==> t@[from + m] == lit@[m],
        decreases n - i,
    {
        if t[from + i] != lit.get_char(i) {
            assert(t@.subrange(from as int, to as int)[i as int] != lit@[i as int]);
            return false;
        }
        i = i + 1;
    }
    assert(t@.subrange(from as int, to as int) =~= lit@);
    true
}

/// Splitting a stretch `t[from..to]` whose first separator is at `k`.
pub proof fn lemma_split_range(t: Seq<char>, sep: char, from: int, k: int, to: int)
    requires
        0 <= from <= k < to <= t.len(),
        t[k] == sep,
        forall|m: int| from <= m < k ==> t[m] != sep,
    ensures
        split(t.subrange(from, to), sep) == seq![t.subrange(from, k)] + split(
            t.subrange(k + 1, to),
            sep,
        ),
{
    let s = t.subrange(from, to);
    assert(is_first_sep(s, sep, k - from));
    lemma_split_at(s, sep, k - from);
    assert(s.subrange(0, k - from) =~= t.subrange(from, k));
    assert(s.subrange(k - from + 1, s.len() as int) =~= t.subrange(k + 1, to));
}

/// Splitting a stretch `t[from..to]` that holds no separator.
pub proof fn lemma_split_range_none(t: Seq<char>, sep: char, from: int, to: int)
    requires
        0 <= from <= to <= t.len(),
        forall|m: int| from <= m < to ==> t[m] != sep,
    ensures
        split(t.subrange(from, to), sep) == seq![t.subrange(from, to)],
{
    lemma_split_none(t.subrange(from, to), sep);
}

/// The end of the first `sep`-separated piece of `t[from..to]`, with what
/// that says of how the stretch splits.
pub fn piece_end(t: &Vec<char>, sep: char, from: usize, to: usize) -> (e: usize)
    requires
        from <= to <= t@.len(),
    ensures
        from <= e <= to,
        e == to ==> split(t@.subrange(from as int, to as int), sep) == seq![
            t@.subrange(from as int, to as int),
        ],
        e < to ==> split(t@.subrange(from as int, to as int), sep) == seq![
            t@.subrange(from as int, e as int),
        ] + split(t@.subrange(e + 1, to as int), sep),
{
    let e = find_sep(t, sep, from, to);
    proof {
        if e < to {
            lemma_split_range(t@, sep, from as int, e as int, to as int);
        } else {
            lemma_split_range_none(t@, sep, from as int, to as int);
        }
    }
    e
}

} // verus!
