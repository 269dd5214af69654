//! Signed decimal fields, as `i64` reads them: an optional `+` or `-`, then
//! one or more ASCII digits, with a value in `i64`'s range.
use vstd::prelude::*;

verus! {

/// The largest magnitude a negative `i64` can have.
pub const MAGNITUDE_LIMIT: u64 = 0x8000_0000_0000_0000;

pub open spec fn is_digit(c: char) -> bool {
    '0' <= c <= '9'
}

pub open spec fn digit_value(c: char) -> nat {
    (c as u32 - '0' as u32) as nat
}

pub open spec fn all_digits(d: Seq<char>) -> bool {
    forall|i: int| 0 <= i < d.len() ==> is_digit(#[trigger] d[i])
}

/// The number that the digits `d` spell in base ten.
pub open spec fn decimal_value(d: Seq<char>) -> nat
    decreases d.len(),
{
    if d.len() == 0 {
        0
    } else {
        10 * decimal_value(d.drop_last()) + digit_value(d.last())
    }
}

/// The value of a signed decimal field that fits in `i64`, if `f` is one.
pub open spec fn signed_value(f: Seq<char>) -> Option<int> {
    let negative = f.len() > 0 && f[0] == '-';
    let signed = f.len() > 0 && (f[0] == '-' || f[0] == '+');
    let d = if signed { f.drop_first() } else { f };
    if d.len() == 0 || !all_digits(d) {
        None
    } else if negative {
        if decimal_value(d) <= MAGNITUDE_LIMIT {
            Some(-(decimal_value(d) as int))
        } else {
            None
        }
    } else if decimal_value(d) < MAGNITUDE_LIMIT {
        Some(decimal_value(d) as int)
    } else {
        None
    }
}

/// The magnitude of a signed decimal field, if `f` is one.
pub open spec fn magnitude(f: Seq<char>) -> Option<nat> {
    match signed_value(f) {
        Some(v) => Some(if v < 0 { (-v) as nat } else { v as nat }),
        None => None,
    }
}

proof fn lemma_decimal_grows(d: Seq<char>, k: int)
    requires
        0 <= k <= d.len(),
        all_digits(d),
    ensures
        decimal_value(d.subrange(0, k)) <= decimal_value(d),
    decreases d.len() - k,
{
    if k < d.len() {
        lemma_decimal_grows(d, k + 1);
        assert(d.subrange(0, k + 1).drop_last() =~= d.subrange(0, k));
    } else {
        assert(d.subrange(0, k) =~= d);
    }
}

/// The magnitude of the signed decimal field `t[from..to]`, or `None` where
/// it is not one that fits in `i64`.
pub fn parse_magnitude(t: &Vec<char>, from: usize, to: usize) -> (r: Option<u64>)
    requires
        from <= to <= t@.len(),
    ensures
        r == (match magnitude(t@.subrange(from as int, to as int)) {
            Some(m) => Some(m as u64),
            None => None::<u64>,
        }),
{
    let ghost f = t@.subrange(from as int, to as int);
    let negative = from < to && t[from] == '-';
    let signed = from < to && (t[from] == '-' || t[from] == '+');
    let start = if signed { from + 1 } else { from };
    let ghost d = t@.subrange(start as int, to as int);
    assert(d =~= if signed { f.drop_first() } else { f });
    assert(negative == (f.len() > 0 && f[0] == '-'));
    assert(signed == (f.len() > 0 && (f[0] == '-' || f[0] == '+')));
    if start == to {
        return None;
    }
    let mut v: u128 = 0;
    let mut i = start;
    while i < to
        invariant
            from <= start <= i <= to <= t@.len(),
            d == t@.subrange(start as int, to as int),
            f == t@.subrange(from as int, to as int),
            d == if signed { f.drop_first() } else { f },
            negative == (f.len() > 0 && f[0] == '-'),
            signed == (f.len() > 0 && (f[0] == '-' || f[0] == '+')),
            all_digits(d.subrange(0, i - start)),
            v == decimal_value(d.subrange(0, i - start)),
            v <= MAGNITUDE_LIMIT,
        decreases to - i,
    {
        let c = t[i];
        if !('0' <= c && c <= '9') {
            assert(d[i - start] == c);
            assert(!is_digit(d[i - start]));
            return None;
        }
        let nv = v * 10 + (c as u32 - '0' as u32) as u128;
        assert(d.subrange(0, i + 1 - start).drop_last() =~= d.subrange(0, i - start));
        assert(all_digits(d.subrange(0, i + 1 - start)));
        assert(d.subrange(0, i + 1 - start).last() == c);
        assert(nv == decimal_value(d.subrange(0, i + 1 - start)));
        if nv > MAGNITUDE_LIMIT as u128 {
            proof {
                if all_digits(d) {
                    lemma_decimal_grows(d, i + 1 - start);
                }
            }
            return None;
        }
        v = nv;
        i = i + 1;
    }
    assert(d.subrange(0, i - start) =~= d);
    if negative {
        Some(v as u64)
    } else if v < MAGNITUDE_LIMIT as u128 {
        Some(v as u64)
    } else {
        None
    }
}

/// Where the digits `d` spell a number that a positive `i64` can hold, a
/// leading `+`, a leading `-` and no sign at all give the same magnitude.
pub proof fn lemma_sign_irrelevant(d: Seq<char>)
    requires
        d.len() > 0,
        all_digits(d),
        decimal_value(d) < MAGNITUDE_LIMIT,
    ensures
        magnitude(seq!['+'] + d) == Some(decimal_value(d)),
        magnitude(seq!['-'] + d) == Some(decimal_value(d)),
        magnitude(d) == Some(decimal_value(d)),
{
    assert((seq!['+'] + d).drop_first() =~= d);
    assert((seq!['-'] + d).drop_first() =~= d);
    assert(is_digit(d[0]));
}

} // verus!
