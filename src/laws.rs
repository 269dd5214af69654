//! Properties of the status parser, stated over the parser's model.
use vstd::prelude::*;

use crate::delta::{all_digits, decimal_value, lemma_sign_irrelevant, magnitude, MAGNITUDE_LIMIT};
use crate::status::{apply_record, apply_records, parse_text, records, ParseError, Summary};
use crate::text::split;

verus! {

/// The record's first field marks it as a header.
pub open spec fn is_header(rec: Seq<char>) -> bool {
    split(rec, ' ')[0] == "#"@
}

/// A record that is not a header and is well formed: a file entry with a
/// full status code, an unmerged or untracked entry, an empty record, or a
/// record of a kind the parser passes over.
pub open spec fn is_body_record(rec: Seq<char>) -> bool {
    let f = split(rec, ' ');
    &&& f[0] != "#"@
    &&& (f[0] == "1"@ || f[0] == "2"@) ==> f.len() >= 2 && f[1].len() >= 2
}

/// The branch and the ahead/behind counts of `a` and `b` agree.
pub open spec fn same_head(a: Summary, b: Summary) -> bool {
    a.branch == b.branch && a.ahead == b.ahead && a.behind == b.behind
}

proof fn lemma_records_keep_head(st: Summary, recs: Seq<Seq<char>>)
    requires
        forall|i: int| 0 <= i < recs.len() ==> !is_header(#[trigger] recs[i]),
    ensures
        apply_records(st, recs) matches Ok(n) ==> same_head(n, st),
    decreases recs.len(),
{
    if recs.len() > 0 {
        assert(!is_header(recs[0]));
        if let Ok(next) = apply_record(st, recs[0]) {
            assert(same_head(next, st));
            let rest = recs.drop_first();
            assert forall|i: int| 0 <= i < rest.len() implies !is_header(#[trigger] rest[i]) by {
                assert(rest[i] == recs[i + 1]);
            }
            lemma_records_keep_head(next, rest);
        }
    }
}

/// A status text without header records that parses gives a summary with
/// no branch and with zero ahead and behind counts.
pub proof fn lemma_no_header_no_branch(s: Seq<char>)
    requires
        forall|i: int| 0 <= i < records(s).len() ==> !is_header(#[trigger] records(s)[i]),
        parse_text(s) is Ok,
    ensures
        parse_text(s)->Ok_0.branch is None,
        parse_text(s)->Ok_0.ahead == 0,
        parse_text(s)->Ok_0.behind == 0,
{
    lemma_records_keep_head(crate::status::empty_summary(), records(s));
}

/// A body record always reads, and two body records read in either order
/// give the same summary.
proof fn lemma_body_records_commute(st: Summary, a: Seq<char>, b: Seq<char>)
    requires
        is_body_record(a),
        is_body_record(b),
    ensures
        apply_record(st, a) is Ok,
        apply_record(apply_record(st, a)->Ok_0, b) is Ok,
        apply_record(apply_record(st, a)->Ok_0, b) == apply_record(apply_record(st, b)->Ok_0, a),
{
}

proof fn lemma_move_to_front(st: Summary, s: Seq<Seq<char>>, j: int)
    requires
        0 <= j < s.len(),
        forall|i: int| 0 <= i < s.len() ==> is_body_record(#[trigger] s[i]),
    ensures
        apply_records(st, s) == apply_records(st, seq![s[j]] + s.remove(j)),
    decreases j,
{
    if j == 0 {
        assert(seq![s[0]] + s.remove(0) =~= s);
    } else {
        let t = s.drop_first();
        assert(is_body_record(s[0]));
        assert(is_body_record(s[j]));
        lemma_body_records_commute(st, s[0], s[j]);
        let n0 = apply_record(st, s[0])->Ok_0;
        let nj = apply_record(st, s[j])->Ok_0;
        assert forall|i: int| 0 <= i < t.len() implies is_body_record(#[trigger] t[i]) by {
            assert(t[i] == s[i + 1]);
        }
        lemma_move_to_front(n0, t, j - 1);
        assert(t[j - 1] == s[j]);
        let front = seq![s[j]] + s.remove(j);
        assert(front.drop_first() =~= s.remove(j));
        assert(s.remove(j).drop_first() =~= t.remove(j - 1));
        assert((seq![t[j - 1]] + t.remove(j - 1)).drop_first() =~= t.remove(j - 1));
        assert(s.remove(j)[0] == s[0]);
        lemma_body_records_commute(nj, s[0], s[0]);
        let m = apply_record(n0, s[j])->Ok_0;
        assert(apply_records(st, s) == apply_records(n0, t));
        assert(apply_records(n0, seq![t[j - 1]] + t.remove(j - 1)) == apply_records(
            m,
            t.remove(j - 1),
        ));
        assert(apply_records(st, front) == apply_records(nj, s.remove(j)));
        assert(apply_records(nj, s.remove(j)) == apply_records(m, t.remove(j - 1)));
    }
}

proof fn lemma_records_permute(st: Summary, r1: Seq<Seq<char>>, r2: Seq<Seq<char>>)
    requires
        r1.to_multiset() == r2.to_multiset(),
        forall|i: int| 0 <= i < r1.len() ==> is_body_record(#[trigger] r1[i]),
    ensures
        apply_records(st, r1) == apply_records(st, r2),
    decreases r1.len(),
{
    broadcast use vstd::seq_lib::group_to_multiset_ensures;

    if r1.len() == 0 {
        assert(r1.to_multiset().len() == 0);
        assert(r2.to_multiset().len() == 0);
        assert(r2.len() == 0);
    } else {
        let a = r1[0];
        assert(r1.contains(a));
        assert(r1.to_multiset().count(a) > 0);
        assert(r2.to_multiset().count(a) > 0);
        assert(r2.contains(a));
        let j = choose|j: int| 0 <= j < r2.len() && r2[j] == a;
        lemma_permuted_body(r1, r2);
        lemma_move_to_front(st, r2, j);
        let rest1 = r1.drop_first();
        let rest2 = r2.remove(j);
        assert(r1.remove(0) =~= rest1);
        assert(rest1.to_multiset() == rest2.to_multiset());
        assert forall|i: int| 0 <= i < rest1.len() implies is_body_record(#[trigger] rest1[i]) by {
            assert(rest1[i] == r1[i + 1]);
        }
        lemma_body_records_commute(st, a, a);
        let next = apply_record(st, a)->Ok_0;
        lemma_records_permute(next, rest1, rest2);
        assert((seq![a] + rest2).drop_first() =~= rest2);
    }
}

/// The records of `recs` that are not headers, in order.
pub open spec fn non_headers(recs: Seq<Seq<char>>) -> Seq<Seq<char>>
    decreases recs.len(),
{
    if recs.len() == 0 {
        Seq::empty()
    } else if is_header(recs[0]) {
        non_headers(recs.drop_first())
    } else {
        seq![recs[0]] + non_headers(recs.drop_first())
    }
}

/// The header records of `recs`, in order.
pub open spec fn headers(recs: Seq<Seq<char>>) -> Seq<Seq<char>>
    decreases recs.len(),
{
    if recs.len() == 0 {
        Seq::empty()
    } else if is_header(recs[0]) {
        seq![recs[0]] + headers(recs.drop_first())
    } else {
        headers(recs.drop_first())
    }
}

/// Every record of `recs` is a body record.
pub open spec fn all_body(recs: Seq<Seq<char>>) -> bool {
    forall|i: int| 0 <= i < recs.len() ==> is_body_record(#[trigger] recs[i])
}

proof fn lemma_all_body_rest(recs: Seq<Seq<char>>)
    requires
        all_body(recs),
        recs.len() > 0,
    ensures
        is_body_record(recs[0]),
        all_body(recs.drop_first()),
{
    assert(is_body_record(recs[0]));
    assert forall|i: int| 0 <= i < recs.drop_first().len() implies is_body_record(
        #[trigger] recs.drop_first()[i],
    ) by {
        assert(recs.drop_first()[i] == recs[i + 1]);
    }
}

/// Reading `a + b` is reading `a`, then `b` from where `a` left off.
proof fn lemma_records_concat(st: Summary, a: Seq<Seq<char>>, b: Seq<Seq<char>>)
    ensures
        apply_records(st, a + b) == (match apply_records(st, a) {
            Ok(n) => apply_records(n, b),
            Err(e) => Err(e),
        }),
    decreases a.len(),
{
    if a.len() == 0 {
        assert(a + b =~= b);
    } else {
        assert((a + b)[0] == a[0]);
        assert((a + b).drop_first() =~= a.drop_first() + b);
        if let Ok(n) = apply_record(st, a[0]) {
            lemma_records_concat(n, a.drop_first(), b);
        }
    }
}

/// A body record may change places with the record before it.
proof fn lemma_body_moves_up(st: Summary, r: Seq<char>, b: Seq<char>, q: Seq<Seq<char>>)
    requires
        is_body_record(b),
    ensures
        apply_records(st, seq![r, b] + q) == apply_records(st, seq![b, r] + q),
{
    let x = seq![r, b] + q;
    let y = seq![b, r] + q;
    assert(x[0] == r);
    assert(x.drop_first() =~= seq![b] + q);
    assert((seq![b] + q)[0] == b);
    assert((seq![b] + q).drop_first() =~= q);
    assert(y[0] == b);
    assert(y.drop_first() =~= seq![r] + q);
    assert((seq![r] + q)[0] == r);
    assert((seq![r] + q).drop_first() =~= q);
    lemma_body_records_commute(st, b, b);
    let nb = apply_record(st, b)->Ok_0;
    if let Ok(n) = apply_record(st, r) {
        lemma_body_records_commute(n, b, b);
        let m = apply_record(n, b)->Ok_0;
        assert(apply_record(nb, r) == Ok::<Summary, ParseError>(m));
        assert(apply_records(n, seq![b] + q) == apply_records(m, q));
        assert(apply_records(st, x) == apply_records(m, q));
        assert(apply_records(nb, seq![r] + q) == apply_records(m, q));
        assert(apply_records(st, y) == apply_records(m, q));
    } else {
        assert(apply_record(nb, r) == apply_record(st, r));
        assert(apply_records(st, x) == Err::<Summary, ParseError>(apply_record(st, r)->Err_0));
        assert(apply_records(nb, seq![r] + q) == Err::<Summary, ParseError>(
            apply_record(st, r)->Err_0,
        ));
        assert(apply_records(st, y) == apply_records(nb, seq![r] + q));
    }
}

/// A record may move past a run of body records that follows it.
proof fn lemma_record_passes_bodies(
    st: Summary,
    x: Seq<char>,
    bs: Seq<Seq<char>>,
    h: Seq<Seq<char>>,
)
    requires
        all_body(bs),
    ensures
        apply_records(st, seq![x] + bs + h) == apply_records(st, bs + seq![x] + h),
    decreases bs.len(),
{
    if bs.len() == 0 {
        assert(seq![x] + bs + h =~= bs + seq![x] + h);
    } else {
        let b = bs[0];
        let rest = bs.drop_first();
        lemma_all_body_rest(bs);
        assert(seq![x] + bs + h =~= seq![x, b] + (rest + h));
        lemma_body_moves_up(st, x, b, rest + h);
        lemma_body_records_commute(st, b, b);
        let n = apply_record(st, b)->Ok_0;
        let y = seq![b, x] + (rest + h);
        assert(y[0] == b);
        assert(y.drop_first() =~= seq![x] + rest + h);
        lemma_record_passes_bodies(n, x, rest, h);
        let z = bs + seq![x] + h;
        assert(z[0] == b);
        assert(z.drop_first() =~= rest + seq![x] + h);
    }
}

/// Reading the records is reading the non-header ones first, then the
/// headers, where every non-header record is well formed.
proof fn lemma_body_records_first(st: Summary, recs: Seq<Seq<char>>)
    requires
        all_body(non_headers(recs)),
    ensures
        apply_records(st, recs) == apply_records(st, non_headers(recs) + headers(recs)),
    decreases recs.len(),
{
    if recs.len() == 0 {
        assert(non_headers(recs) + headers(recs) =~= recs);
    } else {
        let x = recs[0];
        let rest = recs.drop_first();
        let bs = non_headers(rest);
        let hs = headers(rest);
        if is_header(x) {
            assert(non_headers(recs) == bs);
            assert(headers(recs) == seq![x] + hs);
            let w = seq![x] + (bs + hs);
            assert(w[0] == x);
            assert(w.drop_first() =~= bs + hs);
            if let Ok(n) = apply_record(st, x) {
                lemma_body_records_first(n, rest);
            }
            assert(seq![x] + (bs + hs) =~= seq![x] + bs + hs);
            lemma_record_passes_bodies(st, x, bs, hs);
            assert(bs + seq![x] + hs =~= bs + (seq![x] + hs));
        } else {
            assert(non_headers(recs) == seq![x] + bs);
            assert(headers(recs) == hs);
            lemma_all_body_rest(non_headers(recs));
            assert(non_headers(recs).drop_first() =~= bs);
            lemma_body_records_commute(st, x, x);
            let n = apply_record(st, x)->Ok_0;
            lemma_body_records_first(n, rest);
            let w = seq![x] + bs + hs;
            assert(w[0] == x);
            assert(w.drop_first() =~= bs + hs);
        }
    }
}

/// Two status texts whose header records come in the same order, and whose
/// other records are the same up to order and all well formed, give the same
/// result.
pub proof fn lemma_entry_order_irrelevant(s1: Seq<char>, s2: Seq<char>)
    requires
        headers(records(s1)) == headers(records(s2)),
        non_headers(records(s1)).to_multiset() == non_headers(records(s2)).to_multiset(),
        all_body(non_headers(records(s1))),
    ensures
        parse_text(s1) == parse_text(s2),
{
    let e = crate::status::empty_summary();
    let b1 = non_headers(records(s1));
    let b2 = non_headers(records(s2));
    let h = headers(records(s1));
    lemma_permuted_body(b1, b2);
    lemma_body_records_first(e, records(s1));
    lemma_body_records_first(e, records(s2));
    lemma_records_concat(e, b1, h);
    lemma_records_concat(e, b2, h);
    lemma_records_permute(e, b1, b2);
}

/// A reordering of body records holds only body records.
proof fn lemma_permuted_body(r1: Seq<Seq<char>>, r2: Seq<Seq<char>>)
    requires
        r1.to_multiset() == r2.to_multiset(),
        all_body(r1),
    ensures
        all_body(r2),
{
    broadcast use vstd::seq_lib::group_to_multiset_ensures;

    assert forall|i: int| 0 <= i < r2.len() implies is_body_record(#[trigger] r2[i]) by {
        assert(r2.contains(r2[i]));
        assert(r2.to_multiset().count(r2[i]) > 0);
        assert(r1.to_multiset().count(r2[i]) > 0);
        assert(r1.contains(r2[i]));
        let k = choose|k: int| 0 <= k < r1.len() && r1[k] == r2[i];
        assert(is_body_record(r1[k]));
    }
}

/// A file entry whose status code is `MM` counts once as staged and once
/// as modified, and changes nothing else.
pub proof fn lemma_entry_mm(st: Summary, rec: Seq<char>)
    requires
        split(rec, ' ')[0] == "1"@,
        split(rec, ' ').len() >= 2,
        split(rec, ' ')[1] == "MM"@,
    ensures
        apply_record(st, rec) == Ok::<Summary, ParseError>(
            Summary { staged: st.staged + 1, modified: st.modified + 1, ..st },
        ),
{
    reveal_strlit("1");
    reveal_strlit("#");
    reveal_strlit("MM");
    assert("1"@[0] != "#"@[0]);
    assert("MM"@[0] == 'M' && "MM"@[1] == 'M');
}

/// A file entry whose status code is `.M` counts once as modified, and
/// changes nothing else.
pub proof fn lemma_entry_dot_m(st: Summary, rec: Seq<char>)
    requires
        split(rec, ' ')[0] == "1"@,
        split(rec, ' ').len() >= 2,
        split(rec, ' ')[1] == ".M"@,
    ensures
        apply_record(st, rec) == Ok::<Summary, ParseError>(
            Summary { modified: st.modified + 1, ..st },
        ),
{
    reveal_strlit("1");
    reveal_strlit("#");
    reveal_strlit(".M");
    assert("1"@[0] != "#"@[0]);
    assert(".M"@[0] == '.' && ".M"@[1] == 'M');
}

/// A record whose first field is `u` counts one unmerged entry, whatever
/// follows, and changes nothing else.
pub proof fn lemma_unmerged_record(st: Summary, rec: Seq<char>)
    requires
        split(rec, ' ')[0] == "u"@,
    ensures
        apply_record(st, rec) == Ok::<Summary, ParseError>(
            Summary { unmerged: st.unmerged + 1, ..st },
        ),
{
    reveal_strlit("u");
    reveal_strlit("#");
    reveal_strlit("1");
    reveal_strlit("2");
    assert("u"@[0] != "#"@[0]);
    assert("u"@[0] != "1"@[0]);
    assert("u"@[0] != "2"@[0]);
}

/// In a `# branch.ab` record whose behind count reads, an ahead count
/// written with `+` or with `-` before the same digits gives the same ahead
/// value, the number those digits spell.
pub proof fn lemma_ahead_sign_irrelevant(st: Summary, rec: Seq<char>, sign: char, d: Seq<char>)
    requires
        split(rec, ' ').len() >= 4,
        split(rec, ' ')[0] == "#"@,
        split(rec, ' ')[1] == "branch.ab"@,
        split(rec, ' ')[2] == seq![sign] + d,
        sign == '+' || sign == '-',
        magnitude(split(rec, ' ')[3]) is Some,
        d.len() > 0,
        all_digits(d),
        decimal_value(d) < MAGNITUDE_LIMIT,
    ensures
        apply_record(st, rec) is Ok,
        apply_record(st, rec)->Ok_0.ahead == decimal_value(d),
{
    reveal_strlit("branch.ab");
    reveal_strlit("branch.head");
    assert("branch.ab"@.len() != "branch.head"@.len());
    lemma_sign_irrelevant(d);
}

} // verus!
