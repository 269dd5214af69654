use gitprompt::status::{parse_porcelain2, GitStatus, ParseError, RecordKind};

fn parse(s: &str) -> Result<GitStatus, ParseError> {
    parse_porcelain2(String::from(s))
}

fn counts(s: &GitStatus) -> [u64; 7] {
    [s.ahead, s.behind, s.staged, s.modified, s.deleted, s.unmerged, s.untracked]
}

#[test]
fn empty_input_gives_empty_summary() {
    let s = parse("").unwrap();
    assert_eq!(s.branch, None);
    assert_eq!(counts(&s), [0; 7]);
}

#[test]
fn no_header_records_leave_branch_and_divergence_empty() {
    let s = parse("1 .M N... 100644 100644 100644 a b f.txt\0? x\0u UU N... 1 2 3 4 a b c d\0").unwrap();
    assert_eq!(s.branch, None);
    assert_eq!(s.ahead, 0);
    assert_eq!(s.behind, 0);
    assert_eq!(s.modified, 1);
    assert_eq!(s.untracked, 1);
    assert_eq!(s.unmerged, 1);
}

#[test]
fn sign_of_delta_is_irrelevant() {
    let a = parse("# branch.ab +3 -3\0").unwrap();
    let b = parse("# branch.ab -3 +3\0").unwrap();
    assert_eq!(a.ahead, 3);
    assert_eq!(a.behind, 3);
    assert_eq!(b.ahead, 3);
    assert_eq!(b.behind, 3);
    let c = parse("# branch.ab 3 0\0").unwrap();
    assert_eq!(c.ahead, 3);
    assert_eq!(c.behind, 0);
}

#[test]
fn permuted_entries_give_the_same_summary() {
    let a = parse("1 MM N... f\0? u.txt\02 .D N... g\0u UU x\0? v.txt\0").unwrap();
    let b = parse("? v.txt\0u UU x\01 MM N... f\0? u.txt\02 .D N... g").unwrap();
    assert_eq!(counts(&a), counts(&b));
    assert_eq!(counts(&a), [0, 0, 1, 1, 1, 1, 2]);
}

#[test]
fn permuted_entries_around_headers_give_the_same_summary() {
    let a = parse("# branch.head main\01 MM N... f\0? u.txt\0# branch.ab +1 -2\02 .D N... g\0u UU x\0").unwrap();
    let b = parse("u UU x\0# branch.head main\02 .D N... g\0? u.txt\0# branch.ab -1 +2\01 MM N... f\0").unwrap();
    assert_eq!(a.branch, b.branch);
    assert_eq!(counts(&a), counts(&b));
    assert_eq!(counts(&a), [1, 2, 1, 1, 1, 1, 1]);
}

#[test]
fn both_sides_modified_counts_staged_and_modified() {
    let s = parse("1 MM N... 100644 100644 100644 abc def file.txt").unwrap();
    assert_eq!(s.staged, 1);
    assert_eq!(s.modified, 1);
    assert_eq!(s.deleted, 0);
}

#[test]
fn worktree_only_modified_counts_modified() {
    let s = parse("1 .M N... 100644 100644 100644 abc def file.txt").unwrap();
    assert_eq!(s.staged, 0);
    assert_eq!(s.modified, 1);
}

#[test]
fn unmerged_record_ignores_trailing_fields() {
    assert_eq!(parse("u").unwrap().unmerged, 1);
    assert_eq!(parse("u ?? garbage here").unwrap().unmerged, 1);
    assert_eq!(parse("u\0u x").unwrap().unmerged, 2);
}

#[test]
fn branch_ab_without_numbers_fails() {
    assert_eq!(
        parse("# branch.ab").unwrap_err(),
        ParseError::MissingField { kind: RecordKind::BranchAb, field: 2 }
    );
    assert_eq!(
        parse("# branch.ab +1").unwrap_err(),
        ParseError::MissingField { kind: RecordKind::BranchAb, field: 3 }
    );
}

#[test]
fn full_scenario_summary() {
    let s = parse(
        "# branch.head main\0# branch.ab +2 -1\01 M. N... 100644 100644 100644 abc def file.txt\0? untracked.txt\0",
    )
    .unwrap();
    assert_eq!(s.branch, Some(String::from("main")));
    assert_eq!(counts(&s), [2, 1, 1, 0, 0, 0, 1]);
}

#[test]
fn detached_head_leaves_branch_empty() {
    let s = parse("# branch.head (detached)\0").unwrap();
    assert_eq!(s.branch, None);
}

#[test]
fn header_without_key_fails() {
    assert_eq!(
        parse("#").unwrap_err(),
        ParseError::MissingField { kind: RecordKind::Header, field: 1 }
    );
}

#[test]
fn branch_head_without_name_fails() {
    assert_eq!(
        parse("# branch.head").unwrap_err(),
        ParseError::MissingField { kind: RecordKind::BranchHead, field: 2 }
    );
}

#[test]
fn entry_without_code_fails() {
    assert_eq!(
        parse("1").unwrap_err(),
        ParseError::MissingField { kind: RecordKind::Entry, field: 1 }
    );
    assert_eq!(parse("2 M").unwrap_err(), ParseError::ShortStatusCode);
    assert_eq!(parse("1 ").unwrap_err(), ParseError::ShortStatusCode);
}

#[test]
fn bad_integers_fail() {
    assert_eq!(parse("# branch.ab x +1").unwrap_err(), ParseError::BadInteger { field: 2 });
    assert_eq!(parse("# branch.ab +1 1x").unwrap_err(), ParseError::BadInteger { field: 3 });
    assert_eq!(parse("# branch.ab + 1").unwrap_err(), ParseError::BadInteger { field: 2 });
    assert_eq!(parse("# branch.ab 1 -").unwrap_err(), ParseError::BadInteger { field: 3 });
}

#[test]
fn integer_range_is_that_of_i64() {
    let s = parse("# branch.ab -9223372036854775808 9223372036854775807").unwrap();
    assert_eq!(s.ahead, 9223372036854775808);
    assert_eq!(s.behind, 9223372036854775807);
    assert_eq!(
        parse("# branch.ab +9223372036854775808 0").unwrap_err(),
        ParseError::BadInteger { field: 2 }
    );
    assert_eq!(
        parse("# branch.ab 0 -9223372036854775809").unwrap_err(),
        ParseError::BadInteger { field: 3 }
    );
    let z = parse("# branch.ab -0000000000000000000000012 +007").unwrap();
    assert_eq!(z.ahead, 12);
    assert_eq!(z.behind, 7);
}

#[test]
fn first_malformed_record_decides_the_error() {
    assert_eq!(
        parse("? a\01\0# branch.ab").unwrap_err(),
        ParseError::MissingField { kind: RecordKind::Entry, field: 1 }
    );
}

#[test]
fn unknown_records_and_headers_are_ignored() {
    let s = parse("# branch.oid abc\0# branch.upstream origin/main\0! ignored.txt\0zzz\0#x y\0").unwrap();
    assert_eq!(s.branch, None);
    assert_eq!(counts(&s), [0; 7]);
}

#[test]
fn worktree_codes_other_than_m_and_d_count_nothing() {
    let s = parse("1 .A N... f\01 .T N... g\02 .R N... h\01 .. N... i").unwrap();
    assert_eq!(counts(&s), [0; 7]);
    let d = parse("1 AD N... f\02 RD N... g").unwrap();
    assert_eq!(d.staged, 2);
    assert_eq!(d.deleted, 2);
    assert_eq!(d.untracked, 0);
}

#[test]
fn later_headers_win() {
    let s = parse("# branch.head a\0# branch.head b\0# branch.ab +1 -1\0# branch.ab +4 -5").unwrap();
    assert_eq!(s.branch, Some(String::from("b")));
    assert_eq!(s.ahead, 4);
    assert_eq!(s.behind, 5);
    let d = parse("# branch.head a\0# branch.head (detached)").unwrap();
    assert_eq!(d.branch, None);
    let e = parse("# branch.head (detached)\0# branch.head b").unwrap();
    assert_eq!(e.branch, Some(String::from("b")));
}

#[test]
fn branch_name_is_kept_verbatim() {
    let s = parse("# branch.head feature/\u{e9}t\u{e9} extra\0").unwrap();
    assert_eq!(s.branch, Some(String::from("feature/\u{e9}t\u{e9}")));
}

#[test]
fn empty_records_are_skipped() {
    let s = parse("\0\0? a\0\0").unwrap();
    assert_eq!(s.untracked, 1);
}
