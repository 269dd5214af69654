use gitprompt::render::{bold, color, decimal, escape_end, escape_start, render, Shell};
use gitprompt::source::untracked_files_mode;
use gitprompt::status::parse_porcelain2;

fn position(hay: &str, needle: &str, from: usize) -> usize {
    from + hay[from..].find(needle).expect("segment missing")
}

#[test]
fn full_scenario_renders_segments_in_order() {
    let s = parse_porcelain2(String::from(
        "# branch.head main\0# branch.ab +2 -1\01 M. N... 100644 100644 100644 abc def file.txt\0? untracked.txt\0",
    ))
    .unwrap();
    let out = render(&s, Shell::Unknown);
    let mut at = 0;
    for seg in ["main", "\u{2191}2", "\u{2193}1", "|", "+1", "\u{2022}1"] {
        at = position(&out, seg, at) + seg.len();
    }
    assert!(!out.contains('~'));
    assert!(!out.contains('-'));
    assert!(!out.contains('x'));
}

#[test]
fn detached_head_renders_head_marker() {
    let s = parse_porcelain2(String::from("# branch.head (detached)\0")).unwrap();
    assert!(render(&s, Shell::Bash).contains(":HEAD"));
}

#[test]
fn clean_tree_renders_no_counts() {
    let s = parse_porcelain2(String::from("# branch.head main\0# branch.ab +0 -0\0")).unwrap();
    let out = render(&s, Shell::Unknown);
    assert!(!out.contains('|'));
    assert_eq!(out, "(\x1b[38;5;15m\x1b[1mmain\x1b[22m\x1b[39m\x1b[39m)");
}

#[test]
fn render_exact_fragment() {
    let s = parse_porcelain2(String::from(
        "# branch.head dev\0# branch.ab +12 -0\0? a\01 .M x\01 MD y\0u UU z\0",
    ))
    .unwrap();
    let out = render(&s, Shell::Unknown);
    assert_eq!(
        out,
        "(\x1b[38;5;15m\x1b[1mdev\x1b[22m\x1b[39m\u{2191}12|\x1b[38;5;2m+1\x1b[38;5;5m~1\x1b[38;5;1m-1\x1b[38;5;3mx1\x1b[38;5;4m\u{2022}1\x1b[39m)"
    );
}

#[test]
fn zsh_wraps_every_escape() {
    let s = parse_porcelain2(String::from("# branch.head (detached)\0# branch.ab +0 -3")).unwrap();
    let out = render(&s, Shell::Zsh);
    assert_eq!(
        out,
        "(%{\x1b[38;5;15m%}%{\x1b[1m%}:HEAD%{\x1b[22m%}%{\x1b[39m%}\u{2193}3%{\x1b[39m%})"
    );
}

#[test]
fn shell_markers() {
    assert_eq!(escape_start(Shell::Bash), "\\[");
    assert_eq!(escape_end(Shell::Bash), "\\]");
    assert_eq!(escape_start(Shell::Zsh), "%{");
    assert_eq!(escape_end(Shell::Zsh), "%}");
    assert_eq!(escape_start(Shell::Unknown), "");
    assert_eq!(escape_end(Shell::Unknown), "");
}

#[test]
fn color_and_bold_escapes() {
    assert_eq!(color(Shell::Unknown, 15), "\x1b[38;5;15m");
    assert_eq!(color(Shell::Unknown, 0), "\x1b[38;5;0m");
    assert_eq!(color(Shell::Unknown, -1), "\x1b[39m");
    assert_eq!(color(Shell::Bash, 4), "\\[\x1b[38;5;4m\\]");
    assert_eq!(bold(Shell::Unknown, true), "\x1b[1m");
    assert_eq!(bold(Shell::Zsh, false), "%{\x1b[22m%}");
}

#[test]
fn decimal_digits() {
    assert_eq!(decimal(0), "0");
    assert_eq!(decimal(7), "7");
    assert_eq!(decimal(10), "10");
    assert_eq!(decimal(1234567890), "1234567890");
    assert_eq!(decimal(u64::MAX), "18446744073709551615");
}

#[test]
fn shell_from_argument() {
    assert_eq!(Shell::from_arg(Some("bash")), Shell::Bash);
    assert_eq!(Shell::from_arg(Some("zsh")), Shell::Zsh);
    assert_eq!(Shell::from_arg(Some("fish")), Shell::Unknown);
    assert_eq!(Shell::from_arg(Some("bash ")), Shell::Unknown);
    assert_eq!(Shell::from_arg(None), Shell::Unknown);
}

#[test]
fn untracked_mode_from_configuration() {
    assert_eq!(untracked_files_mode(None), "all");
    assert_eq!(untracked_files_mode(Some(String::from("all\0"))), "all");
    for v in ["normal", "yes", "true", "1"] {
        assert_eq!(untracked_files_mode(Some(format!("{}\0", v))), "normal");
    }
    for v in ["no", "false", "0"] {
        assert_eq!(untracked_files_mode(Some(String::from(v))), "no");
    }
    assert_eq!(untracked_files_mode(Some(String::from("maybe\0"))), "all");
    assert_eq!(untracked_files_mode(Some(String::from(""))), "all");
    assert_eq!(untracked_files_mode(Some(String::from("no\0all"))), "no");
}
