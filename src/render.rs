//! The prompt fragment: the branch, the divergence from upstream and the
//! per-category counts, with terminal color and weight escapes, each escape
//! wrapped in the shell's zero-width markers.
use vstd::prelude::*;

use crate::status::{GitStatus, Summary};
use crate::text::{chars_of, range_is};

verus! {

/// The shell whose prompt the fragment is embedded in.
#[derive(Clone, Copy, Debug, PartialEq, Eq, Structural)]
pub enum Shell {
    Unknown,
    Bash,
    Zsh,
}

/// The shell named by the command-line argument `arg`.
pub open spec fn shell_named(arg: Option<Seq<char>>) -> Shell {
    match arg {
        Some(a) => if a == "bash"@ {
            Shell::Bash
        } else if a == "zsh"@ {
            Shell::Zsh
        } else {
            Shell::Unknown
        },
        None => Shell::Unknown,
    }
}

impl Shell {
    /// The shell named by the command-line argument `arg`: `bash`, `zsh`, or
    /// anything else (or nothing) for no wrapping.
    pub fn from_arg(arg: Option<&str>) -> (r: Shell)
        ensures
            r == shell_named(
                match arg {
                    Some(a) => Some(a@),
                    None => None,
                },
            ),
    {
        match arg {
            Some(a) => {
                let t = chars_of(a);
                if range_is(&t, 0, t.len(), "bash") {
                    assert(t@.subrange(0, t@.len() as int) =~= a@);
                    Shell::Bash
                } else if range_is(&t, 0, t.len(), "zsh") {
                    assert(t@.subrange(0, t@.len() as int) =~= a@);
                    Shell::Zsh
                } else {
                    assert(t@.subrange(0, t@.len() as int) =~= a@);
                    Shell::Unknown
                }
            },
            None => Shell::Unknown,
        }
    }
}

/// The marker that opens a zero-width stretch in the shell's prompt.
pub open spec fn start_marker(sh: Shell) -> Seq<char> {
    match sh {
        Shell::Bash => "\\["@,
        Shell::Zsh => "%{"@,
        Shell::Unknown => Seq::empty(),
    }
}

/// The marker that closes a zero-width stretch in the shell's prompt.
pub open spec fn end_marker(sh: Shell) -> Seq<char> {
    match sh {
        Shell::Bash => "\\]"@,
        Shell::Zsh => "%}"@,
        Shell::Unknown => Seq::empty(),
    }
}

/// The opening zero-width marker of `shell`.
pub fn escape_start(shell: Shell) -> (r: &'static str)
    ensures
        r@ == start_marker(shell),
{
    match shell {
        Shell::Bash => "\\[",
        Shell::Zsh => "%{",
        Shell::Unknown => {
            proof {
                reveal_strlit("");
            }
            ""
        },
    }
}

/// The closing zero-width marker of `shell`.
pub fn escape_end(shell: Shell) -> (r: &'static str)
    ensures
        r@ == end_marker(shell),
{
    match shell {
        Shell::Bash => "\\]",
        Shell::Zsh => "%}",
        Shell::Unknown => {
            proof {
                reveal_strlit("");
            }
            ""
        },
    }
}

/// The decimal digit with value `d`.
pub open spec fn digit_char(d: nat) -> char {
    seq!['0', '1', '2', '3', '4', '5', '6', '7', '8', '9'][d as int]
}

/// `n` in decimal, without leading zeros.
pub open spec fn decimal_text(n: nat) -> Seq<char>
    decreases n,
{
    if n < 10 {
        seq![digit_char(n)]
    } else {
        decimal_text(n / 10) + seq![digit_char(n % 10)]
    }
}

fn digit_str(d: u64) -> (r: &'static str)
    requires
        d < 10,
    ensures
        r@ == seq![digit_char(d as nat)],
{
    proof {
        reveal_strlit("0");
        reveal_strlit("1");
        reveal_strlit("2");
        reveal_strlit("3");
        reveal_strlit("4");
        reveal_strlit("5");
        reveal_strlit("6");
        reveal_strlit("7");
        reveal_strlit("8");
        reveal_strlit("9");
    }
    let r = match d {
        0 => "0",
        1 => "1",
        2 => "2",
        3 => "3",
        4 => "4",
        5 => "5",
        6 => "6",
        7 => "7",
        8 => "8",
        _ => "9",
    };
    assert(r@ =~= seq![digit_char(d as nat)]);
    r
}

/// `n` written in decimal.
pub fn decimal(n: u64) -> (r: String)
    ensures
        r@ == decimal_text(n as nat),
    decreases n,
{
    if n < 10 {
        String::from_str(digit_str(n))
    } else {
        let mut s = decimal(n / 10);
        s.append(digit_str(n % 10));
        s
    }
}

/// The escape that sets the foreground to indexed color `c`, or back to
/// the default where `c` is negative, inside the shell's markers.
pub open spec fn color_text(sh: Shell, c: int) -> Seq<char> {
    start_marker(sh) + (if c >= 0 {
        "\x1b[38;5;"@ + decimal_text(c as nat) + "m"@
    } else {
        "\x1b[39m"@
    }) + end_marker(sh)
}

/// The escape that turns bold on or off, inside the shell's markers.
pub open spec fn bold_text(sh: Shell, b: bool) -> Seq<char> {
    start_marker(sh) + (if b {
        "\x1b[1m"@
    } else {
        "\x1b[22m"@
    }) + end_marker(sh)
}

/// The escape for foreground color `c` (the default color where `c` is
/// negative), wrapped for `shell`.
pub fn color(shell: Shell, c: i32) -> (r: String)
    ensures
        r@ == color_text(shell, c as int),
{
    let mut s = String::from_str(escape_start(shell));
    if c >= 0 {
        s.append("\x1b[38;5;");
        let d = decimal(c as u64);
        s.append(d.as_str());
        s.append("m");
    } else {
        s.append("\x1b[39m");
    }
    s.append(escape_end(shell));
    assert(s@ =~= color_text(shell, c as int));
    s
}

/// The escape that turns bold on (`b`) or off, wrapped for `shell`.
pub fn bold(shell: Shell, b: bool) -> (r: String)
    ensures
        r@ == bold_text(shell, b),
{
    let mut s = String::from_str(escape_start(shell));
    if b {
        s.append("\x1b[1m");
    } else {
        s.append("\x1b[22m");
    }
    s.append(escape_end(shell));
    assert(s@ =~= bold_text(shell, b));
    s
}

/// `mark` and `n` in decimal, or nothing where `n` is zero.
pub open spec fn count_text(mark: Seq<char>, n: nat) -> Seq<char> {
    if n != 0 {
        mark + decimal_text(n)
    } else {
        Seq::empty()
    }
}

/// Color `c`, `mark` and `n` in decimal, or nothing where `n` is zero.
pub open spec fn colored_count_text(sh: Shell, c: int, mark: Seq<char>, n: nat) -> Seq<char> {
    if n != 0 {
        color_text(sh, c) + mark + decimal_text(n)
    } else {
        Seq::empty()
    }
}

/// The number of file entries the summary counts, over all categories.
pub open spec fn file_total(s: Summary) -> nat {
    s.untracked + s.modified + s.deleted + s.unmerged + s.staged
}

/// The branch part of the fragment: the branch name in bold bright white,
/// or `:HEAD` for a detached head.
pub open spec fn branch_text(s: Summary, sh: Shell) -> Seq<char> {
    color_text(sh, 15) + bold_text(sh, true) + (match s.branch {
        Some(b) => b,
        None => ":HEAD"@,
    }) + bold_text(sh, false) + color_text(sh, -1)
}

/// The per-category part of the fragment: a `|` where any file entry is
/// counted, then untracked, modified, deleted, unmerged and staged counts,
/// each in its own color, leaving out those that are zero.
pub open spec fn files_text(s: Summary, sh: Shell) -> Seq<char> {
    (if file_total(s) > 0 {
        "|"@
    } else {
        Seq::empty()
    }) + colored_count_text(sh, 2, "+"@, s.untracked) + colored_count_text(
        sh,
        5,
        "~"@,
        s.modified,
    ) + colored_count_text(sh, 1, "-"@, s.deleted) + colored_count_text(sh, 3, "x"@, s.unmerged)
        + colored_count_text(sh, 4, "\u{2022}"@, s.staged)
}

/// The whole prompt fragment for summary `s` in shell `sh`.
pub open spec fn rendered(s: Summary, sh: Shell) -> Seq<char> {
    "("@ + branch_text(s, sh) + count_text("\u{2191}"@, s.ahead) + count_text("\u{2193}"@, s.behind)
        + files_text(s, sh) + color_text(sh, -1) + ")"@
}

fn append_count(out: &mut String, mark: &str, n: u64)
    ensures
        final(out)@ == old(out)@ + count_text(mark@, n as nat),
{
    if n != 0 {
        out.append(mark);
        let d = decimal(n);
        out.append(d.as_str());
        assert(final(out)@ =~= old(out)@ + count_text(mark@, n as nat));
    } else {
        assert(out@ =~= old(out)@ + count_text(mark@, n as nat));
    }
}

fn append_colored_count(out: &mut String, shell: Shell, c: i32, mark: &str, n: u64)
    ensures
        final(out)@ == old(out)@ + colored_count_text(shell, c as int, mark@, n as nat),
{
    if n != 0 {
        let e = color(shell, c);
        out.append(e.as_str());
        out.append(mark);
        let d = decimal(n);
        out.append(d.as_str());
        assert(final(out)@ =~= old(out)@ + colored_count_text(shell, c as int, mark@, n as nat));
    } else {
        assert(out@ =~= old(out)@ + colored_count_text(shell, c as int, mark@, n as nat));
    }
}

fn append_branch(out: &mut String, status: &GitStatus, shell: Shell)
    ensures
        final(out)@ == old(out)@ + branch_text(status@, shell),
{
    let e = color(shell, 15);
    out.append(e.as_str());
    let e = bold(shell, true);
    out.append(e.as_str());
    match &status.branch {
        Some(b) => out.append(b.as_str()),
        None => out.append(":HEAD"),
    }
    let e = bold(shell, false);
    out.append(e.as_str());
    let e = color(shell, -1);
    out.append(e.as_str());
    assert(final(out)@ =~= old(out)@ + branch_text(status@, shell));
}

fn append_files(out: &mut String, status: &GitStatus, shell: Shell)
    ensures
        final(out)@ == old(out)@ + files_text(status@, shell),
{
    let ghost s = status@;
    if status.untracked != 0 || status.modified != 0 || status.deleted != 0 || status.unmerged != 0
        || status.staged != 0 {
        out.append("|");
    }
    let ghost bar = out@;
    assert(bar =~= old(out)@ + (if file_total(s) > 0 {
        "|"@
    } else {
        Seq::empty()
    }));
    append_colored_count(out, shell, 2, "+", status.untracked);
    append_colored_count(out, shell, 5, "~", status.modified);
    append_colored_count(out, shell, 1, "-", status.deleted);
    append_colored_count(out, shell, 3, "x", status.unmerged);
    append_colored_count(out, shell, 4, "\u{2022}", status.staged);
    assert(final(out)@ =~= old(out)@ + files_text(s, shell));
}

/// The prompt fragment for `status`, with escapes wrapped for `shell`.
pub fn render(status: &GitStatus, shell: Shell) -> (r: String)
    ensures
        r@ == rendered(status@, shell),
{
    let ghost s = status@;
    let mut out = String::from_str("(");
    append_branch(&mut out, status, shell);
    append_count(&mut out, "\u{2191}", status.ahead);
    append_count(&mut out, "\u{2193}", status.behind);
    append_files(&mut out, status, shell);
    let e = color(shell, -1);
    out.append(e.as_str());
    out.append(")");
    assert(out@ =~= rendered(s, shell));
    out
}

/// With every file counter zero, the fragment has no `|` and no category
/// counts.
pub proof fn lemma_clean_tree_no_counts(s: Summary, sh: Shell)
    requires
        s.untracked == 0,
        s.modified == 0,
        s.deleted == 0,
        s.unmerged == 0,
        s.staged == 0,
    ensures
        files_text(s, sh) == Seq::<char>::empty(),
{
    assert(files_text(s, sh) =~= Seq::<char>::empty());
}

} // verus!
