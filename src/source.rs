//! What the status command is asked for: the untracked-files mode that the
//! configuration value selects.
use vstd::prelude::*;

use crate::text::{chars_of, piece_end, range_is, split};

verus! {

/// The mode that a configuration value names, if it names one.
pub open spec fn mode_named(v: Seq<char>) -> Option<Seq<char>> {
    if v == "all"@ {
        Some("all"@)
    } else if v == "normal"@ || v == "yes"@ || v == "true"@ || v == "1"@ {
        Some("normal"@)
    } else if v == "no"@ || v == "false"@ || v == "0"@ {
        Some("no"@)
    } else {
        None
    }
}

/// The mode to ask for, given the configuration lookup's output where the
/// lookup succeeded: the mode its first `'\0'`-separated value names, else `all`.
pub open spec fn untracked_mode(config: Option<Seq<char>>) -> Seq<char> {
    match config {
        Some(c) => match mode_named(split(c, '\0')[0]) {
            Some(m) => m,
            None => "all"@,
        },
        None => "all"@,
    }
}

/// The untracked-files mode to pass to the status command. `config` is the
/// output of the configuration lookup, or `None` where the lookup failed.
pub fn untracked_files_mode(config: Option<String>) -> (r: &'static str)
    ensures
        r@ == untracked_mode(
            match config {
                Some(c) => Some(c@),
                None => None,
            },
        ),
{
    match config {
        None => "all",
        Some(c) => {
            let t = chars_of(c.as_str());
            let e = piece_end(&t, '\0', 0, t.len());
            assert(t@.subrange(0, t@.len() as int) =~= c@);
            assert(split(c@, '\0')[0] == t@.subrange(0, e as int));
            if range_is(&t, 0, e, "all") {
                "all"
            } else if range_is(&t, 0, e, "normal") || range_is(&t, 0, e, "yes") || range_is(
                &t,
                0,
                e,
                "true",
            ) || range_is(&t, 0, e, "1") {
                "normal"
            } else if range_is(&t, 0, e, "no") || range_is(&t, 0, e, "false") || range_is(
                &t,
                0,
                e,
                "0",
            ) {
                "no"
            } else {
                "all"
            }
        },
    }
}

} // verus!
