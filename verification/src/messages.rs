//! The exact texts of the diagnostics the scanner collects, as spec-level
//! sequences with verified executable builders.

use vstd::prelude::*;
use vstd::string::StringExecFns;

use crate::text::{dec_str, spec_dec};

verus! {

/// Error for a bare `-` token.
pub open spec fn msg_missing_char() -> Seq<char> {
    "Missing character after '-'."@
}

/// Error for a token that looks like an option but matches none, with a
/// hint towards `--help` when help-handling is active.
pub open spec fn msg_unknown_option(token: Seq<char>, use_help: bool) -> Seq<char> {
    "Unknown option '"@ + token + "'"@ + (if use_help {
        "; use '--help' to see an overview of accepted options."@
    } else {
        Seq::<char>::empty()
    })
}

/// Error for a value attached to a short option that takes no values.
pub open spec fn msg_short_cannot_accept(shortname: Seq<char>, attached: Seq<char>) -> Seq<char> {
    "Option '-"@ + shortname + "' cannot accept values (is passed '"@ + attached + "')."@
}

/// Error for a value attached to a short option that takes more than one
/// value.
pub open spec fn msg_short_attached_limit(shortname: Seq<char>, max: int) -> Seq<char> {
    "Passing a value immediately after an option is only supported for options with at most 1 value ('-"@
        + shortname + "' has at most "@ + spec_dec(max) + ")."@
}

/// Error for a value attached to a long option that takes no values.
pub open spec fn msg_long_cannot_accept(longname: Seq<char>, attached: Seq<char>) -> Seq<char> {
    "Option '--"@ + longname + "' cannot accept values (is passed '"@ + attached + "')."@
}

/// Error for a value attached to a long option that takes more than one
/// value.
pub open spec fn msg_long_attached_limit(longname: Seq<char>, max: int) -> Seq<char> {
    "Passing a value immediately after an option is only supported for options with at most 1 value ('--"@
        + longname + "' has at most "@ + spec_dec(max) + ")."@
}

/// Warning for a positional token beyond the declared count.
pub open spec fn msg_skip_positional(token: Seq<char>, index: int) -> Seq<char> {
    "Skipping positional '"@ + token + "' (index "@ + spec_dec(index) + ")..."@
}

/// Error for an option that occurred with fewer values than it requires.
pub open spec fn msg_not_enough_values(longname: Seq<char>, min: int, got: int) -> Seq<char> {
    "Not enough values for '--"@ + longname + "': expected at least "@ + spec_dec(min) + ", got "@
        + spec_dec(got) + "."@
}

/// Error for an option that occurred with more values than it accepts.
pub open spec fn msg_too_many_values(longname: Seq<char>, max: int, got: int) -> Seq<char> {
    "Too many values for '--"@ + longname + "': expected at most "@ + spec_dec(max) + ", got "@
        + spec_dec(got) + "."@
}

pub(crate) fn build_missing_char() -> (r: String)
    ensures
        r@ == msg_missing_char(),
{
    String::from_str("Missing character after '-'.")
}

pub(crate) fn build_unknown_option(token: &str, use_help: bool) -> (r: String)
    ensures
        r@ == msg_unknown_option(token@, use_help),
{
    let mut s = String::from_str("Unknown option '");
    s.append(token);
    s.append("'");
    if use_help {
        s.append("; use '--help' to see an overview of accepted options.");
    }
    proof {
        assert(s@ =~= msg_unknown_option(token@, use_help));
    }
    s
}

pub(crate) fn build_short_cannot_accept(shortname: &str, attached: &str) -> (r: String)
    ensures
        r@ == msg_short_cannot_accept(shortname@, attached@),
{
    let mut s = String::from_str("Option '-");
    s.append(shortname);
    s.append("' cannot accept values (is passed '");
    s.append(attached);
    s.append("').");
    proof {
        assert(s@ =~= msg_short_cannot_accept(shortname@, attached@));
    }
    s
}

pub(crate) fn build_short_attached_limit(shortname: &str, max: usize) -> (r: String)
    ensures
        r@ == msg_short_attached_limit(shortname@, max as int),
{
    let mut s = String::from_str(
        "Passing a value immediately after an option is only supported for options with at most 1 value ('-",
    );
    s.append(shortname);
    s.append("' has at most ");
    let n = dec_str(max);
    s.append(n.as_str());
    s.append(").");
    proof {
        assert(s@ =~= msg_short_attached_limit(shortname@, max as int));
    }
    s
}

pub(crate) fn build_long_cannot_accept(longname: &str, attached: &str) -> (r: String)
    ensures
        r@ == msg_long_cannot_accept(longname@, attached@),
{
    let mut s = String::from_str("Option '--");
    s.append(longname);
    s.append("' cannot accept values (is passed '");
    s.append(attached);
    s.append("').");
    proof {
        assert(s@ =~= msg_long_cannot_accept(longname@, attached@));
    }
    s
}

pub(crate) fn build_long_attached_limit(longname: &str, max: usize) -> (r: String)
    ensures
        r@ == msg_long_attached_limit(longname@, max as int),
{
    let mut s = String::from_str(
        "Passing a value immediately after an option is only supported for options with at most 1 value ('--",
    );
    s.append(longname);
    s.append("' has at most ");
    let n = dec_str(max);
    s.append(n.as_str());
    s.append(").");
    proof {
        assert(s@ =~= msg_long_attached_limit(longname@, max as int));
    }
    s
}

pub(crate) fn build_skip_positional(token: &str, index: usize) -> (r: String)
    ensures
        r@ == msg_skip_positional(token@, index as int),
{
    let mut s = String::from_str("Skipping positional '");
    s.append(token);
    s.append("' (index ");
    let n = dec_str(index);
    s.append(n.as_str());
    s.append(")...");
    proof {
        assert(s@ =~= msg_skip_positional(token@, index as int));
    }
    s
}

pub(crate) fn build_not_enough_values(longname: &str, min: usize, got: usize) -> (r: String)
    ensures
        r@ == msg_not_enough_values(longname@, min as int, got as int),
{
    let mut s = String::from_str("Not enough values for '--");
    s.append(longname);
    s.append("': expected at least ");
    let n = dec_str(min);
    s.append(n.as_str());
    s.append(", got ");
    let g = dec_str(got);
    s.append(g.as_str());
    s.append(".");
    proof {
        assert(s@ =~= msg_not_enough_values(longname@, min as int, got as int));
    }
    s
}

pub(crate) fn build_too_many_values(longname: &str, max: usize, got: usize) -> (r: String)
    ensures
        r@ == msg_too_many_values(longname@, max as int, got as int),
{
    let mut s = String::from_str("Too many values for '--");
    s.append(longname);
    s.append("': expected at most ");
    let n = dec_str(max);
    s.append(n.as_str());
    s.append(", got ");
    let g = dec_str(got);
    s.append(g.as_str());
    s.append(".");
    proof {
        assert(s@ =~= msg_too_many_values(longname@, max as int, got as int));
    }
    s
}

} // verus!
