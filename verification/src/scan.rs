//! The scanning algorithm, as a specification: one left-to-right walk
//! over the argument vector that classifies each token, consumes option
//! values, tracks the end-of-options marker and accumulates results and
//! diagnostics.  [`spec_parse`] is the contract of [`ArgParser::parse`].

use vstd::prelude::*;

use crate::dict::{opt_lookup, DictV, OptEntryV, PosEntryV};
use crate::dict::{opt_index_of, pos_index_of};
use crate::messages::{
    msg_long_attached_limit, msg_long_cannot_accept, msg_missing_char, msg_not_enough_values,
    msg_short_attached_limit, msg_short_cannot_accept, msg_skip_positional, msg_too_many_values,
    msg_unknown_option,
};
use crate::registry::{OptV, ParserV};

verus! {

/// Outcome of consuming following tokens as values for one option: how
/// many tokens the walk passed over, the values taken, and whether option
/// parsing is still enabled afterwards.
#[verifier::ext_equal]
pub struct ConsumeV {
    pub eaten: nat,
    pub values: Seq<Seq<char>>,
    pub opts_on: bool,
}

/// Walks forward from token `j`, taking tokens verbatim as values until
/// `budget` values were taken, the token list is exhausted, or (while
/// option parsing is enabled) an option-looking token is reached.  A bare
/// `--` met on the way, with the marker enabled, permanently disables
/// option parsing and is passed over without counting as a value.
pub open spec fn spec_consume(
    argv: Seq<Seq<char>>,
    j: int,
    budget: int,
    opts_on: bool,
    dd: bool,
) -> ConsumeV
    decreases argv.len() - j,
{
    if j < 0 || j >= argv.len() || budget <= 0 {
        ConsumeV { eaten: 0, values: Seq::empty(), opts_on }
    } else {
        let t = argv[j];
        if opts_on && t.len() > 0 && t[0] == '-' {
            if dd && t.len() == 2 && t[1] == '-' {
                let rest = spec_consume(argv, j + 1, budget, false, dd);
                ConsumeV { eaten: rest.eaten + 1, values: rest.values, opts_on: rest.opts_on }
            } else {
                ConsumeV { eaten: 0, values: Seq::empty(), opts_on }
            }
        } else {
            let rest = spec_consume(argv, j + 1, budget - 1, opts_on, dd);
            ConsumeV {
                eaten: rest.eaten + 1,
                values: seq![t] + rest.values,
                opts_on: rest.opts_on,
            }
        }
    }
}

/// The walk never passes the end of the token list.
pub proof fn lemma_consume_eaten_bound(
    argv: Seq<Seq<char>>,
    j: int,
    budget: int,
    opts_on: bool,
    dd: bool,
)
    requires
        0 <= j <= argv.len(),
    ensures
        spec_consume(argv, j, budget, opts_on, dd).eaten <= argv.len() - j,
        spec_consume(argv, j, budget, opts_on, dd).values.len() <= spec_consume(
            argv,
            j,
            budget,
            opts_on,
            dd,
        ).eaten,
    decreases argv.len() - j,
{
    if j < argv.len() && budget > 0 {
        let t = argv[j];
        if opts_on && t.len() > 0 && t[0] == '-' {
            if dd && t.len() == 2 && t[1] == '-' {
                lemma_consume_eaten_bound(argv, j + 1, budget, false, dd);
            }
        } else {
            lemma_consume_eaten_bound(argv, j + 1, budget - 1, opts_on, dd);
        }
    }
}

/// The index of the first declared option whose short name is exactly the
/// given character, if any.
pub open spec fn find_short(opts: Seq<OptV>, c: char) -> Option<int>
    decreases opts.len(),
{
    if opts.len() == 0 {
        None
    } else if opts[0].shortname == seq![c] {
        Some(0)
    } else {
        match find_short(opts.drop_first(), c) {
            None => None,
            Some(i) => Some(i + 1),
        }
    }
}

/// How one declared option relates to the remainder of a `--` token: no
/// match, an exact long-name match, or a long-name match carrying a value
/// attached after `=`.
pub enum LongMatchV {
    NoMatch,
    Exact,
    Attached(Seq<char>),
}

/// Matches the remainder of a `--` token against one declared option: the
/// long name must be an exact prefix, followed by nothing or by `=` and
/// the attached value.  A longer remainder without the `=` is no match.
pub open spec fn long_match(o: OptV, larg: Seq<char>) -> LongMatchV {
    if larg.len() < o.longname.len() {
        LongMatchV::NoMatch
    } else if larg.subrange(0, o.longname.len() as int) != o.longname {
        LongMatchV::NoMatch
    } else if larg.len() == o.longname.len() {
        LongMatchV::Exact
    } else if larg[o.longname.len() as int] != '=' {
        LongMatchV::NoMatch
    } else {
        LongMatchV::Attached(larg.subrange(o.longname.len() as int + 1, larg.len() as int))
    }
}

/// The index of the first declared option that the remainder of a `--`
/// token matches, if any.
pub open spec fn find_long(opts: Seq<OptV>, larg: Seq<char>) -> Option<int>
    decreases opts.len(),
{
    if opts.len() == 0 {
        None
    } else if !(long_match(opts[0], larg) is NoMatch) {
        Some(0)
    } else {
        match find_long(opts.drop_first(), larg) {
            None => None,
            Some(i) => Some(i + 1),
        }
    }
}

/// Appends an error to the accumulated dictionary.
pub open spec fn push_error(d: DictV, m: Seq<char>) -> DictV {
    DictV { errors: d.errors.push(m), ..d }
}

/// Appends a warning to the accumulated dictionary.
pub open spec fn push_warning(d: DictV, m: Seq<char>) -> DictV {
    DictV { warnings: d.warnings.push(m), ..d }
}

/// Records an occurrence of the given option with no values yet, unless
/// an entry for it already exists.
pub open spec fn ensure_opt(d: DictV, o: OptV) -> DictV {
    if opt_lookup(d.options, o.uid) is Some {
        d
    } else {
        DictV {
            options: d.options.push(
                OptEntryV {
                    uid: o.uid,
                    shortname: o.shortname,
                    longname: o.longname,
                    values: Seq::empty(),
                },
            ),
            ..d
        }
    }
}

/// The number of values recorded so far for the given identifier.
pub open spec fn opt_count(d: DictV, uid: Seq<char>) -> int {
    match opt_lookup(d.options, uid) {
        Some(e) => e.values.len() as int,
        None => 0,
    }
}

/// Appends values to the entry recorded for the given identifier, which
/// must exist.
pub open spec fn opt_append(d: DictV, uid: Seq<char>, vs: Seq<Seq<char>>) -> DictV {
    let k = opt_index_of(d.options, uid);
    if k < d.options.len() {
        let e = d.options[k];
        DictV { options: d.options.update(k, OptEntryV { values: e.values + vs, ..e }), ..d }
    } else {
        d
    }
}

/// Binds a positional to the raw token it consumed, overwriting an
/// earlier binding with the same identifier.
pub open spec fn pos_bind(d: DictV, uid: Seq<char>, index: nat, value: Seq<char>) -> DictV {
    let e = PosEntryV { uid, index, value };
    let k = pos_index_of(d.positionals, uid);
    if k < d.positionals.len() {
        DictV { positionals: d.positionals.update(k, e), ..d }
    } else {
        DictV { positionals: d.positionals.push(e), ..d }
    }
}

/// Outcome of handling one option token: the index of the next token to
/// classify, whether option parsing is still enabled, and the new
/// accumulated dictionary.
#[verifier::ext_equal]
pub struct OptStepV {
    pub next_i: int,
    pub opts_on: bool,
    pub d: DictV,
}

/// Handles a short-option token (entered with option parsing enabled):
/// matches the character after `-` against the declared short names,
/// checks the legality of a value attached in the same token, and
/// otherwise consumes following tokens as values up to what the arity
/// still allows.
pub open spec fn scan_short(p: ParserV, argv: Seq<Seq<char>>, i: int, d: DictV) -> OptStepV {
    let t = argv[i];
    match find_short(p.options, t[1]) {
        None => OptStepV {
            next_i: i + 1,
            opts_on: true,
            d: push_error(d, msg_unknown_option(t, p.use_help)),
        },
        Some(k) => {
            let o = p.options[k];
            if t.len() > 2 {
                if o.max_n_values == 0 {
                    OptStepV {
                        next_i: i + 1,
                        opts_on: true,
                        d: push_error(
                            d,
                            msg_short_cannot_accept(o.shortname, t.subrange(2, t.len() as int)),
                        ),
                    }
                } else if o.max_n_values > 1 {
                    OptStepV {
                        next_i: i + 1,
                        opts_on: true,
                        d: push_error(
                            d,
                            msg_short_attached_limit(o.shortname, o.max_n_values as int),
                        ),
                    }
                } else {
                    let d1 = ensure_opt(d, o);
                    OptStepV {
                        next_i: i + 1,
                        opts_on: true,
                        d: opt_append(d1, o.uid, seq![t.subrange(2, t.len() as int)]),
                    }
                }
            } else {
                let d1 = ensure_opt(d, o);
                if o.max_n_values > 0 {
                    let budget = o.max_n_values - opt_count(d1, o.uid);
                    let c = spec_consume(argv, i + 1, budget, true, p.use_double_dash);
                    OptStepV {
                        next_i: i + 1 + c.eaten,
                        opts_on: c.opts_on,
                        d: opt_append(d1, o.uid, c.values),
                    }
                } else {
                    OptStepV { next_i: i + 1, opts_on: true, d: d1 }
                }
            }
        },
    }
}

/// Handles a long-option token (entered with option parsing enabled):
/// matches the remainder after `--` against the declared long names,
/// checks the legality of a value attached after `=`, and otherwise
/// consumes following tokens as values up to what the arity still allows.
pub open spec fn scan_long(p: ParserV, argv: Seq<Seq<char>>, i: int, d: DictV) -> OptStepV {
    let t = argv[i];
    let larg = t.subrange(2, t.len() as int);
    match find_long(p.options, larg) {
        None => OptStepV {
            next_i: i + 1,
            opts_on: true,
            d: push_error(d, msg_unknown_option(t, p.use_help)),
        },
        Some(k) => {
            let o = p.options[k];
            match long_match(o, larg) {
                LongMatchV::Attached(v) => {
                    if o.max_n_values == 0 {
                        OptStepV {
                            next_i: i + 1,
                            opts_on: true,
                            d: push_error(d, msg_long_cannot_accept(o.longname, v)),
                        }
                    } else if o.max_n_values > 1 {
                        OptStepV {
                            next_i: i + 1,
                            opts_on: true,
                            d: push_error(
                                d,
                                msg_long_attached_limit(o.longname, o.max_n_values as int),
                            ),
                        }
                    } else {
                        let d1 = ensure_opt(d, o);
                        OptStepV {
                            next_i: i + 1,
                            opts_on: true,
                            d: opt_append(d1, o.uid, seq![v]),
                        }
                    }
                },
                _ => {
                    // An exact long-name match; `find_long` never returns
                    // an index whose match is `NoMatch`.
                    let d1 = ensure_opt(d, o);
                    if o.max_n_values > 0 {
                        let budget = o.max_n_values - opt_count(d1, o.uid);
                        let c = spec_consume(argv, i + 1, budget, true, p.use_double_dash);
                        OptStepV {
                            next_i: i + 1 + c.eaten,
                            opts_on: c.opts_on,
                            d: opt_append(d1, o.uid, c.values),
                        }
                    } else {
                        OptStepV { next_i: i + 1, opts_on: true, d: d1 }
                    }
                },
            }
        },
    }
}

/// Outcome of classifying one token: where the scan continues, the next
/// expected positional slot, whether option parsing is still enabled, and
/// the new accumulated dictionary.
#[verifier::ext_equal]
pub struct StepV {
    pub next_i: int,
    pub next_pos_i: int,
    pub opts_on: bool,
    pub d: DictV,
}

/// Classifies the token at index `i`, in priority order: the lone `-`,
/// the end-of-options marker, a short option, a long option, and
/// otherwise a positional.
pub open spec fn scan_step(
    p: ParserV,
    argv: Seq<Seq<char>>,
    i: int,
    pos_i: int,
    opts_on: bool,
    d: DictV,
) -> StepV {
    let t = argv[i];
    if opts_on && t.len() > 0 && t[0] == '-' {
        if t.len() == 1 {
            StepV {
                next_i: i + 1,
                next_pos_i: pos_i,
                opts_on,
                d: push_error(d, msg_missing_char()),
            }
        } else if p.use_double_dash && t.len() == 2 && t[1] == '-' {
            StepV { next_i: i + 1, next_pos_i: pos_i, opts_on: false, d }
        } else if t[1] != '-' || (!p.use_double_dash && t.len() == 2) {
            let st = scan_short(p, argv, i, d);
            StepV { next_i: st.next_i, next_pos_i: pos_i, opts_on: st.opts_on, d: st.d }
        } else {
            let st = scan_long(p, argv, i, d);
            StepV { next_i: st.next_i, next_pos_i: pos_i, opts_on: st.opts_on, d: st.d }
        }
    } else {
        if pos_i >= p.positionals.len() {
            StepV {
                next_i: i + 1,
                next_pos_i: pos_i + 1,
                opts_on,
                d: push_warning(d, msg_skip_positional(t, pos_i)),
            }
        } else {
            let pd = p.positionals[pos_i];
            StepV {
                next_i: i + 1,
                next_pos_i: pos_i + 1,
                opts_on,
                d: pos_bind(d, pd.uid, pd.index, t),
            }
        }
    }
}

/// Runs the scan from token `i` to the end of the argument vector,
/// threading the positional cursor, the option-parsing switch and the
/// accumulated dictionary through each step.
pub open spec fn spec_scan(
    p: ParserV,
    argv: Seq<Seq<char>>,
    i: int,
    pos_i: int,
    opts_on: bool,
    d: DictV,
) -> DictV
    decreases argv.len() - i,
{
    if i < 0 || i >= argv.len() {
        d
    } else {
        let st = scan_step(p, argv, i, pos_i, opts_on, d);
        let ni = if st.next_i >= argv.len() {
            argv.len() as int
        } else if st.next_i <= i {
            i + 1
        } else {
            st.next_i
        };
        spec_scan(p, argv, ni, st.next_pos_i, st.opts_on, st.d)
    }
}

/// Post-scan validation: for every declared option that occurred, checks
/// the recorded value count against the declared arity and appends one
/// error per violation, in declaration order.
pub open spec fn spec_validate(opts: Seq<OptV>, d: DictV, j: int) -> DictV
    decreases opts.len() - j,
{
    if j < 0 || j >= opts.len() {
        d
    } else {
        let o = opts[j];
        let d2 = match opt_lookup(d.options, o.uid) {
            None => d,
            Some(e) => {
                if e.values.len() < o.min_n_values {
                    push_error(
                        d,
                        msg_not_enough_values(o.longname, o.min_n_values as int, e.values.len() as int),
                    )
                } else if e.values.len() > o.max_n_values {
                    push_error(
                        d,
                        msg_too_many_values(o.longname, o.max_n_values as int, e.values.len() as int),
                    )
                } else {
                    d
                }
            },
        };
        spec_validate(opts, d2, j + 1)
    }
}

/// Finalization: when help-handling is active and the help option was
/// given, everything but the help entry is cleared; otherwise, when any
/// error was collected, all bindings are cleared and the diagnostics are
/// kept.
pub open spec fn spec_finalize(p: ParserV, d: DictV) -> DictV {
    if p.use_help && opt_lookup(d.options, "help"@) is Some {
        DictV {
            use_help: d.use_help,
            positionals: Seq::empty(),
            options: seq![opt_lookup(d.options, "help"@)->0],
            warnings: Seq::empty(),
            errors: Seq::empty(),
        }
    } else if d.errors.len() > 0 {
        DictV { positionals: Seq::empty(), options: Seq::empty(), ..d }
    } else {
        d
    }
}

/// The whole parse: scan the tokens after the program name, validate the
/// arity of every option that occurred, and finalize.
pub open spec fn spec_parse(p: ParserV, argv: Seq<Seq<char>>) -> DictV {
    spec_finalize(
        p,
        spec_validate(p.options, spec_scan(p, argv, 1, 0, true, DictV::empty(p.use_help)), 0),
    )
}

} // verus!
