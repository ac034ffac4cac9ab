//! General properties of the parsing algorithm, stated over the
//! specification in [`crate::scan`] and proved once for all grammars and
//! argument vectors.

use vstd::prelude::*;

use crate::dict::{opt_lookup, pos_lookup, DictV, OptEntryV, PosEntryV};
use crate::messages::msg_skip_positional;
use crate::registry::{OptV, ParserV};
use crate::scan::{
    ensure_opt, find_long, find_short, long_match, opt_append, pos_bind, scan_step, spec_consume,
    spec_finalize, spec_parse, spec_scan, spec_validate, ConsumeV, LongMatchV,
};

verus! {

/// A successful lookup returns an entry carrying the identifier that was
/// looked up.
pub proof fn lemma_opt_lookup_uid(s: Seq<OptEntryV>, uid: Seq<char>)
    requires
        opt_lookup(s, uid) is Some,
    ensures
        opt_lookup(s, uid)->0.uid == uid,
    decreases s.len(),
{
    if s.len() > 0 && s[0].uid != uid {
        lemma_opt_lookup_uid(s.drop_first(), uid);
    }
}

/// The scan never changes whether help-handling was active when the
/// dictionary was created.
pub proof fn lemma_scan_use_help(
    p: ParserV,
    argv: Seq<Seq<char>>,
    i: int,
    pos_i: int,
    opts_on: bool,
    d: DictV,
)
    ensures
        spec_scan(p, argv, i, pos_i, opts_on, d).use_help == d.use_help,
    decreases argv.len() - i,
{
    if 0 <= i < argv.len() {
        let st = scan_step(p, argv, i, pos_i, opts_on, d);
        assert(st.d.use_help == d.use_help);
        let ni = if st.next_i >= argv.len() {
            argv.len() as int
        } else if st.next_i <= i {
            i + 1
        } else {
            st.next_i
        };
        lemma_scan_use_help(p, argv, ni, st.next_pos_i, st.opts_on, st.d);
    }
}

/// Validation only appends errors: the bindings, the warnings and the
/// help switch come through unchanged, and the errors only grow.
pub proof fn lemma_validate_frame(opts: Seq<OptV>, d: DictV, j: int)
    ensures
        spec_validate(opts, d, j).options == d.options,
        spec_validate(opts, d, j).positionals == d.positionals,
        spec_validate(opts, d, j).warnings == d.warnings,
        spec_validate(opts, d, j).use_help == d.use_help,
        spec_validate(opts, d, j).errors.len() >= d.errors.len(),
    decreases opts.len() - j,
{
    if 0 <= j < opts.len() {
        let o = opts[j];
        let d2 = match opt_lookup(d.options, o.uid) {
            None => d,
            Some(e) => {
                if e.values.len() < o.min_n_values {
                    crate::scan::push_error(
                        d,
                        crate::messages::msg_not_enough_values(
                            o.longname,
                            o.min_n_values as int,
                            e.values.len() as int,
                        ),
                    )
                } else if e.values.len() > o.max_n_values {
                    crate::scan::push_error(
                        d,
                        crate::messages::msg_too_many_values(
                            o.longname,
                            o.max_n_values as int,
                            e.values.len() as int,
                        ),
                    )
                } else {
                    d
                }
            },
        };
        lemma_validate_frame(opts, d2, j + 1);
    }
}

/// When validation appends no error from position `j` on, every option
/// at or after `j` that occurred satisfies its declared arity.
pub proof fn lemma_validate_checks(opts: Seq<OptV>, d: DictV, j: int, k: int)
    requires
        0 <= j <= k < opts.len(),
        spec_validate(opts, d, j).errors.len() == d.errors.len(),
        opt_lookup(d.options, opts[k].uid) is Some,
    ensures
        opts[k].min_n_values <= opt_lookup(d.options, opts[k].uid)->0.values.len(),
        opt_lookup(d.options, opts[k].uid)->0.values.len() <= opts[k].max_n_values,
    decreases opts.len() - j,
{
    let o = opts[j];
    match opt_lookup(d.options, o.uid) {
        None => {
            lemma_validate_frame(opts, d, j + 1);
            if j < k {
                lemma_validate_checks(opts, d, j + 1, k);
            }
        },
        Some(e) => {
            if e.values.len() < o.min_n_values || e.values.len() > o.max_n_values {
                lemma_validate_frame(
                    opts,
                    DictV {
                        errors: d.errors.push(
                            if e.values.len() < o.min_n_values {
                                crate::messages::msg_not_enough_values(
                                    o.longname,
                                    o.min_n_values as int,
                                    e.values.len() as int,
                                )
                            } else {
                                crate::messages::msg_too_many_values(
                                    o.longname,
                                    o.max_n_values as int,
                                    e.values.len() as int,
                                )
                            },
                        ),
                        ..d
                    },
                    j + 1,
                );
                assert(false);
            } else {
                if j < k {
                    lemma_validate_checks(opts, d, j + 1, k);
                }
            }
        },
    }
}

/// Validation of a dictionary in which no option occurred changes
/// nothing.
pub proof fn lemma_validate_no_entries(opts: Seq<OptV>, d: DictV, j: int)
    requires
        d.options.len() == 0,
    ensures
        spec_validate(opts, d, j) == d,
    decreases opts.len() - j,
{
    if 0 <= j < opts.len() {
        lemma_validate_no_entries(opts, d, j + 1);
    }
}

/// For every grammar and argument vector: when parsing reports no errors
/// and help was not requested, every declared option that occurred on
/// the command line satisfies its declared arity, with at least
/// `min_n_values` and at most `max_n_values` recorded values.
pub proof fn lemma_arity_respected(p: ParserV, argv: Seq<Seq<char>>, k: int)
    requires
        0 <= k < p.options.len(),
        spec_parse(p, argv).errors.len() == 0,
        !spec_parse(p, argv).help_requested(),
        opt_lookup(spec_parse(p, argv).options, p.options[k].uid) is Some,
    ensures
        p.options[k].min_n_values <= opt_lookup(
            spec_parse(p, argv).options,
            p.options[k].uid,
        )->0.values.len(),
        opt_lookup(spec_parse(p, argv).options, p.options[k].uid)->0.values.len()
            <= p.options[k].max_n_values,
{
    let d0 = DictV::empty(p.use_help);
    let ds = spec_scan(p, argv, 1, 0, true, d0);
    let dv = spec_validate(p.options, ds, 0);
    let d = spec_finalize(p, dv);
    lemma_scan_use_help(p, argv, 1, 0, true, d0);
    lemma_validate_frame(p.options, ds, 0);
    if p.use_help && opt_lookup(dv.options, "help"@) is Some {
        lemma_opt_lookup_uid(dv.options, "help"@);
        assert(d.options[0].uid == "help"@);
        assert(opt_lookup(d.options, "help"@) is Some);
        assert(d.help_requested());
        assert(false);
    } else if dv.errors.len() > 0 {
        assert(false);
    } else {
        assert(ds.errors.len() == 0);
        lemma_validate_checks(p.options, ds, 0, k);
    }
}

/// Parsing only the program name yields no warnings and no errors, for
/// every grammar.
pub proof fn lemma_empty_invocation_clean(p: ParserV, argv: Seq<Seq<char>>)
    requires
        argv.len() == 1,
    ensures
        spec_parse(p, argv).errors.len() == 0,
        spec_parse(p, argv).warnings.len() == 0,
{
    let d0 = DictV::empty(p.use_help);
    let ds = spec_scan(p, argv, 1, 0, true, d0);
    assert(ds == d0);
    lemma_validate_no_entries(p.options, ds, 0);
}

/// When help-handling is active and the result reports the help option,
/// the result exposes only the help entry: no positionals, no warnings,
/// no errors, and exactly one option entry, the help one.
pub proof fn lemma_help_overrides(p: ParserV, argv: Seq<Seq<char>>)
    requires
        spec_parse(p, argv).help_requested(),
    ensures
        spec_parse(p, argv).positionals.len() == 0,
        spec_parse(p, argv).warnings.len() == 0,
        spec_parse(p, argv).errors.len() == 0,
        spec_parse(p, argv).options.len() == 1,
        spec_parse(p, argv).options[0].uid == "help"@,
{
    let d0 = DictV::empty(p.use_help);
    let ds = spec_scan(p, argv, 1, 0, true, d0);
    let dv = spec_validate(p.options, ds, 0);
    let d = spec_finalize(p, dv);
    lemma_scan_use_help(p, argv, 1, 0, true, d0);
    lemma_validate_frame(p.options, ds, 0);
    if p.use_help && opt_lookup(dv.options, "help"@) is Some {
        lemma_opt_lookup_uid(dv.options, "help"@);
    } else if dv.errors.len() > 0 {
        assert(d.options.len() == 0);
        assert(opt_lookup(d.options, "help"@) is None);
        assert(false);
    } else {
        assert(d == dv);
        assert(d.use_help == p.use_help);
        assert(opt_lookup(d.options, "help"@) is Some);
        assert(false);
    }
}

/// Diagnostics are never exposed alongside partial results: when the
/// returned dictionary carries any error, it carries no positional and
/// no option binding.
pub proof fn lemma_errors_void_bindings(p: ParserV, argv: Seq<Seq<char>>)
    requires
        spec_parse(p, argv).errors.len() > 0,
    ensures
        spec_parse(p, argv).positionals.len() == 0,
        spec_parse(p, argv).options.len() == 0,
{
    let d0 = DictV::empty(p.use_help);
    let ds = spec_scan(p, argv, 1, 0, true, d0);
    let dv = spec_validate(p.options, ds, 0);
    if p.use_help && opt_lookup(dv.options, "help"@) is Some {
        assert(spec_parse(p, argv).errors.len() == 0);
    } else if dv.errors.len() > 0 {
    } else {
        assert(spec_parse(p, argv).errors.len() == 0);
    }
}

/// A single positional declaration bound to one input token
/// round-trips: the raw token is recorded verbatim under the declared
/// identifier, with no warnings and no errors.
pub proof fn lemma_positional_round_trip(p: ParserV, argv: Seq<Seq<char>>)
    requires
        argv.len() == 2,
        p.positionals.len() == 1,
        argv[1].len() == 0 || argv[1][0] != '-',
    ensures
        spec_parse(p, argv).errors.len() == 0,
        spec_parse(p, argv).warnings.len() == 0,
        pos_lookup(spec_parse(p, argv).positionals, p.positionals[0].uid) == Some(
            PosEntryV {
                uid: p.positionals[0].uid,
                index: p.positionals[0].index,
                value: argv[1],
            },
        ),
{
    let d0 = DictV::empty(p.use_help);
    let pd = p.positionals[0];
    let e = PosEntryV { uid: pd.uid, index: pd.index, value: argv[1] };
    let st = scan_step(p, argv, 1, 0, true, d0);
    assert(st.d == pos_bind(d0, pd.uid, pd.index, argv[1]));
    assert(st.d.positionals =~= seq![e]);
    let ds = spec_scan(p, argv, 1, 0, true, d0);
    assert(ds == spec_scan(p, argv, 2, 1, true, st.d));
    assert(ds == st.d);
    assert(ds.options.len() == 0);
    lemma_validate_no_entries(p.options, ds, 0);
    let dv = spec_validate(p.options, ds, 0);
    assert(opt_lookup(dv.options, "help"@) is None);
    assert(spec_parse(p, argv) == dv);
    assert(pos_lookup(dv.positionals, pd.uid) == Some(e));
}

/// A flag option (no values) is present with an empty value list whether
/// invoked by its short or by its long form, and the two invocations
/// yield the same result.
pub proof fn lemma_flag_short_long_equivalent(p: ParserV, prog: Seq<char>, c: char)
    requires
        p.options.len() == 1,
        p.options[0].min_n_values == 0,
        p.options[0].max_n_values == 0,
        p.options[0].shortname == seq![c],
        c != '-',
        p.options[0].longname.len() > 0,
    ensures
        ({
            let o = p.options[0];
            let d1 = spec_parse(p, seq![prog, seq!['-', c]]);
            let d2 = spec_parse(p, seq![prog, seq!['-', '-'] + o.longname]);
            &&& d1 == d2
            &&& d1.errors.len() == 0
            &&& d1.warnings.len() == 0
            &&& opt_lookup(d1.options, o.uid) == Some(
                OptEntryV {
                    uid: o.uid,
                    shortname: o.shortname,
                    longname: o.longname,
                    values: Seq::<Seq<char>>::empty(),
                },
            )
        }),
{
    let o = p.options[0];
    let e = OptEntryV {
        uid: o.uid,
        shortname: o.shortname,
        longname: o.longname,
        values: Seq::<Seq<char>>::empty(),
    };
    let d0 = DictV::empty(p.use_help);
    let dd = DictV {
        use_help: p.use_help,
        positionals: Seq::empty(),
        options: seq![e],
        warnings: Seq::empty(),
        errors: Seq::empty(),
    };

    let argv1 = seq![prog, seq!['-', c]];
    let t1 = argv1[1];
    assert(t1.len() == 2 && t1[0] == '-' && t1[1] == c);
    assert(find_short(p.options, c) == Some(0int));
    let st1 = scan_step(p, argv1, 1, 0, true, d0);
    assert(st1.d == ensure_opt(d0, o));
    assert(st1.d =~= dd);
    let ds1 = spec_scan(p, argv1, 1, 0, true, d0);
    assert(ds1 == spec_scan(p, argv1, 2, 0, true, st1.d));
    assert(ds1 == st1.d);
    assert(opt_lookup(ds1.options, o.uid) == Some(e));
    assert(spec_validate(p.options, ds1, 1) == ds1);
    assert(spec_validate(p.options, ds1, 0) == ds1);
    if p.use_help && opt_lookup(ds1.options, "help"@) is Some {
        if e.uid == "help"@ {
            assert(opt_lookup(ds1.options, "help"@) == Some(e));
        } else {
            assert(forall|q: int| 0 <= q < ds1.options.len() ==> ds1.options[q].uid != "help"@);
            crate::dict::lemma_opt_not_found(ds1.options, "help"@);
        }
        assert(spec_parse(p, argv1) =~= dd);
    } else {
        assert(spec_parse(p, argv1) == ds1);
        assert(spec_parse(p, argv1) =~= dd);
    }

    let argv2 = seq![prog, seq!['-', '-'] + o.longname];
    let t2 = argv2[1];
    assert(t2.len() == 2 + o.longname.len());
    assert(t2[0] == '-' && t2[1] == '-');
    let larg = t2.subrange(2, t2.len() as int);
    assert(larg =~= o.longname);
    assert(larg.subrange(0, o.longname.len() as int) =~= o.longname);
    assert(long_match(o, larg) is Exact);
    assert(find_long(p.options, larg) == Some(0int));
    let st2 = scan_step(p, argv2, 1, 0, true, d0);
    assert(st2.d == ensure_opt(d0, o));
    assert(st2.d =~= dd);
    let ds2 = spec_scan(p, argv2, 1, 0, true, d0);
    assert(ds2 == spec_scan(p, argv2, 2, 0, true, st2.d));
    assert(ds2 == st2.d);
    assert(opt_lookup(ds2.options, o.uid) == Some(e));
    assert(spec_validate(p.options, ds2, 1) == ds2);
    assert(spec_validate(p.options, ds2, 0) == ds2);
    if p.use_help && opt_lookup(ds2.options, "help"@) is Some {
        if e.uid == "help"@ {
            assert(opt_lookup(ds2.options, "help"@) == Some(e));
        } else {
            assert(forall|q: int| 0 <= q < ds2.options.len() ==> ds2.options[q].uid != "help"@);
            crate::dict::lemma_opt_not_found(ds2.options, "help"@);
        }
        assert(spec_parse(p, argv2) =~= dd);
    } else {
        assert(spec_parse(p, argv2) == ds2);
        assert(spec_parse(p, argv2) =~= dd);
    }
}

/// Consuming values from a stretch of plain tokens (none of them
/// option-looking) takes every token, in order, when the budget allows.
pub proof fn lemma_consume_plain(argv: Seq<Seq<char>>, j: int, budget: int, opts_on: bool, dd: bool)
    requires
        0 <= j <= argv.len(),
        argv.len() - j <= budget,
        forall|q: int|
            j <= q < argv.len() ==> ((#[trigger] argv[q]).len() == 0 || argv[q][0] != '-'),
    ensures
        spec_consume(argv, j, budget, opts_on, dd) == (ConsumeV {
            eaten: (argv.len() - j) as nat,
            values: argv.subrange(j, argv.len() as int),
            opts_on,
        }),
    decreases argv.len() - j,
{
    if j < argv.len() {
        lemma_consume_plain(argv, j + 1, budget - 1, opts_on, dd);
        assert(seq![argv[j]] + argv.subrange(j + 1, argv.len() as int) =~= argv.subrange(
            j,
            argv.len() as int,
        ));
        assert(spec_consume(argv, j, budget, opts_on, dd) =~= (ConsumeV {
            eaten: (argv.len() - j) as nat,
            values: argv.subrange(j, argv.len() as int),
            opts_on,
        }));
    } else {
        assert(argv.subrange(j, argv.len() as int) =~= Seq::<Seq<char>>::empty());
        assert(spec_consume(argv, j, budget, opts_on, dd) =~= (ConsumeV {
            eaten: 0,
            values: argv.subrange(j, argv.len() as int),
            opts_on,
        }));
    }
}

/// An option invoked with any number of plain values the arity accepts
/// succeeds: no errors, no warnings, and exactly those values recorded
/// in order.
pub proof fn lemma_values_within_arity_accepted(p: ParserV, prog: Seq<char>, vals: Seq<Seq<char>>)
    requires
        p.options.len() == 1,
        p.options[0].longname.len() > 0,
        p.options[0].min_n_values <= vals.len(),
        vals.len() <= p.options[0].max_n_values,
        forall|q: int| 0 <= q < vals.len() ==> ((#[trigger] vals[q]).len() == 0 || vals[q][0] != '-'),
    ensures
        ({
            let o = p.options[0];
            let d = spec_parse(p, seq![prog, seq!['-', '-'] + o.longname] + vals);
            &&& d.errors.len() == 0
            &&& d.warnings.len() == 0
            &&& opt_lookup(d.options, o.uid) == Some(
                OptEntryV {
                    uid: o.uid,
                    shortname: o.shortname,
                    longname: o.longname,
                    values: vals,
                },
            )
        }),
{
    let o = p.options[0];
    let e0 = OptEntryV {
        uid: o.uid,
        shortname: o.shortname,
        longname: o.longname,
        values: Seq::<Seq<char>>::empty(),
    };
    let e = OptEntryV { values: vals, ..e0 };
    let d0 = DictV::empty(p.use_help);
    let argv = seq![prog, seq!['-', '-'] + o.longname] + vals;
    assert(argv.len() == 2 + vals.len());
    let t = argv[1];
    assert(t =~= seq!['-', '-'] + o.longname);
    assert(t.len() == 2 + o.longname.len());
    assert(t[0] == '-' && t[1] == '-');
    let larg = t.subrange(2, t.len() as int);
    assert(larg =~= o.longname);
    assert(larg.subrange(0, o.longname.len() as int) =~= o.longname);
    assert(long_match(o, larg) is Exact);
    assert(find_long(p.options, larg) == Some(0int));
    let d1 = ensure_opt(d0, o);
    assert(d1.options =~= seq![e0]);
    assert(opt_lookup(d1.options, o.uid) == Some(e0));
    let dd = DictV {
        use_help: p.use_help,
        positionals: Seq::empty(),
        options: seq![e],
        warnings: Seq::empty(),
        errors: Seq::empty(),
    };
    let st = scan_step(p, argv, 1, 0, true, d0);
    if o.max_n_values > 0 {
        assert forall|q: int|
            2 <= q < argv.len() implies ((#[trigger] argv[q]).len() == 0 || argv[q][0]
            != '-') by {
            assert(argv[q] == vals[q - 2]);
        }
        lemma_consume_plain(argv, 2, o.max_n_values as int, true, p.use_double_dash);
        assert(argv.subrange(2, argv.len() as int) =~= vals);
        assert(st.d == opt_append(d1, o.uid, vals));
        assert(crate::dict::opt_index_of(d1.options, o.uid) == 0);
        assert(st.d.options =~= seq![OptEntryV { values: Seq::<Seq<char>>::empty() + vals, ..e0 }]);
        assert(Seq::<Seq<char>>::empty() + vals =~= vals);
        assert(st.d =~= dd);
        assert(st.next_i == 2 + vals.len());
    } else {
        assert(vals.len() == 0);
        assert(st.d == d1);
        assert(e =~= e0);
        assert(st.d =~= dd);
        assert(st.next_i == 2);
    }
    let ds = spec_scan(p, argv, 1, 0, true, d0);
    assert(ds == spec_scan(p, argv, 2 + vals.len() as int, 0, st.opts_on, st.d));
    assert(ds == st.d);
    assert(ds =~= dd);
    assert(opt_lookup(ds.options, o.uid) == Some(e));
    assert(spec_validate(p.options, ds, 1) == ds);
    assert(spec_validate(p.options, ds, 0) == ds);
    if p.use_help && opt_lookup(ds.options, "help"@) is Some {
        if e.uid == "help"@ {
            assert(opt_lookup(ds.options, "help"@) == Some(e));
        } else {
            assert(forall|q: int| 0 <= q < ds.options.len() ==> ds.options[q].uid != "help"@);
            crate::dict::lemma_opt_not_found(ds.options, "help"@);
        }
        assert(spec_parse(p, argv) =~= dd);
    } else {
        assert(spec_parse(p, argv) == ds);
    }
    assert(spec_parse(p, argv) =~= dd);
}

/// Mixed short and long repeated invocations of one option concatenate
/// their values in left-to-right token order.
pub proof fn lemma_repeated_invocations_concatenate(
    p: ParserV,
    prog: Seq<char>,
    a: Seq<char>,
    b: Seq<char>,
    c: char,
)
    requires
        p.options.len() == 1,
        p.options[0].shortname == seq![c],
        c != '-',
        p.options[0].longname.len() > 0,
        p.options[0].min_n_values <= 2,
        2 <= p.options[0].max_n_values,
        a.len() == 0 || a[0] != '-',
        b.len() == 0 || b[0] != '-',
    ensures
        ({
            let o = p.options[0];
            let d = spec_parse(p, seq![prog, seq!['-', '-'] + o.longname, a, seq!['-', c], b]);
            &&& d.errors.len() == 0
            &&& d.warnings.len() == 0
            &&& opt_lookup(d.options, o.uid) == Some(
                OptEntryV {
                    uid: o.uid,
                    shortname: o.shortname,
                    longname: o.longname,
                    values: seq![a, b],
                },
            )
        }),
{
    let o = p.options[0];
    let argv = seq![prog, seq!['-', '-'] + o.longname, a, seq!['-', c], b];
    let d0 = DictV::empty(p.use_help);
    let e0 = OptEntryV {
        uid: o.uid,
        shortname: o.shortname,
        longname: o.longname,
        values: Seq::<Seq<char>>::empty(),
    };
    let e1 = OptEntryV { values: seq![a], ..e0 };
    let e2 = OptEntryV { values: seq![a, b], ..e0 };

    // first token: the long form with one following value
    let t1 = argv[1];
    assert(t1.len() == 2 + o.longname.len());
    assert(t1[0] == '-' && t1[1] == '-');
    let larg = t1.subrange(2, t1.len() as int);
    assert(larg =~= o.longname);
    assert(larg.subrange(0, o.longname.len() as int) =~= o.longname);
    assert(long_match(o, larg) is Exact);
    assert(find_long(p.options, larg) == Some(0int));
    let d1 = ensure_opt(d0, o);
    assert(d1.options =~= seq![e0]);
    assert(opt_lookup(d1.options, o.uid) == Some(e0));
    let budget1 = o.max_n_values - 0;
    assert(argv[3].len() == 2 && argv[3][0] == '-' && argv[3][1] == c);
    let c2 = spec_consume(argv, 3, budget1 - 1, true, p.use_double_dash);
    assert(c2 == (ConsumeV { eaten: 0, values: Seq::<Seq<char>>::empty(), opts_on: true }));
    let c1 = spec_consume(argv, 2, budget1, true, p.use_double_dash);
    assert(c1.eaten == 1 && c1.opts_on);
    assert(c1.values =~= seq![a]);
    let st1 = scan_step(p, argv, 1, 0, true, d0);
    assert(st1.d == opt_append(d1, o.uid, c1.values));
    assert(crate::dict::opt_index_of(d1.options, o.uid) == 0);
    assert(Seq::<Seq<char>>::empty() + c1.values =~= seq![a]);
    assert(st1.d.options =~= seq![e1]);
    assert(st1.next_i == 3 && st1.opts_on && st1.next_pos_i == 0);

    // second token: the short form with one following value
    let t3 = argv[3];
    assert(find_short(p.options, c) == Some(0int));
    assert(opt_lookup(st1.d.options, o.uid) == Some(e1));
    let d3 = ensure_opt(st1.d, o);
    assert(d3 == st1.d);
    let budget2 = o.max_n_values - 1;
    let c4 = spec_consume(argv, 5, budget2 - 1, true, p.use_double_dash);
    assert(c4 == (ConsumeV { eaten: 0, values: Seq::<Seq<char>>::empty(), opts_on: true }));
    let c3 = spec_consume(argv, 4, budget2, true, p.use_double_dash);
    assert(c3.eaten == 1 && c3.opts_on);
    assert(c3.values =~= seq![b]);
    let st2 = scan_step(p, argv, 3, 0, true, st1.d);
    assert(st2.d == opt_append(d3, o.uid, c3.values));
    assert(crate::dict::opt_index_of(d3.options, o.uid) == 0);
    assert(seq![a] + c3.values =~= seq![a, b]);
    assert(st2.d.options =~= seq![e2]);
    assert(st2.next_i == 5 && st2.opts_on && st2.next_pos_i == 0);

    let dd = DictV {
        use_help: p.use_help,
        positionals: Seq::empty(),
        options: seq![e2],
        warnings: Seq::empty(),
        errors: Seq::empty(),
    };
    assert(st2.d =~= dd);
    let ds = spec_scan(p, argv, 1, 0, true, d0);
    assert(ds == spec_scan(p, argv, 3, 0, true, st1.d));
    assert(spec_scan(p, argv, 3, 0, true, st1.d) == spec_scan(p, argv, 5, 0, true, st2.d));
    assert(spec_scan(p, argv, 5, 0, true, st2.d) == st2.d);
    assert(ds =~= dd);
    assert(opt_lookup(ds.options, o.uid) == Some(e2));
    assert(spec_validate(p.options, ds, 1) == ds);
    assert(spec_validate(p.options, ds, 0) == ds);
    if p.use_help && opt_lookup(ds.options, "help"@) is Some {
        if e2.uid == "help"@ {
            assert(opt_lookup(ds.options, "help"@) == Some(e2));
        } else {
            assert(forall|q: int| 0 <= q < ds.options.len() ==> ds.options[q].uid != "help"@);
            crate::dict::lemma_opt_not_found(ds.options, "help"@);
        }
        assert(spec_parse(p, argv) =~= dd);
    } else {
        assert(spec_parse(p, argv) == ds);
    }
    assert(spec_parse(p, argv) =~= dd);
}

/// The warnings a stretch of positional tokens produces: one skip
/// message per token classified beyond the declared count, in order.
pub open spec fn skip_msgs(plen: int, argv: Seq<Seq<char>>, i: int, pos_i: int) -> Seq<Seq<char>>
    decreases argv.len() - i,
{
    if i < 0 || i >= argv.len() {
        Seq::empty()
    } else if pos_i >= plen {
        seq![msg_skip_positional(argv[i], pos_i)] + skip_msgs(plen, argv, i + 1, pos_i + 1)
    } else {
        skip_msgs(plen, argv, i + 1, pos_i + 1)
    }
}

/// Scanning a stretch of plain tokens (none of them option-looking)
/// touches no option entry, produces no error, and appends exactly the
/// skip warnings.
proof fn lemma_scan_positionals(
    p: ParserV,
    argv: Seq<Seq<char>>,
    i: int,
    pos_i: int,
    opts_on: bool,
    d: DictV,
)
    requires
        1 <= i <= argv.len(),
        0 <= pos_i,
        forall|q: int|
            i <= q < argv.len() ==> ((#[trigger] argv[q]).len() == 0 || argv[q][0] != '-'),
    ensures
        spec_scan(p, argv, i, pos_i, opts_on, d).errors == d.errors,
        spec_scan(p, argv, i, pos_i, opts_on, d).options == d.options,
        spec_scan(p, argv, i, pos_i, opts_on, d).warnings == d.warnings + skip_msgs(
            p.positionals.len() as int,
            argv,
            i,
            pos_i,
        ),
    decreases argv.len() - i,
{
    let plen = p.positionals.len() as int;
    if i < argv.len() {
        let st = scan_step(p, argv, i, pos_i, opts_on, d);
        assert(st.next_i == i + 1 && st.next_pos_i == pos_i + 1 && st.opts_on == opts_on);
        lemma_scan_positionals(p, argv, i + 1, pos_i + 1, opts_on, st.d);
        if pos_i >= plen {
            assert(st.d.warnings == d.warnings.push(msg_skip_positional(argv[i], pos_i)));
            assert(d.warnings.push(msg_skip_positional(argv[i], pos_i)) + skip_msgs(
                plen,
                argv,
                i + 1,
                pos_i + 1,
            ) =~= d.warnings + skip_msgs(plen, argv, i, pos_i));
        } else {
            assert(st.d.warnings == d.warnings);
            assert(skip_msgs(plen, argv, i + 1, pos_i + 1) == skip_msgs(plen, argv, i, pos_i));
        }
    } else {
        assert(skip_msgs(plen, argv, i, pos_i) =~= Seq::<Seq<char>>::empty());
        assert(d.warnings + Seq::<Seq<char>>::empty() =~= d.warnings);
    }
}

/// Shape of the skip warnings: one per token past the declared count,
/// naming the token and its positional index, in order.
proof fn lemma_skip_msgs_shape(plen: int, argv: Seq<Seq<char>>, i: int, pos_i: int)
    requires
        0 <= i <= argv.len(),
        0 <= pos_i,
        plen >= 0,
        argv.len() - i >= (if plen > pos_i {
            plen - pos_i
        } else {
            0
        }),
    ensures
        ({
            let need = if plen > pos_i {
                plen - pos_i
            } else {
                0
            };
            &&& skip_msgs(plen, argv, i, pos_i).len() == (argv.len() - i) - need
            &&& forall|w: int|
                0 <= w < (argv.len() - i) - need ==> skip_msgs(plen, argv, i, pos_i)[w]
                    == msg_skip_positional(argv[i + need + w], pos_i + need + w)
        }),
    decreases argv.len() - i,
{
    let need = if plen > pos_i {
        plen - pos_i
    } else {
        0
    };
    if i < argv.len() {
        lemma_skip_msgs_shape(plen, argv, i + 1, pos_i + 1);
        let tail = skip_msgs(plen, argv, i + 1, pos_i + 1);
        let whole = skip_msgs(plen, argv, i, pos_i);
        let need2 = if plen > pos_i + 1 {
            plen - pos_i - 1
        } else {
            0
        };
        if pos_i >= plen {
            assert(whole == seq![msg_skip_positional(argv[i], pos_i)] + tail);
            assert(whole.len() == 1 + tail.len());
            assert forall|w: int|
                0 <= w < (argv.len() - i) - need implies whole[w] == msg_skip_positional(
                argv[i + need + w],
                pos_i + need + w,
            ) by {
                if w == 0 {
                    assert(whole[0] == msg_skip_positional(argv[i], pos_i));
                } else {
                    assert(whole[w] == tail[w - 1]);
                }
            }
        } else {
            assert(whole == tail);
            assert(need2 == need - 1);
            assert forall|w: int|
                0 <= w < (argv.len() - i) - need implies whole[w] == msg_skip_positional(
                argv[i + need + w],
                pos_i + need + w,
            ) by {
                assert(whole[w] == tail[w]);
                assert(tail[w] == msg_skip_positional(
                    argv[i + 1 + need2 + w],
                    pos_i + 1 + need2 + w,
                ));
            }
        }
    }
}

/// Unregistered positionals beyond the declared count produce exactly
/// one warning per extra token, in order, naming each skipped token and
/// its index, and no errors.
pub proof fn lemma_extra_positionals_warn(p: ParserV, argv: Seq<Seq<char>>)
    requires
        argv.len() >= 1,
        forall|q: int|
            1 <= q < argv.len() ==> ((#[trigger] argv[q]).len() == 0 || argv[q][0] != '-'),
        argv.len() - 1 >= p.positionals.len(),
    ensures
        spec_parse(p, argv).errors.len() == 0,
        spec_parse(p, argv).warnings.len() == (argv.len() - 1) - p.positionals.len(),
        forall|w: int|
            0 <= w < (argv.len() - 1) - p.positionals.len() ==> spec_parse(p, argv).warnings[w]
                == msg_skip_positional(
                argv[1 + p.positionals.len() + w],
                p.positionals.len() + w,
            ),
{
    let plen = p.positionals.len() as int;
    let d0 = DictV::empty(p.use_help);
    let ds = spec_scan(p, argv, 1, 0, true, d0);
    lemma_scan_positionals(p, argv, 1, 0, true, d0);
    lemma_skip_msgs_shape(plen, argv, 1, 0);
    assert(ds.warnings =~= skip_msgs(plen, argv, 1, 0));
    assert(ds.options.len() == 0);
    lemma_validate_no_entries(p.options, ds, 0);
    let dv = spec_validate(p.options, ds, 0);
    assert(opt_lookup(dv.options, "help"@) is None);
    assert(spec_parse(p, argv) == dv);
}

/// Scanning a stretch of option-looking tokens, none of which is the
/// end-of-options marker, against a grammar with no declared options
/// yields exactly one error per token, no warnings and no bindings.
proof fn lemma_scan_unknown(p: ParserV, argv: Seq<Seq<char>>, i: int, pos_i: int, d: DictV)
    requires
        p.options.len() == 0,
        1 <= i <= argv.len(),
        forall|q: int|
            i <= q < argv.len() ==> (#[trigger] argv[q]).len() >= 1 && argv[q][0] == '-' && !(
            p.use_double_dash && argv[q].len() == 2 && argv[q][1] == '-'),
    ensures
        spec_scan(p, argv, i, pos_i, true, d).errors.len() == d.errors.len() + (argv.len() - i),
        spec_scan(p, argv, i, pos_i, true, d).warnings == d.warnings,
        spec_scan(p, argv, i, pos_i, true, d).options == d.options,
        spec_scan(p, argv, i, pos_i, true, d).positionals == d.positionals,
    decreases argv.len() - i,
{
    if i < argv.len() {
        let t = argv[i];
        let st = scan_step(p, argv, i, pos_i, true, d);
        if t.len() >= 2 {
            assert(find_short(p.options, t[1]) is None);
            assert(find_long(p.options, t.subrange(2, t.len() as int)) is None);
        }
        assert(st.next_i == i + 1 && st.next_pos_i == pos_i && st.opts_on);
        assert(st.d.errors.len() == d.errors.len() + 1);
        assert(st.d.warnings == d.warnings && st.d.options == d.options && st.d.positionals
            == d.positionals);
        lemma_scan_unknown(p, argv, i + 1, pos_i, st.d);
    }
}

/// Unknown option tokens each produce exactly one error and never abort
/// the scan: with no options declared, every option-looking token yields
/// one error, and no warnings arise.
pub proof fn lemma_unknown_options_each_error(p: ParserV, argv: Seq<Seq<char>>)
    requires
        argv.len() >= 1,
        p.options.len() == 0,
        forall|q: int|
            1 <= q < argv.len() ==> (#[trigger] argv[q]).len() >= 1 && argv[q][0] == '-' && !(
            p.use_double_dash && argv[q].len() == 2 && argv[q][1] == '-'),
    ensures
        spec_parse(p, argv).errors.len() == argv.len() - 1,
        spec_parse(p, argv).warnings.len() == 0,
{
    let d0 = DictV::empty(p.use_help);
    let ds = spec_scan(p, argv, 1, 0, true, d0);
    lemma_scan_unknown(p, argv, 1, 0, d0);
    assert(ds.options.len() == 0);
    lemma_validate_no_entries(p.options, ds, 0);
    let dv = spec_validate(p.options, ds, 0);
    assert(opt_lookup(dv.options, "help"@) is None);
}

} // verus!
