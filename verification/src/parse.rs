//! The executable scanner: one left-to-right pass over the argument
//! vector, verified against the specification in [`crate::scan`].

use vstd::prelude::*;
use vstd::string::StrSliceExecFns;
use vstd::string::StringExecFns;

use crate::dict::{
    lemma_opt_first_index, lemma_opt_not_found, lemma_pos_first_index, lemma_pos_not_found,
    ArgDict, OptEntry, OptEntryV, PosEntry, PosEntryV,
};
use crate::dict::opt_index_of;
use crate::dict::DictV;
use crate::messages::{
    build_long_attached_limit, build_long_cannot_accept, build_missing_char,
    build_not_enough_values, build_short_attached_limit, build_short_cannot_accept,
    build_skip_positional, build_too_many_values, build_unknown_option,
};
use crate::registry::{ArgParser, Opt, OptV};
use crate::scan::{
    ensure_opt, find_long, find_short, long_match, opt_append, opt_count, pos_bind, push_error,
    push_warning, scan_long, scan_short, scan_step, spec_consume, spec_finalize, spec_parse,
    spec_scan, spec_validate,
};
use crate::scan::{lemma_consume_eaten_bound, ConsumeV};
use crate::text::str_eq;

verus! {

/// The ghost view of an argument vector: each raw string as its sequence
/// of characters.
pub open spec fn argv_view(args: Seq<String>) -> Seq<Seq<char>> {
    args.map_values(|s: String| s@)
}

pub(crate) fn dict_push_error(dict: &mut ArgDict, m: String)
    ensures
        final(dict)@ == push_error(old(dict)@, m@),
{
    dict.errors.push(m);
    proof {
        assert(dict@ =~= push_error(old(dict)@, m@));
    }
}

pub(crate) fn dict_push_warning(dict: &mut ArgDict, m: String)
    ensures
        final(dict)@ == push_warning(old(dict)@, m@),
{
    dict.warnings.push(m);
    proof {
        assert(dict@ =~= push_warning(old(dict)@, m@));
    }
}

/// Records an occurrence of `o` unless one exists, and returns the index
/// of its (first) entry.
pub(crate) fn ensure_opt_idx(dict: &mut ArgDict, o: &Opt) -> (k: usize)
    ensures
        final(dict)@ == ensure_opt(old(dict)@, o@),
        k < final(dict).options.len(),
        final(dict)@.options.len() == final(dict).options.len(),
        opt_index_of(final(dict)@.options, o@.uid) == k as int,
        final(dict)@.options[k as int].uid == o@.uid,
        crate::dict::opt_lookup(final(dict)@.options, o@.uid) == Some(
            final(dict)@.options[k as int],
        ),
{
    let n = dict.options.len();
    let mut j: usize = 0;
    while j < n
        invariant
            n == dict.options.len(),
            j <= n,
            *dict == *old(dict),
            forall|q: int| 0 <= q < j ==> dict@.options[q].uid != o@.uid,
        decreases n - j,
    {
        if str_eq(dict.options[j].uid.as_str(), o.uid.as_str()) {
            proof {
                assert(dict@.options[j as int].uid == o@.uid);
                lemma_opt_first_index(dict@.options, o@.uid, j as int);
            }
            return j;
        }
        j += 1;
    }
    proof {
        lemma_opt_not_found(dict@.options, o@.uid);
    }
    dict.options.push(
        OptEntry {
            uid: o.uid.clone(),
            shortname: o.shortname.clone(),
            longname: o.longname.clone(),
            values: Vec::new(),
        },
    );
    proof {
        let e = OptEntryV {
            uid: o@.uid,
            shortname: o@.shortname,
            longname: o@.longname,
            values: Seq::empty(),
        };
        assert(dict@.options[n as int] =~= e);
        assert(dict@.options =~= old(dict)@.options.push(e));
        assert(dict@ =~= ensure_opt(old(dict)@, o@));
        assert forall|q: int| 0 <= q < n implies dict@.options[q].uid != o@.uid by {
            assert(dict@.options[q] == old(dict)@.options[q]);
        }
        lemma_opt_first_index(dict@.options, o@.uid, n as int);
    }
    n
}

/// Appends values to the entry at index `k`, which must be the first
/// entry for its identifier.
pub(crate) fn opt_append_at(dict: &mut ArgDict, k: usize, vs: Vec<String>)
    requires
        k < old(dict).options.len(),
        old(dict)@.options.len() == old(dict).options.len(),
        opt_index_of(old(dict)@.options, old(dict)@.options[k as int].uid) == k as int,
    ensures
        final(dict)@ == opt_append(
            old(dict)@,
            old(dict)@.options[k as int].uid,
            vs@.map_values(|s: String| s@),
        ),
{
    let ghost vsv = vs@.map_values(|s: String| s@);
    let mut vs = vs;
    let mut e = dict.options.remove(k);
    e.values.append(&mut vs);
    dict.options.insert(k, e);
    proof {
        let pre = old(dict)@;
        let uid = pre.options[k as int].uid;
        let pe = pre.options[k as int];
        let ne = OptEntryV { values: pe.values + vsv, ..pe };
        assert(dict@.options[k as int] =~= ne);
        assert(dict@.options =~= pre.options.update(k as int, ne));
        assert(dict@ =~= opt_append(pre, uid, vsv));
    }
}

/// Binds a positional declaration to the raw token it consumed.
pub(crate) fn pos_bind_exec(dict: &mut ArgDict, uid: &String, index: usize, value: String)
    ensures
        final(dict)@ == pos_bind(old(dict)@, uid@, index as nat, value@),
{
    let ghost ev = PosEntryV { uid: uid@, index: index as nat, value: value@ };
    let n = dict.positionals.len();
    let mut j: usize = 0;
    let mut found: Option<usize> = None;
    while j < n && found.is_none()
        invariant
            n == dict.positionals.len(),
            j <= n,
            match found {
                Some(f) => f == j && j < n && dict@.positionals[f as int].uid == uid@ && (forall|
                    q: int,
                |
                    0 <= q < f ==> dict@.positionals[q].uid != uid@),
                None => forall|q: int| 0 <= q < j ==> dict@.positionals[q].uid != uid@,
            },
        decreases n - j, (if found.is_none() { 1int } else { 0int }),
    {
        if str_eq(dict.positionals[j].uid.as_str(), uid.as_str()) {
            found = Some(j);
        } else {
            j += 1;
        }
    }
    let entry = PosEntry { uid: uid.clone(), index, value };
    match found {
        Some(f) => {
            proof {
                lemma_pos_first_index(dict@.positionals, uid@, f as int);
            }
            let _ = dict.positionals.remove(f);
            dict.positionals.insert(f, entry);
            proof {
                assert(dict@.positionals =~= old(dict)@.positionals.update(f as int, ev));
                assert(dict@ =~= pos_bind(old(dict)@, uid@, index as nat, value@));
            }
        },
        None => {
            proof {
                lemma_pos_not_found(dict@.positionals, uid@);
            }
            dict.positionals.push(entry);
            proof {
                assert(dict@.positionals =~= old(dict)@.positionals.push(ev));
                assert(dict@ =~= pos_bind(old(dict)@, uid@, index as nat, value@));
            }
        },
    }
}

/// Walks forward from the token after `*i`, collecting values for one
/// option, and leaves `*i` at the last token the walk passed over.
pub(crate) fn parse_values(
    args: &Vec<String>,
    i: &mut usize,
    max_n: usize,
    parse_opts: &mut bool,
    use_double_dash: bool,
) -> (result: Vec<String>)
    requires
        *old(i) < args.len(),
    ensures
        ({
            let c = spec_consume(
                argv_view(args@),
                *old(i) + 1,
                max_n as int,
                *old(parse_opts),
                use_double_dash,
            );
            &&& result@.map_values(|s: String| s@) == c.values
            &&& *final(i) == *old(i) + c.eaten
            &&& *final(parse_opts) == c.opts_on
        }),
{
    let ghost argv = argv_view(args@);
    let ghost start = *old(i) + 1;
    let ghost opts0 = *parse_opts;
    let ghost full = spec_consume(argv, start, max_n as int, opts0, use_double_dash);
    *i += 1;
    let mut result: Vec<String> = Vec::new();
    let mut budget = max_n;
    let mut stopped = false;
    proof {
        assert(result@.map_values(|s: String| s@) =~= Seq::<Seq<char>>::empty());
        assert(Seq::<Seq<char>>::empty() + full.values =~= full.values);
    }
    while !stopped && *i < args.len() && budget > 0
        invariant
            argv == argv_view(args@),
            full == spec_consume(argv, start, max_n as int, opts0, use_double_dash),
            start <= *i <= args.len(),
            budget <= max_n,
            full.values == result@.map_values(|s: String| s@) + spec_consume(
                argv,
                *i as int,
                budget as int,
                *parse_opts,
                use_double_dash,
            ).values,
            full.eaten == (*i - start) + spec_consume(
                argv,
                *i as int,
                budget as int,
                *parse_opts,
                use_double_dash,
            ).eaten,
            full.opts_on == spec_consume(
                argv,
                *i as int,
                budget as int,
                *parse_opts,
                use_double_dash,
            ).opts_on,
            stopped ==> spec_consume(argv, *i as int, budget as int, *parse_opts, use_double_dash)
                == (ConsumeV {
                eaten: 0,
                values: Seq::<Seq<char>>::empty(),
                opts_on: *parse_opts,
            }),
        decreases args.len() - *i, (if stopped { 0int } else { 1int }),
    {
        let ghost rm = result@.map_values(|s: String| s@);
        let ghost inner = spec_consume(argv, *i as int, budget as int, *parse_opts, use_double_dash);
        let arg = &args[*i];
        let alen = arg.as_str().unicode_len();
        proof {
            assert(argv[*i as int] == arg@);
        }
        if *parse_opts && alen > 0 && arg.as_str().get_char(0) == '-' {
            if use_double_dash && alen == 2 && arg.as_str().get_char(1) == '-' {
                *parse_opts = false;
                *i += 1;
            } else {
                stopped = true;
                proof {
                    assert(inner =~= (ConsumeV {
                        eaten: 0,
                        values: Seq::<Seq<char>>::empty(),
                        opts_on: *parse_opts,
                    }));
                }
            }
        } else {
            result.push(arg.clone());
            budget = budget - 1;
            *i += 1;
            proof {
                assert(result@.map_values(|s: String| s@) =~= rm.push(arg@));
                assert(rm + inner.values =~= rm.push(arg@) + spec_consume(
                    argv,
                    *i as int,
                    budget as int,
                    *parse_opts,
                    use_double_dash,
                ).values);
            }
        }
    }
    proof {
        assert(spec_consume(argv, *i as int, budget as int, *parse_opts, use_double_dash)
            == (ConsumeV {
            eaten: 0,
            values: Seq::<Seq<char>>::empty(),
            opts_on: *parse_opts,
        }));
        assert(full.values =~= result@.map_values(|s: String| s@) + Seq::<Seq<char>>::empty());
        assert(full.values =~= result@.map_values(|s: String| s@));
    }
    *i -= 1;
    result
}

/// A match at index `k`, with no earlier match, pins down the search.
proof fn lemma_find_short_at(opts: Seq<OptV>, c: char, k: int)
    requires
        0 <= k < opts.len(),
        opts[k].shortname == seq![c],
        forall|j: int| 0 <= j < k ==> opts[j].shortname != seq![c],
    ensures
        find_short(opts, c) == Some(k),
    decreases k,
{
    if k > 0 {
        lemma_find_short_at(opts.drop_first(), c, k - 1);
    }
}

/// No match anywhere pins the search to `None`.
proof fn lemma_find_short_none(opts: Seq<OptV>, c: char)
    requires
        forall|j: int| 0 <= j < opts.len() ==> opts[j].shortname != seq![c],
    ensures
        find_short(opts, c) is None,
    decreases opts.len(),
{
    if opts.len() > 0 {
        lemma_find_short_none(opts.drop_first(), c);
    }
}

/// Finds the first declared option whose short name is exactly `c`.
fn find_short_index(options: &Vec<Opt>, c: char) -> (r: Option<usize>)
    ensures
        match r {
            Some(k) => k < options.len() && find_short(
                options@.map_values(|o: Opt| o@),
                c,
            ) == Some(k as int),
            None => find_short(options@.map_values(|o: Opt| o@), c) is None,
        },
{
    let ghost ov = options@.map_values(|o: Opt| o@);
    let n = options.len();
    let mut j: usize = 0;
    while j < n
        invariant
            ov == options@.map_values(|o: Opt| o@),
            n == options.len(),
            j <= n,
            forall|q: int| 0 <= q < j ==> ov[q].shortname != seq![c],
        decreases n - j,
    {
        let sn = &options[j].shortname;
        if sn.as_str().unicode_len() == 1 && sn.as_str().get_char(0) == c {
            proof {
                assert(ov[j as int].shortname =~= seq![c]);
                lemma_find_short_at(ov, c, j as int);
            }
            return Some(j);
        }
        proof {
            if ov[j as int].shortname == seq![c] {
                assert(ov[j as int].shortname.len() == 1);
                assert(ov[j as int].shortname[0] == c);
                assert(false);
            }
        }
        j += 1;
    }
    proof {
        lemma_find_short_none(ov, c);
    }
    None
}

/// How one declared option related to the remainder of a `--` token.
enum LongHitKind {
    Miss,
    Hit,
    HitWithValue,
}

/// Matches the remainder of a `--` token against one declared option.
fn long_match_exec(o: &Opt, larg: &str) -> (r: LongHitKind)
    ensures
        r is Miss <==> long_match(o@, larg@) is NoMatch,
        r is Hit <==> long_match(o@, larg@) is Exact,
        r is HitWithValue <==> long_match(o@, larg@) is Attached,
{
    let ll = o.longname.as_str().unicode_len();
    let al = larg.unicode_len();
    if al < ll {
        return LongHitKind::Miss;
    }
    let mut q: usize = 0;
    while q < ll
        invariant
            ll == o@.longname.len(),
            al == larg@.len(),
            ll <= al,
            q <= ll,
            forall|x: int| 0 <= x < q ==> larg@[x] == o@.longname[x],
        decreases ll - q,
    {
        if larg.get_char(q) != o.longname.as_str().get_char(q) {
            proof {
                assert(larg@.subrange(0, ll as int)[q as int] != o@.longname[q as int]);
            }
            return LongHitKind::Miss;
        }
        q += 1;
    }
    proof {
        assert(larg@.subrange(0, ll as int) =~= o@.longname);
    }
    if al == ll {
        LongHitKind::Hit
    } else if larg.get_char(ll) != '=' {
        LongHitKind::Miss
    } else {
        LongHitKind::HitWithValue
    }
}

/// A match at index `k`, with no earlier match, pins down the search.
proof fn lemma_find_long_at(opts: Seq<OptV>, larg: Seq<char>, k: int)
    requires
        0 <= k < opts.len(),
        !(long_match(opts[k], larg) is NoMatch),
        forall|j: int| 0 <= j < k ==> long_match(opts[j], larg) is NoMatch,
    ensures
        find_long(opts, larg) == Some(k),
    decreases k,
{
    if k > 0 {
        lemma_find_long_at(opts.drop_first(), larg, k - 1);
    }
}

/// No match anywhere pins the search to `None`.
proof fn lemma_find_long_none(opts: Seq<OptV>, larg: Seq<char>)
    requires
        forall|j: int| 0 <= j < opts.len() ==> long_match(opts[j], larg) is NoMatch,
    ensures
        find_long(opts, larg) is None,
    decreases opts.len(),
{
    if opts.len() > 0 {
        lemma_find_long_none(opts.drop_first(), larg);
    }
}

impl ArgParser {
    /// Parses the given argument vector against the declared grammar.
    ///
    /// Element 0 is the program name and is never parsed as a token; the
    /// scan walks the remaining tokens once, left to right, collecting
    /// bindings and diagnostics, then validates the arity of every option
    /// that occurred and finalizes.  A malformed or unknown token never
    /// aborts the scan: it yields a diagnostic and the scan continues.
    /// The whole behaviour is pinned down by [`spec_parse`].
    pub fn parse(&self, args: &Vec<String>) -> (result: ArgDict)
        requires
            args.len() >= 1,
        ensures
            result@ == spec_parse(self@, argv_view(args@)),
    {
        let ghost p = self@;
        let ghost argv = argv_view(args@);
        let mut dict = ArgDict::new(self.use_help);
        let mut positional_i: usize = 0;
        let mut parse_options = true;
        let mut i: usize = 1;
        while i < args.len()
            invariant
                self@ == p,
                argv == argv_view(args@),
                args.len() >= 1,
                1 <= i <= args.len(),
                positional_i <= i,
                spec_scan(p, argv, 1, 0, true, DictV::empty(p.use_help)) == spec_scan(
                    p,
                    argv,
                    i as int,
                    positional_i as int,
                    parse_options,
                    dict@,
                ),
            decreases args.len() - i,
        {
            let ghost i0 = i as int;
            let ghost pos0 = positional_i as int;
            let ghost opts0 = parse_options;
            let ghost dpre = dict@;
            let ghost st = scan_step(p, argv, i0, pos0, opts0, dpre);
            let arg = &args[i];
            proof {
                assert(argv[i0] == arg@);
            }
            let alen = arg.as_str().unicode_len();
            if parse_options && alen > 0 && arg.as_str().get_char(0) == '-' {
                if alen == 1 {
                    let m = build_missing_char();
                    dict_push_error(&mut dict, m);
                    i += 1;
                } else if self.use_double_dash && alen == 2 && arg.as_str().get_char(1) == '-' {
                    parse_options = false;
                    i += 1;
                } else if arg.as_str().get_char(1) != '-' || (!self.use_double_dash && alen == 2) {
                    self.parse_short(args, &mut i, &mut parse_options, &mut dict);
                } else {
                    self.parse_long(args, &mut i, &mut parse_options, &mut dict);
                }
            } else {
                if positional_i >= self.positionals.len() {
                    let m = build_skip_positional(arg.as_str(), positional_i);
                    dict_push_warning(&mut dict, m);
                    positional_i += 1;
                    i += 1;
                } else {
                    let pd = &self.positionals[positional_i];
                    proof {
                        assert(pd@ == p.positionals[pos0]);
                    }
                    pos_bind_exec(&mut dict, &pd.uid, pd.index, arg.clone());
                    positional_i += 1;
                    i += 1;
                }
            }
            proof {
                assert(i as int == st.next_i);
                assert(positional_i as int == st.next_pos_i);
                assert(parse_options == st.opts_on);
                assert(dict@ == st.d);
                assert(spec_scan(p, argv, i0, pos0, opts0, dpre) == spec_scan(
                    p,
                    argv,
                    i as int,
                    positional_i as int,
                    parse_options,
                    dict@,
                ));
            }
        }
        let ghost d_scan = dict@;
        proof {
            assert(spec_scan(p, argv, 1, 0, true, DictV::empty(p.use_help)) == d_scan);
        }
        let n = self.options.len();
        let mut j: usize = 0;
        while j < n
            invariant
                self@ == p,
                n == self.options.len(),
                j <= n,
                spec_validate(p.options, d_scan, 0) == spec_validate(p.options, dict@, j as int),
            decreases n - j,
        {
            let ghost dpre = dict@;
            let o = &self.options[j];
            proof {
                assert(o@ == p.options[j as int]);
            }
            let mut present = false;
            let mut cnt: usize = 0;
            match dict.get_opt(o.uid.as_str()) {
                None => {},
                Some(vals) => {
                    present = true;
                    cnt = vals.len();
                },
            }
            if present {
                if cnt < o.min_n_values {
                    let m = build_not_enough_values(o.longname.as_str(), o.min_n_values, cnt);
                    dict_push_error(&mut dict, m);
                } else if cnt > o.max_n_values {
                    let m = build_too_many_values(o.longname.as_str(), o.max_n_values, cnt);
                    dict_push_error(&mut dict, m);
                }
            }
            j += 1;
            proof {
                assert(spec_validate(p.options, dpre, j - 1) == spec_validate(
                    p.options,
                    dict@,
                    j as int,
                ));
            }
        }
        let ghost d_val = dict@;
        proof {
            assert(spec_validate(p.options, d_scan, 0) == d_val);
        }
        if self.use_help && dict.has_opt("help") {
            let n2 = dict.options.len();
            let mut k: usize = 0;
            let mut hidx: Option<usize> = None;
            while k < n2 && hidx.is_none()
                invariant
                    n2 == dict.options.len(),
                    k <= n2,
                    dict@ == d_val,
                    match hidx {
                        Some(h) => h == k && k < n2 && dict@.options[h as int].uid == "help"@ && (
                        forall|q: int| 0 <= q < h ==> dict@.options[q].uid != "help"@),
                        None => forall|q: int| 0 <= q < k ==> dict@.options[q].uid != "help"@,
                    },
                decreases n2 - k, (if hidx.is_none() {
                    1int
                } else {
                    0int
                }),
            {
                if str_eq(dict.options[k].uid.as_str(), "help") {
                    hidx = Some(k);
                } else {
                    k += 1;
                }
            }
            match hidx {
                Some(h) => {
                    proof {
                        lemma_opt_first_index(dict@.options, "help"@, h as int);
                    }
                    let hentry = dict.options.remove(h);
                    let mut new_opts: Vec<OptEntry> = Vec::new();
                    new_opts.push(hentry);
                    dict.options = new_opts;
                    dict.positionals = Vec::new();
                    dict.warnings = Vec::new();
                    dict.errors = Vec::new();
                    proof {
                        assert(dict@.options =~= seq![d_val.options[h as int]]);
                        assert(dict@ =~= spec_finalize(p, d_val));
                    }
                },
                None => {
                    proof {
                        lemma_opt_not_found(dict@.options, "help"@);
                        assert(false);
                    }
                },
            }
        } else if dict.errors.len() > 0 {
            dict.positionals = Vec::new();
            dict.options = Vec::new();
            proof {
                assert(dict@ =~= spec_finalize(p, d_val));
            }
        } else {
            proof {
                assert(dict@ == spec_finalize(p, d_val));
            }
        }
        dict
    }

    /// Handles one short-option token: the character after `-` is matched
    /// against the declared short names, a value attached in the same
    /// token is checked for legality, and otherwise following tokens are
    /// consumed as values up to what the arity still allows.
    fn parse_short(
        &self,
        args: &Vec<String>,
        i: &mut usize,
        parse_opts: &mut bool,
        dict: &mut ArgDict,
    )
        requires
            *old(i) < args.len(),
            *old(parse_opts),
            argv_view(args@)[*old(i) as int].len() >= 2,
        ensures
            ({
                let st = scan_short(self@, argv_view(args@), *old(i) as int, old(dict)@);
                &&& *final(i) == st.next_i
                &&& st.next_i <= args.len()
                &&& *final(parse_opts) == st.opts_on
                &&& final(dict)@ == st.d
            }),
    {
        let ghost argv = argv_view(args@);
        let ghost i0 = *old(i) as int;
        let ghost d0 = dict@;
        let ghost st = scan_short(self@, argv, i0, d0);
        let arg = &args[*i];
        proof {
            assert(argv[i0] == arg@);
        }
        let alen = arg.as_str().unicode_len();
        let c = arg.as_str().get_char(1);
        match find_short_index(&self.options, c) {
            None => {
                let m = build_unknown_option(arg.as_str(), self.use_help);
                dict_push_error(dict, m);
                *i += 1;
            },
            Some(k) => {
                let o = &self.options[k];
                proof {
                    assert(o@ == self@.options[k as int]);
                }
                if alen > 2 {
                    let attached = arg.as_str().substring_char(2, alen);
                    if o.max_n_values == 0 {
                        let m = build_short_cannot_accept(o.shortname.as_str(), attached);
                        dict_push_error(dict, m);
                        *i += 1;
                    } else if o.max_n_values > 1 {
                        let m = build_short_attached_limit(o.shortname.as_str(), o.max_n_values);
                        dict_push_error(dict, m);
                        *i += 1;
                    } else {
                        let kk = ensure_opt_idx(dict, o);
                        let mut vs: Vec<String> = Vec::new();
                        vs.push(String::from_str(attached));
                        proof {
                            assert(vs@.map_values(|s: String| s@) =~= seq![
                                arg@.subrange(2, arg@.len() as int),
                            ]);
                        }
                        opt_append_at(dict, kk, vs);
                        *i += 1;
                        proof {
                            assert(dict@ =~= st.d);
                        }
                    }
                } else {
                    let kk = ensure_opt_idx(dict, o);
                    let ghost d1 = dict@;
                    if o.max_n_values > 0 {
                        let cur = dict.options[kk].values.len();
                        proof {
                            assert(d1.options[kk as int].values.len() == cur);
                            assert(opt_count(d1, o@.uid) == cur as int);
                        }
                        let budget = if o.max_n_values >= cur {
                            o.max_n_values - cur
                        } else {
                            0
                        };
                        let vs = parse_values(args, i, budget, parse_opts, self.use_double_dash);
                        proof {
                            lemma_consume_eaten_bound(
                                argv,
                                i0 + 1,
                                budget as int,
                                true,
                                self.use_double_dash,
                            );
                            assert(spec_consume(argv, i0 + 1, budget as int, true, self.use_double_dash)
                                == spec_consume(
                                argv,
                                i0 + 1,
                                o@.max_n_values - opt_count(d1, o@.uid),
                                true,
                                self.use_double_dash,
                            ));
                        }
                        opt_append_at(dict, kk, vs);
                        *i += 1;
                        proof {
                            assert(dict@ =~= st.d);
                        }
                    } else {
                        *i += 1;
                        proof {
                            assert(dict@ =~= st.d);
                        }
                    }
                }
            },
        }
    }

    /// Handles one long-option token: the remainder after `--` is matched
    /// against the declared long names, a value attached after `=` is
    /// checked for legality, and otherwise following tokens are consumed
    /// as values up to what the arity still allows.
    fn parse_long(
        &self,
        args: &Vec<String>,
        i: &mut usize,
        parse_opts: &mut bool,
        dict: &mut ArgDict,
    )
        requires
            *old(i) < args.len(),
            *old(parse_opts),
            argv_view(args@)[*old(i) as int].len() >= 2,
        ensures
            ({
                let st = scan_long(self@, argv_view(args@), *old(i) as int, old(dict)@);
                &&& *final(i) == st.next_i
                &&& st.next_i <= args.len()
                &&& *final(parse_opts) == st.opts_on
                &&& final(dict)@ == st.d
            }),
    {
        let ghost argv = argv_view(args@);
        let ghost i0 = *old(i) as int;
        let ghost d0 = dict@;
        let ghost st = scan_long(self@, argv, i0, d0);
        let arg = &args[*i];
        proof {
            assert(argv[i0] == arg@);
        }
        let alen = arg.as_str().unicode_len();
        let larg = arg.as_str().substring_char(2, alen);
        let ghost largv = arg@.subrange(2, arg@.len() as int);
        match find_long_index(&self.options, larg) {
            None => {
                let m = build_unknown_option(arg.as_str(), self.use_help);
                dict_push_error(dict, m);
                *i += 1;
            },
            Some(k) => {
                let o = &self.options[k];
                proof {
                    assert(o@ == self@.options[k as int]);
                }
                let hit = long_match_exec(o, larg);
                match hit {
                    LongHitKind::HitWithValue => {
                        let ll = o.longname.as_str().unicode_len();
                        let al = larg.unicode_len();
                        proof {
                            assert(long_match(o@, largv) is Attached);
                            assert(largv.len() > o@.longname.len());
                            assert(ll < al);
                        }
                        let attached = larg.substring_char(ll + 1, al);
                        proof {
                            assert(attached@ == largv.subrange(
                                o@.longname.len() as int + 1,
                                largv.len() as int,
                            ));
                        }
                        if o.max_n_values == 0 {
                            let m = build_long_cannot_accept(o.longname.as_str(), attached);
                            dict_push_error(dict, m);
                            *i += 1;
                        } else if o.max_n_values > 1 {
                            let m = build_long_attached_limit(o.longname.as_str(), o.max_n_values);
                            dict_push_error(dict, m);
                            *i += 1;
                        } else {
                            let kk = ensure_opt_idx(dict, o);
                            let mut vs: Vec<String> = Vec::new();
                            vs.push(String::from_str(attached));
                            proof {
                                assert(vs@.map_values(|s: String| s@) =~= seq![attached@]);
                            }
                            opt_append_at(dict, kk, vs);
                            *i += 1;
                            proof {
                                assert(dict@ =~= st.d);
                            }
                        }
                    },
                    LongHitKind::Hit => {
                        let kk = ensure_opt_idx(dict, o);
                        let ghost d1 = dict@;
                        if o.max_n_values > 0 {
                            let cur = dict.options[kk].values.len();
                            proof {
                                assert(d1.options[kk as int].values.len() == cur);
                                assert(opt_count(d1, o@.uid) == cur as int);
                            }
                            let budget = if o.max_n_values >= cur {
                                o.max_n_values - cur
                            } else {
                                0
                            };
                            let vs = parse_values(args, i, budget, parse_opts, self.use_double_dash);
                            proof {
                                lemma_consume_eaten_bound(
                                    argv,
                                    i0 + 1,
                                    budget as int,
                                    true,
                                    self.use_double_dash,
                                );
                                assert(spec_consume(
                                    argv,
                                    i0 + 1,
                                    budget as int,
                                    true,
                                    self.use_double_dash,
                                ) == spec_consume(
                                    argv,
                                    i0 + 1,
                                    o@.max_n_values - opt_count(d1, o@.uid),
                                    true,
                                    self.use_double_dash,
                                ));
                            }
                            opt_append_at(dict, kk, vs);
                            *i += 1;
                            proof {
                                assert(dict@ =~= st.d);
                            }
                        } else {
                            *i += 1;
                            proof {
                                assert(dict@ =~= st.d);
                            }
                        }
                    },
                    LongHitKind::Miss => {
                        proof {
                            assert(false);
                        }
                    },
                }
            },
        }
    }
}

/// Finds the first declared option that the remainder of a `--` token
/// matches.
fn find_long_index(options: &Vec<Opt>, larg: &str) -> (r: Option<usize>)
    ensures
        match r {
            Some(k) => k < options.len() && find_long(
                options@.map_values(|o: Opt| o@),
                larg@,
            ) == Some(k as int) && !(long_match(
                options@.map_values(|o: Opt| o@)[k as int],
                larg@,
            ) is NoMatch),
            None => find_long(options@.map_values(|o: Opt| o@), larg@) is None,
        },
{
    let ghost ov = options@.map_values(|o: Opt| o@);
    let n = options.len();
    let mut j: usize = 0;
    while j < n
        invariant
            ov == options@.map_values(|o: Opt| o@),
            n == options.len(),
            j <= n,
            forall|q: int| 0 <= q < j ==> long_match(ov[q], larg@) is NoMatch,
        decreases n - j,
    {
        let hit = long_match_exec(&options[j], larg);
        match hit {
            LongHitKind::Miss => {},
            _ => {
                proof {
                    lemma_find_long_at(ov, larg@, j as int);
                }
                return Some(j);
            },
        }
        j += 1;
    }
    proof {
        lemma_find_long_none(ov, larg@);
    }
    None
}

} // verus!
