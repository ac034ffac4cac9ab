//! The usage and help renderers: compose the declared grammar, through
//! the text wrapper, into a usage line and a full help document.

use vstd::prelude::*;
use vstd::string::StrSliceExecFns;
use vstd::string::StringExecFns;

use crate::registry::{ArgParser, Opt, OptV, Positional, PositionalV};
use crate::text::{generate_spaces, push_char, spec_spaces};
use crate::wrap::{nl_indent, spec_wrap};

verus! {

/// The ` <name>` parts of the usage line, one per declared positional.
pub open spec fn usage_positionals(ps: Seq<PositionalV>) -> Seq<char>
    decreases ps.len(),
{
    if ps.len() == 0 {
        Seq::empty()
    } else {
        " <"@ + ps[0].name + ">"@ + usage_positionals(ps.drop_first())
    }
}

/// The usage line: the program name, an `[options]` placeholder when any
/// option is declared, and the declared positionals in order.
pub open spec fn spec_usage(p: ParserV, exec_name: Seq<char>) -> Seq<char> {
    "Usage: "@ + exec_name + (if p.options.len() > 0 {
        " [options]"@
    } else {
        Seq::<char>::empty()
    }) + usage_positionals(p.positionals)
}

/// What stands between a help label and its description: a fresh indented
/// line when the label reaches the description column, else padding up
/// to it.
pub open spec fn help_pad(label_len: int, iw: int) -> Seq<char> {
    if 2 + label_len >= iw {
        nl_indent(iw)
    } else {
        spec_spaces(iw - label_len)
    }
}

/// One positional's help entry: its label, the padding, the wrapped
/// description starting at the indent column, and a final line break.
pub open spec fn pos_help_line(pos: PositionalV, iw: int, lw: int) -> Seq<char> {
    let label = "  <"@ + pos.name + ">"@;
    label + help_pad(label.len() as int, iw) + spec_wrap(pos.description, iw, iw, lw).out + seq![
        '\n',
    ]
}

/// One option's help label: short form (when present), long form, and
/// the parameter hint (when present).
pub open spec fn opt_label(o: OptV) -> Seq<char> {
    "  "@ + (if o.shortname.len() > 0 {
        "-"@ + o.shortname + ","@
    } else {
        Seq::<char>::empty()
    }) + "--"@ + o.longname + (if o.param_description.len() > 0 {
        " "@ + o.param_description
    } else {
        Seq::<char>::empty()
    })
}

/// One option's help entry: its label, the padding, the wrapped
/// description starting at the indent column, and a final line break.
pub open spec fn opt_help_line(o: OptV, iw: int, lw: int) -> Seq<char> {
    let label = opt_label(o);
    label + help_pad(label.len() as int, iw) + spec_wrap(o.description, iw, iw, lw).out + seq![
        '\n',
    ]
}

/// The help entries of all declared positionals, in order.
pub open spec fn pos_lines(ps: Seq<PositionalV>, iw: int, lw: int) -> Seq<char>
    decreases ps.len(),
{
    if ps.len() == 0 {
        Seq::empty()
    } else {
        pos_help_line(ps[0], iw, lw) + pos_lines(ps.drop_first(), iw, lw)
    }
}

/// The help entries of all declared options, in order.
pub open spec fn opt_lines(os: Seq<OptV>, iw: int, lw: int) -> Seq<char>
    decreases os.len(),
{
    if os.len() == 0 {
        Seq::empty()
    } else {
        opt_help_line(os[0], iw, lw) + opt_lines(os.drop_first(), iw, lw)
    }
}

/// The whole help document: the usage line between blank lines, the
/// positionals section and the options section.
pub open spec fn help_text(p: ParserV, exec_name: Seq<char>, iw: int, lw: int) -> Seq<char> {
    "\n"@ + spec_usage(p, exec_name) + "\n"@ + "\n\n"@ + "Positionals:\n"@ + pos_lines(
        p.positionals,
        iw,
        lw,
    ) + "\nOptions:\n"@ + opt_lines(p.options, iw, lw) + "\n"@
}

/// Machine bound under which the help text of a grammar can be rendered:
/// every declared name and description leaves room for the widths in a
/// `usize`.
pub open spec fn help_fits(p: ParserV, iw: int, lw: int) -> bool {
    &&& forall|i: int|
        0 <= i < p.positionals.len() ==> (#[trigger] p.positionals[i]).name.len()
            + p.positionals[i].description.len() + iw + lw + 32 <= usize::MAX
    &&& forall|i: int|
        0 <= i < p.options.len() ==> (#[trigger] p.options[i]).shortname.len()
            + p.options[i].longname.len() + p.options[i].param_description.len()
            + p.options[i].description.len() + iw + lw + 32 <= usize::MAX
}

use crate::registry::ParserV;

/// Appends one positional's help entry.
fn render_pos_help(result: &mut String, pos: &Positional, iw: usize, lw: usize)
    requires
        iw < lw,
        pos@.name.len() + pos@.description.len() + iw + lw + 32 <= usize::MAX,
    ensures
        final(result)@ == old(result)@ + pos_help_line(pos@, iw as int, lw as int),
{
    let mut label = String::from_str("  <");
    label.append(pos.name.as_str());
    label.append(">");
    proof {
        reveal_strlit("  <");
        reveal_strlit(">");
        assert(label@.len() == 4 + pos@.name.len());
    }
    let llen = label.as_str().unicode_len();
    result.append(label.as_str());
    if 2 + llen >= iw {
        push_char(result, '\n');
        let sp = generate_spaces(iw);
        result.append(sp.as_str());
    } else {
        let sp = generate_spaces(iw - llen);
        result.append(sp.as_str());
    }
    let mut x: usize = iw;
    ArgParser::print_description(result, &mut x, pos.description.as_str(), iw, lw);
    push_char(result, '\n');
    proof {
        assert(result@ =~= old(result)@ + pos_help_line(pos@, iw as int, lw as int));
    }
}

/// Appends one option's help entry.
fn render_opt_help(result: &mut String, o: &Opt, iw: usize, lw: usize)
    requires
        iw < lw,
        o@.shortname.len() + o@.longname.len() + o@.param_description.len() + o@.description.len()
            + iw + lw + 32 <= usize::MAX,
    ensures
        final(result)@ == old(result)@ + opt_help_line(o@, iw as int, lw as int),
{
    let mut label = String::from_str("  ");
    if o.shortname.as_str().unicode_len() > 0 {
        label.append("-");
        label.append(o.shortname.as_str());
        label.append(",");
    }
    label.append("--");
    label.append(o.longname.as_str());
    if o.param_description.as_str().unicode_len() > 0 {
        label.append(" ");
        label.append(o.param_description.as_str());
    }
    proof {
        assert(label@ == opt_label(o@));
        reveal_strlit("  ");
        reveal_strlit("-");
        reveal_strlit(",");
        reveal_strlit("--");
        reveal_strlit(" ");
        assert(label@.len() <= o@.shortname.len() + o@.longname.len()
            + o@.param_description.len() + 8);
    }
    let llen = label.as_str().unicode_len();
    result.append(label.as_str());
    if 2 + llen >= iw {
        push_char(result, '\n');
        let sp = generate_spaces(iw);
        result.append(sp.as_str());
    } else {
        let sp = generate_spaces(iw - llen);
        result.append(sp.as_str());
    }
    let mut x: usize = iw;
    ArgParser::print_description(result, &mut x, o.description.as_str(), iw, lw);
    push_char(result, '\n');
    proof {
        assert(result@ =~= old(result)@ + opt_help_line(o@, iw as int, lw as int));
    }
}

impl ArgParser {
    /// Builds the usage line for this grammar; the line carries no
    /// terminating newline.
    pub fn get_usage(&self, exec_name: &str) -> (result: String)
        ensures
            result@ == spec_usage(self@, exec_name@),
    {
        let mut result = String::from_str("Usage: ");
        result.append(exec_name);
        if self.options.len() > 0 {
            result.append(" [options]");
        }
        let ghost head = result@;
        let n = self.positionals.len();
        let mut k: usize = 0;
        proof {
            assert(self@.positionals.subrange(0, n as int) =~= self@.positionals);
        }
        while k < n
            invariant
                self@.positionals.len() == n,
                n == self.positionals.len(),
                k <= n,
                head + usage_positionals(self@.positionals) == result@ + usage_positionals(
                    self@.positionals.subrange(k as int, n as int),
                ),
            decreases n - k,
        {
            let ghost rem = self@.positionals.subrange(k as int, n as int);
            proof {
                assert(rem[0] == self@.positionals[k as int]);
                assert(rem.drop_first() =~= self@.positionals.subrange(k as int + 1, n as int));
            }
            let p = &self.positionals[k];
            proof {
                assert(p@ == self@.positionals[k as int]);
            }
            result.append(" <");
            result.append(p.name.as_str());
            result.append(">");
            k += 1;
            proof {
                assert(head + usage_positionals(self@.positionals) =~= result@
                    + usage_positionals(self@.positionals.subrange(k as int, n as int)));
            }
        }
        proof {
            assert(self@.positionals.subrange(n as int, n as int) =~= Seq::<PositionalV>::empty());
            assert(usage_positionals(Seq::<PositionalV>::empty()) =~= Seq::<char>::empty());
            assert(result@ =~= spec_usage(self@, exec_name@));
        }
        result
    }

    /// Appends the help entry of the positional with the given
    /// identifier, which must be declared.
    pub fn print_pos_help(
        &self,
        result: &mut String,
        uid: &str,
        indent_width: usize,
        line_width: usize,
    )
        requires
            self@.wf(),
            self@.has_pos_uid(uid@),
            indent_width < line_width,
            help_fits(self@, indent_width as int, line_width as int),
        ensures
            exists|i: int|
                0 <= i < self@.positionals.len() && self@.positionals[i].uid == uid@
                    && final(result)@ == old(result)@ + pos_help_line(
                    self@.positionals[i],
                    indent_width as int,
                    line_width as int,
                ),
    {
        let n = self.positionals.len();
        let mut k: usize = 0;
        while k < n
            invariant
                n == self.positionals.len(),
                k <= n,
                *result == *old(result),
                self@.has_pos_uid(uid@),
                indent_width < line_width,
                help_fits(self@, indent_width as int, line_width as int),
                forall|j: int| 0 <= j < k ==> self@.positionals[j].uid != uid@,
            decreases n - k,
        {
            if crate::text::str_eq(self.positionals[k].uid.as_str(), uid) {
                proof {
                    assert(self@.positionals[k as int].uid == uid@);
                }
                render_pos_help(result, &self.positionals[k], indent_width, line_width);
                return ;
            }
            k += 1;
        }
        proof {
            assert(false);
        }
    }

    /// Appends the help entry of the option with the given identifier,
    /// which must be declared.
    pub fn print_opt_help(
        &self,
        result: &mut String,
        uid: &str,
        indent_width: usize,
        line_width: usize,
    )
        requires
            self@.wf(),
            self@.has_opt_uid(uid@),
            indent_width < line_width,
            help_fits(self@, indent_width as int, line_width as int),
        ensures
            exists|i: int|
                0 <= i < self@.options.len() && self@.options[i].uid == uid@ && final(result)@
                    == old(result)@ + opt_help_line(
                    self@.options[i],
                    indent_width as int,
                    line_width as int,
                ),
    {
        let n = self.options.len();
        let mut k: usize = 0;
        while k < n
            invariant
                n == self.options.len(),
                k <= n,
                *result == *old(result),
                self@.has_opt_uid(uid@),
                indent_width < line_width,
                help_fits(self@, indent_width as int, line_width as int),
                forall|j: int| 0 <= j < k ==> self@.options[j].uid != uid@,
            decreases n - k,
        {
            if crate::text::str_eq(self.options[k].uid.as_str(), uid) {
                proof {
                    assert(self@.options[k as int].uid == uid@);
                }
                render_opt_help(result, &self.options[k], indent_width, line_width);
                return ;
            }
            k += 1;
        }
        proof {
            assert(false);
        }
    }

    /// Builds the whole help document for this grammar, ready to print.
    pub fn get_help(&self, exec_name: &str, indent_width: usize, line_width: usize) -> (result:
        String)
        requires
            indent_width < line_width,
            help_fits(self@, indent_width as int, line_width as int),
        ensures
            result@ == help_text(
                self@,
                exec_name@,
                indent_width as int,
                line_width as int,
            ),
    {
        let mut result = String::from_str("\n");
        let usage = self.get_usage(exec_name);
        result.append(usage.as_str());
        result.append("\n");
        result.append("\n\n");
        result.append("Positionals:\n");
        let ghost head = result@;
        let n = self.positionals.len();
        let mut k: usize = 0;
        proof {
            assert(self@.positionals.subrange(0, n as int) =~= self@.positionals);
        }
        while k < n
            invariant
                n == self.positionals.len(),
                k <= n,
                indent_width < line_width,
                help_fits(self@, indent_width as int, line_width as int),
                head + pos_lines(self@.positionals, indent_width as int, line_width as int)
                    == result@ + pos_lines(
                    self@.positionals.subrange(k as int, n as int),
                    indent_width as int,
                    line_width as int,
                ),
            decreases n - k,
        {
            let ghost rem = self@.positionals.subrange(k as int, n as int);
            proof {
                assert(rem[0] == self@.positionals[k as int]);
                assert(rem.drop_first() =~= self@.positionals.subrange(k as int + 1, n as int));
            }
            render_pos_help(&mut result, &self.positionals[k], indent_width, line_width);
            k += 1;
            proof {
                assert(head + pos_lines(self@.positionals, indent_width as int, line_width as int)
                    =~= result@ + pos_lines(
                    self@.positionals.subrange(k as int, n as int),
                    indent_width as int,
                    line_width as int,
                ));
            }
        }
        proof {
            assert(self@.positionals.subrange(n as int, n as int) =~= Seq::<PositionalV>::empty());
            assert(pos_lines(
                Seq::<PositionalV>::empty(),
                indent_width as int,
                line_width as int,
            ) =~= Seq::<char>::empty());
        }
        result.append("\nOptions:\n");
        let ghost head2 = result@;
        let m = self.options.len();
        let mut k2: usize = 0;
        proof {
            assert(self@.options.subrange(0, m as int) =~= self@.options);
        }
        while k2 < m
            invariant
                m == self.options.len(),
                k2 <= m,
                indent_width < line_width,
                help_fits(self@, indent_width as int, line_width as int),
                head2 + opt_lines(self@.options, indent_width as int, line_width as int)
                    == result@ + opt_lines(
                    self@.options.subrange(k2 as int, m as int),
                    indent_width as int,
                    line_width as int,
                ),
            decreases m - k2,
        {
            let ghost rem = self@.options.subrange(k2 as int, m as int);
            proof {
                assert(rem[0] == self@.options[k2 as int]);
                assert(rem.drop_first() =~= self@.options.subrange(k2 as int + 1, m as int));
            }
            render_opt_help(&mut result, &self.options[k2], indent_width, line_width);
            k2 += 1;
            proof {
                assert(head2 + opt_lines(self@.options, indent_width as int, line_width as int)
                    =~= result@ + opt_lines(
                    self@.options.subrange(k2 as int, m as int),
                    indent_width as int,
                    line_width as int,
                ));
            }
        }
        proof {
            assert(self@.options.subrange(m as int, m as int) =~= Seq::<OptV>::empty());
            assert(opt_lines(Seq::<OptV>::empty(), indent_width as int, line_width as int)
                =~= Seq::<char>::empty());
        }
        result.append("\n");
        proof {
            assert(result@ =~= help_text(
                self@,
                exec_name@,
                indent_width as int,
                line_width as int,
            ));
        }
        result
    }
}

} // verus!
