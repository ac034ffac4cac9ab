//! The grammar registry: declared positional arguments and named options,
//! together with the ghost model that the parsing contracts are stated over.

use vstd::prelude::*;
use vstd::string::StrSliceExecFns;
use vstd::string::StringExecFns;

use crate::text::str_eq;

verus! {

/// A declared positional argument.
pub struct Positional {
    /// Identifier callers use to query the parsed result.
    pub uid: String,
    /// Position in declaration order, starting at zero.
    pub index: usize,
    /// Human-readable name, shown in usage and help text.
    pub name: String,
    /// Description, word-wrapped into the help text.
    pub description: String,
}

/// A declared named option.
pub struct Opt {
    /// Identifier callers use to query the parsed result.
    pub uid: String,
    /// Single-character short form, or the empty string when unused.
    pub shortname: String,
    /// Multi-character long form.
    pub longname: String,
    /// Minimum number of values the option requires.
    pub min_n_values: usize,
    /// Maximum number of values the option accepts; at least `min_n_values`.
    pub max_n_values: usize,
    /// Description of the option's parameters, shown in the help text.
    pub param_description: String,
    /// Description, word-wrapped into the help text.
    pub description: String,
}

/// Ghost model of a positional declaration.
#[verifier::ext_equal]
pub struct PositionalV {
    pub uid: Seq<char>,
    pub index: nat,
    pub name: Seq<char>,
    pub description: Seq<char>,
}

/// Ghost model of an option declaration.
#[verifier::ext_equal]
pub struct OptV {
    pub uid: Seq<char>,
    pub shortname: Seq<char>,
    pub longname: Seq<char>,
    pub min_n_values: nat,
    pub max_n_values: nat,
    pub param_description: Seq<char>,
    pub description: Seq<char>,
}

/// Ghost model of a whole parser: the declared grammar and its switches.
#[verifier::ext_equal]
pub struct ParserV {
    pub positionals: Seq<PositionalV>,
    pub options: Seq<OptV>,
    pub use_double_dash: bool,
    pub use_help: bool,
}

impl View for Positional {
    type V = PositionalV;

    open spec fn view(&self) -> PositionalV {
        PositionalV {
            uid: self.uid@,
            index: self.index as nat,
            name: self.name@,
            description: self.description@,
        }
    }
}

impl View for Opt {
    type V = OptV;

    open spec fn view(&self) -> OptV {
        OptV {
            uid: self.uid@,
            shortname: self.shortname@,
            longname: self.longname@,
            min_n_values: self.min_n_values as nat,
            max_n_values: self.max_n_values as nat,
            param_description: self.param_description@,
            description: self.description@,
        }
    }
}

impl ParserV {
    /// Well-formedness of a declared grammar: identifiers are unique, the
    /// positional indices follow declaration order, short names hold at
    /// most one character, and each arity range is non-empty.
    pub open spec fn wf(self) -> bool {
        &&& forall|i: int, j: int|
            0 <= i < j < self.positionals.len() ==> self.positionals[i].uid
                != self.positionals[j].uid
        &&& forall|i: int|
            0 <= i < self.positionals.len() ==> #[trigger] self.positionals[i].index == i
        &&& forall|i: int, j: int|
            0 <= i < j < self.options.len() ==> self.options[i].uid != self.options[j].uid
        &&& forall|i: int, j: int|
            0 <= i < j < self.options.len() ==> self.options[i].longname
                != self.options[j].longname
        &&& forall|i: int, j: int|
            0 <= i < j < self.options.len() && self.options[j].shortname.len() > 0
                ==> self.options[i].shortname != self.options[j].shortname
        &&& forall|i: int|
            0 <= i < self.options.len() ==> (#[trigger] self.options[i].shortname).len() <= 1
        &&& forall|i: int|
            0 <= i < self.options.len() ==> (#[trigger] self.options[i]).min_n_values
                <= self.options[i].max_n_values
    }

    /// Whether a positional with the given identifier is declared.
    pub open spec fn has_pos_uid(self, uid: Seq<char>) -> bool {
        exists|i: int| 0 <= i < self.positionals.len() && self.positionals[i].uid == uid
    }

    /// Whether an option with the given identifier is declared.
    pub open spec fn has_opt_uid(self, uid: Seq<char>) -> bool {
        exists|i: int| 0 <= i < self.options.len() && self.options[i].uid == uid
    }

    /// Whether an option with the given long name is declared.
    pub open spec fn has_opt_longname(self, longname: Seq<char>) -> bool {
        exists|i: int| 0 <= i < self.options.len() && self.options[i].longname == longname
    }

    /// Whether an option with the given (non-empty) short name is declared.
    pub open spec fn has_opt_shortname(self, shortname: Seq<char>) -> bool {
        exists|i: int| 0 <= i < self.options.len() && self.options[i].shortname == shortname
    }
}

/// The ghost model of the reserved help option.
pub open spec fn help_opt_v() -> OptV {
    OptV {
        uid: "help"@,
        shortname: "h"@,
        longname: "help"@,
        min_n_values: 0,
        max_n_values: 0,
        param_description: ""@,
        description: "Shows this list of arguments, then quits."@,
    }
}

/// A declared grammar of positional arguments and named options.
///
/// The grammar is registered once, then treated as read-only: every call
/// to [`ArgParser::parse`] walks the same declarations and returns a fresh
/// result dictionary.
pub struct ArgParser {
    pub positionals: Vec<Positional>,
    pub options: Vec<Opt>,
    pub use_double_dash: bool,
    pub use_help: bool,
}

impl View for ArgParser {
    type V = ParserV;

    open spec fn view(&self) -> ParserV {
        ParserV {
            positionals: self.positionals@.map_values(|p: Positional| p@),
            options: self.options@.map_values(|o: Opt| o@),
            use_double_dash: self.use_double_dash,
            use_help: self.use_help,
        }
    }
}

impl ArgParser {
    /// Creates a parser with an empty grammar and both switches off.
    pub fn new() -> (result: ArgParser)
        ensures
            result@.positionals =~= Seq::<PositionalV>::empty(),
            result@.options =~= Seq::<OptV>::empty(),
            !result@.use_double_dash,
            !result@.use_help,
            result@.wf(),
    {
        ArgParser {
            positionals: Vec::new(),
            options: Vec::new(),
            use_double_dash: false,
            use_help: false,
        }
    }

    /// Registers a new positional argument with the next sequential index.
    ///
    /// The identifier must not collide with an already declared positional.
    pub fn add_pos(&mut self, uid: &str, name: &str, description: &str)
        requires
            !old(self)@.has_pos_uid(uid@),
        ensures
            final(self)@.positionals =~= old(self)@.positionals.push(
                PositionalV {
                    uid: uid@,
                    index: old(self)@.positionals.len(),
                    name: name@,
                    description: description@,
                },
            ),
            final(self)@.options =~= old(self)@.options,
            final(self)@.use_double_dash == old(self)@.use_double_dash,
            final(self)@.use_help == old(self)@.use_help,
            old(self)@.wf() ==> final(self)@.wf(),
    {
        let index = self.positionals.len();
        self.positionals.push(
            Positional {
                uid: String::from_str(uid),
                index,
                name: String::from_str(name),
                description: String::from_str(description),
            },
        );
        proof {
            let pre = old(self)@;
            let post = self@;
            assert(post.options =~= pre.options);
            if pre.wf() {
                lemma_wf_push_pos(pre, post);
            }
        }
    }

    /// Registers a new named option.
    ///
    /// The short name holds at most one character; identifier, short name
    /// (when present) and long name must not collide with an already
    /// declared option, and the arity range must be non-empty.
    pub fn add_opt(
        &mut self,
        uid: &str,
        shortname: &str,
        longname: &str,
        min_n_values: usize,
        max_n_values: usize,
        param_description: &str,
        description: &str,
    )
        requires
            shortname@.len() <= 1,
            !old(self)@.has_opt_uid(uid@),
            shortname@.len() > 0 ==> !old(self)@.has_opt_shortname(shortname@),
            !old(self)@.has_opt_longname(longname@),
            min_n_values <= max_n_values,
        ensures
            final(self)@.options =~= old(self)@.options.push(
                OptV {
                    uid: uid@,
                    shortname: shortname@,
                    longname: longname@,
                    min_n_values: min_n_values as nat,
                    max_n_values: max_n_values as nat,
                    param_description: param_description@,
                    description: description@,
                },
            ),
            final(self)@.positionals =~= old(self)@.positionals,
            final(self)@.use_double_dash == old(self)@.use_double_dash,
            final(self)@.use_help == old(self)@.use_help,
            old(self)@.wf() ==> final(self)@.wf(),
    {
        self.options.push(
            Opt {
                uid: String::from_str(uid),
                shortname: String::from_str(shortname),
                longname: String::from_str(longname),
                min_n_values,
                max_n_values,
                param_description: String::from_str(param_description),
                description: String::from_str(description),
            },
        );
        proof {
            let pre = old(self)@;
            let post = self@;
            assert(post.positionals =~= pre.positionals);
            assert(post.options =~= pre.options.push(
                OptV {
                    uid: uid@,
                    shortname: shortname@,
                    longname: longname@,
                    min_n_values: min_n_values as nat,
                    max_n_values: max_n_values as nat,
                    param_description: param_description@,
                    description: description@,
                },
            ));
            if pre.wf() {
                lemma_wf_push_opt(pre, post);
            }
        }
    }

    /// Enables recognition of a bare `--` token as the marker that stops
    /// option parsing for the rest of the scan.
    pub fn add_double_dash(&mut self)
        ensures
            final(self)@ == (ParserV { use_double_dash: true, ..old(self)@ }),
    {
        self.use_double_dash = true;
    }

    /// Registers the reserved help option (`-h`, `--help`) and marks
    /// help-handling as active.
    ///
    /// The reserved identifier, short name and long name must not collide
    /// with an already declared option.
    pub fn add_help(&mut self)
        requires
            !old(self)@.has_opt_uid("help"@),
            !old(self)@.has_opt_shortname("h"@),
            !old(self)@.has_opt_longname("help"@),
        ensures
            final(self)@.options =~= old(self)@.options.push(help_opt_v()),
            final(self)@.positionals =~= old(self)@.positionals,
            final(self)@.use_double_dash == old(self)@.use_double_dash,
            final(self)@.use_help,
            old(self)@.wf() ==> final(self)@.wf(),
    {
        proof {
            reveal_strlit("h");
            reveal_strlit("help");
            reveal_strlit("");
            reveal_strlit("Shows this list of arguments, then quits.");
        }
        self.options.push(
            Opt {
                uid: String::from_str("help"),
                shortname: String::from_str("h"),
                longname: String::from_str("help"),
                min_n_values: 0,
                max_n_values: 0,
                param_description: String::from_str(""),
                description: String::from_str("Shows this list of arguments, then quits."),
            },
        );
        self.use_help = true;
        proof {
            let pre = old(self)@;
            let post = self@;
            assert(post.positionals =~= pre.positionals);
            assert(post.options =~= pre.options.push(help_opt_v()));
            if pre.wf() {
                lemma_wf_push_opt(pre, post);
            }
        }
    }

    /// Returns the index of the positional with the given identifier,
    /// which must be declared.
    pub fn get_index(&self, uid: &str) -> (result: usize)
        requires
            self@.wf(),
            self@.has_pos_uid(uid@),
        ensures
            exists|i: int|
                0 <= i < self@.positionals.len() && self@.positionals[i].uid == uid@
                    && result == self@.positionals[i].index,
    {
        let n = self.positionals.len();
        let mut k: usize = 0;
        while k < n
            invariant
                n == self.positionals.len(),
                k <= n,
                self@.has_pos_uid(uid@),
                forall|j: int| 0 <= j < k ==> self@.positionals[j].uid != uid@,
            decreases n - k,
        {
            if str_eq(self.positionals[k].uid.as_str(), uid) {
                proof {
                    assert(self@.positionals[k as int].uid == uid@);
                    assert(self@.positionals[k as int].index == self.positionals[k as int].index);
                }
                return self.positionals[k].index;
            }
            k += 1;
        }
        proof {
            assert(false);
        }
        unreached()
    }

    /// Returns the display name of the positional with the given
    /// identifier, which must be declared.
    pub fn get_name(&self, uid: &str) -> (result: &str)
        requires
            self@.wf(),
            self@.has_pos_uid(uid@),
        ensures
            exists|i: int|
                0 <= i < self@.positionals.len() && self@.positionals[i].uid == uid@
                    && result@ == self@.positionals[i].name,
    {
        let n = self.positionals.len();
        let mut k: usize = 0;
        while k < n
            invariant
                n == self.positionals.len(),
                k <= n,
                self@.has_pos_uid(uid@),
                forall|j: int| 0 <= j < k ==> self@.positionals[j].uid != uid@,
            decreases n - k,
        {
            if str_eq(self.positionals[k].uid.as_str(), uid) {
                proof {
                    assert(self@.positionals[k as int].uid == uid@);
                    assert(self@.positionals[k as int].name == self.positionals[k as int].name@);
                }
                return self.positionals[k].name.as_str();
            }
            k += 1;
        }
        proof {
            assert(false);
        }
        unreached()
    }

    /// Returns the short name of the option with the given identifier,
    /// which must be declared.
    pub fn get_shortname(&self, uid: &str) -> (result: &str)
        requires
            self@.wf(),
            self@.has_opt_uid(uid@),
        ensures
            exists|i: int|
                0 <= i < self@.options.len() && self@.options[i].uid == uid@ && result@
                    == self@.options[i].shortname,
    {
        let n = self.options.len();
        let mut k: usize = 0;
        while k < n
            invariant
                n == self.options.len(),
                k <= n,
                self@.has_opt_uid(uid@),
                forall|j: int| 0 <= j < k ==> self@.options[j].uid != uid@,
            decreases n - k,
        {
            if str_eq(self.options[k].uid.as_str(), uid) {
                proof {
                    assert(self@.options[k as int].uid == uid@);
                    assert(self@.options[k as int].shortname == self.options[k as int].shortname@);
                }
                return self.options[k].shortname.as_str();
            }
            k += 1;
        }
        proof {
            assert(false);
        }
        unreached()
    }

    /// Returns the long name of the option with the given identifier,
    /// which must be declared.
    pub fn get_longname(&self, uid: &str) -> (result: &str)
        requires
            self@.wf(),
            self@.has_opt_uid(uid@),
        ensures
            exists|i: int|
                0 <= i < self@.options.len() && self@.options[i].uid == uid@ && result@
                    == self@.options[i].longname,
    {
        let n = self.options.len();
        let mut k: usize = 0;
        while k < n
            invariant
                n == self.options.len(),
                k <= n,
                self@.has_opt_uid(uid@),
                forall|j: int| 0 <= j < k ==> self@.options[j].uid != uid@,
            decreases n - k,
        {
            if str_eq(self.options[k].uid.as_str(), uid) {
                proof {
                    assert(self@.options[k as int].uid == uid@);
                    assert(self@.options[k as int].longname == self.options[k as int].longname@);
                }
                return self.options[k].longname.as_str();
            }
            k += 1;
        }
        proof {
            assert(false);
        }
        unreached()
    }
}

/// Pushing a positional with a fresh identifier and the next sequential
/// index keeps a grammar well-formed.
proof fn lemma_wf_push_pos(pre: ParserV, post: ParserV)
    requires
        pre.wf(),
        post.positionals.len() == pre.positionals.len() + 1,
        post.positionals =~= pre.positionals.push(post.positionals.last()),
        post.options == pre.options,
        !pre.has_pos_uid(post.positionals.last().uid),
        post.positionals.last().index == pre.positionals.len(),
    ensures
        post.wf(),
{
    let n = post.positionals.len() as int;
    assert forall|i: int, j: int|
        0 <= i < j < n implies post.positionals[i].uid != post.positionals[j].uid by {
        if j < n - 1 {
        } else {
            assert(post.positionals[i] == pre.positionals[i]);
        }
    }
    assert forall|i: int| 0 <= i < n implies #[trigger] post.positionals[i].index == i by {
        if i < n - 1 {
            assert(post.positionals[i] == pre.positionals[i]);
        }
    }
}

/// Pushing an option whose identifier, long name and (non-empty) short
/// name are fresh, with a short name of at most one character and a
/// non-empty arity range, keeps a grammar well-formed.
proof fn lemma_wf_push_opt(pre: ParserV, post: ParserV)
    requires
        pre.wf(),
        post.positionals == pre.positionals,
        post.options.len() == pre.options.len() + 1,
        post.options =~= pre.options.push(post.options.last()),
        !pre.has_opt_uid(post.options.last().uid),
        post.options.last().shortname.len() > 0 ==> !pre.has_opt_shortname(
            post.options.last().shortname,
        ),
        !pre.has_opt_longname(post.options.last().longname),
        post.options.last().shortname.len() <= 1,
        post.options.last().min_n_values <= post.options.last().max_n_values,
    ensures
        post.wf(),
{
    let n = post.options.len() as int;
    assert forall|i: int, j: int|
        0 <= i < j < n implies post.options[i].uid != post.options[j].uid by {
        if j < n - 1 {
        } else {
            assert(post.options[i] == pre.options[i]);
        }
    }
    assert forall|i: int, j: int|
        0 <= i < j < n implies post.options[i].longname != post.options[j].longname by {
        if j < n - 1 {
        } else {
            assert(post.options[i] == pre.options[i]);
        }
    }
    assert forall|i: int, j: int|
        0 <= i < j < n && post.options[j].shortname.len() > 0 implies post.options[i].shortname
        != post.options[j].shortname by {
        if j < n - 1 {
        } else {
            assert(post.options[i] == pre.options[i]);
        }
    }
    assert forall|i: int| 0 <= i < n implies (#[trigger] post.options[i].shortname).len() <= 1 by {
        if i < n - 1 {
            assert(post.options[i] == pre.options[i]);
        }
    }
    assert forall|i: int|
        0 <= i < n implies (#[trigger] post.options[i]).min_n_values
        <= post.options[i].max_n_values by {
        if i < n - 1 {
            assert(post.options[i] == pre.options[i]);
        }
    }
}

} // verus!
