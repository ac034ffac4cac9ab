//! The result dictionary produced by a parse: bindings of positionals and
//! options to the raw values the user gave, plus the collected warnings
//! and errors.

use vstd::prelude::*;
use vstd::string::StrSliceExecFns;

use crate::text::str_eq;

verus! {

/// A positional bound to the raw token it consumed.
pub struct PosEntry {
    pub uid: String,
    pub index: usize,
    pub value: String,
}

/// An option that occurred on the command line, with its accumulated values.
pub struct OptEntry {
    pub uid: String,
    pub shortname: String,
    pub longname: String,
    pub values: Vec<String>,
}

/// Ghost model of a positional binding.
#[verifier::ext_equal]
pub struct PosEntryV {
    pub uid: Seq<char>,
    pub index: nat,
    pub value: Seq<char>,
}

/// Ghost model of an option occurrence.
#[verifier::ext_equal]
pub struct OptEntryV {
    pub uid: Seq<char>,
    pub shortname: Seq<char>,
    pub longname: Seq<char>,
    pub values: Seq<Seq<char>>,
}

/// Ghost model of a whole result dictionary.
#[verifier::ext_equal]
pub struct DictV {
    pub use_help: bool,
    pub positionals: Seq<PosEntryV>,
    pub options: Seq<OptEntryV>,
    pub warnings: Seq<Seq<char>>,
    pub errors: Seq<Seq<char>>,
}

impl View for PosEntry {
    type V = PosEntryV;

    open spec fn view(&self) -> PosEntryV {
        PosEntryV { uid: self.uid@, index: self.index as nat, value: self.value@ }
    }
}

impl View for OptEntry {
    type V = OptEntryV;

    open spec fn view(&self) -> OptEntryV {
        OptEntryV {
            uid: self.uid@,
            shortname: self.shortname@,
            longname: self.longname@,
            values: self.values@.map_values(|v: String| v@),
        }
    }
}

/// The first binding for `uid`, if any.  Entries are looked up front to
/// back, so an earlier entry shadows a later one with the same identifier
/// (the scan never records two entries for one identifier).
pub open spec fn pos_lookup(s: Seq<PosEntryV>, uid: Seq<char>) -> Option<PosEntryV>
    decreases s.len(),
{
    if s.len() == 0 {
        None
    } else if s[0].uid == uid {
        Some(s[0])
    } else {
        pos_lookup(s.drop_first(), uid)
    }
}

/// The first occurrence entry for `uid`, if any.
pub open spec fn opt_lookup(s: Seq<OptEntryV>, uid: Seq<char>) -> Option<OptEntryV>
    decreases s.len(),
{
    if s.len() == 0 {
        None
    } else if s[0].uid == uid {
        Some(s[0])
    } else {
        opt_lookup(s.drop_first(), uid)
    }
}

/// The index of the first binding for `uid`, or `s.len()` when absent.
pub open spec fn pos_index_of(s: Seq<PosEntryV>, uid: Seq<char>) -> int
    decreases s.len(),
{
    if s.len() == 0 {
        0
    } else if s[0].uid == uid {
        0
    } else {
        1 + pos_index_of(s.drop_first(), uid)
    }
}

/// The index of the first occurrence entry for `uid`, or `s.len()` when
/// absent.
pub open spec fn opt_index_of(s: Seq<OptEntryV>, uid: Seq<char>) -> int
    decreases s.len(),
{
    if s.len() == 0 {
        0
    } else if s[0].uid == uid {
        0
    } else {
        1 + opt_index_of(s.drop_first(), uid)
    }
}

/// A match at index `k`, with no earlier match, pins down the lookup.
pub proof fn lemma_pos_first_index(s: Seq<PosEntryV>, uid: Seq<char>, k: int)
    requires
        0 <= k < s.len(),
        s[k].uid == uid,
        forall|j: int| 0 <= j < k ==> s[j].uid != uid,
    ensures
        pos_index_of(s, uid) == k,
        pos_lookup(s, uid) == Some(s[k]),
    decreases k,
{
    if k > 0 {
        lemma_pos_first_index(s.drop_first(), uid, k - 1);
    }
}

/// No match anywhere pins the lookup to `None`.
pub proof fn lemma_pos_not_found(s: Seq<PosEntryV>, uid: Seq<char>)
    requires
        forall|j: int| 0 <= j < s.len() ==> s[j].uid != uid,
    ensures
        pos_index_of(s, uid) == s.len(),
        pos_lookup(s, uid) is None,
    decreases s.len(),
{
    if s.len() > 0 {
        lemma_pos_not_found(s.drop_first(), uid);
    }
}

/// A match at index `k`, with no earlier match, pins down the lookup.
pub proof fn lemma_opt_first_index(s: Seq<OptEntryV>, uid: Seq<char>, k: int)
    requires
        0 <= k < s.len(),
        s[k].uid == uid,
        forall|j: int| 0 <= j < k ==> s[j].uid != uid,
    ensures
        opt_index_of(s, uid) == k,
        opt_lookup(s, uid) == Some(s[k]),
    decreases k,
{
    if k > 0 {
        lemma_opt_first_index(s.drop_first(), uid, k - 1);
    }
}

/// No match anywhere pins the lookup to `None`.
pub proof fn lemma_opt_not_found(s: Seq<OptEntryV>, uid: Seq<char>)
    requires
        forall|j: int| 0 <= j < s.len() ==> s[j].uid != uid,
    ensures
        opt_index_of(s, uid) == s.len(),
        opt_lookup(s, uid) is None,
    decreases s.len(),
{
    if s.len() > 0 {
        lemma_opt_not_found(s.drop_first(), uid);
    }
}

impl DictV {
    /// The empty dictionary a parse starts from.
    pub open spec fn empty(use_help: bool) -> DictV {
        DictV {
            use_help,
            positionals: Seq::empty(),
            options: Seq::empty(),
            warnings: Seq::empty(),
            errors: Seq::empty(),
        }
    }

    /// Whether the scan recorded the reserved help option.
    pub open spec fn help_requested(self) -> bool {
        self.use_help && opt_lookup(self.options, "help"@) is Some
    }
}

/// The parsed-out results of one `parse` call: positional and option
/// bindings, queryable by identifier, and the warnings and errors the
/// scan collected.
pub struct ArgDict {
    pub use_help: bool,
    pub positionals: Vec<PosEntry>,
    pub options: Vec<OptEntry>,
    pub warnings: Vec<String>,
    pub errors: Vec<String>,
}

impl View for ArgDict {
    type V = DictV;

    open spec fn view(&self) -> DictV {
        DictV {
            use_help: self.use_help,
            positionals: self.positionals@.map_values(|p: PosEntry| p@),
            options: self.options@.map_values(|o: OptEntry| o@),
            warnings: self.warnings@.map_values(|w: String| w@),
            errors: self.errors@.map_values(|e: String| e@),
        }
    }
}

impl ArgDict {
    /// Creates an empty dictionary for a fresh parse.
    pub(crate) fn new(use_help: bool) -> (result: ArgDict)
        ensures
            result@ == DictV::empty(use_help),
    {
        let result = ArgDict {
            use_help,
            positionals: Vec::new(),
            options: Vec::new(),
            warnings: Vec::new(),
            errors: Vec::new(),
        };
        proof {
            assert(result@.positionals =~= DictV::empty(use_help).positionals);
            assert(result@.options =~= DictV::empty(use_help).options);
            assert(result@.warnings =~= DictV::empty(use_help).warnings);
            assert(result@.errors =~= DictV::empty(use_help).errors);
        }
        result
    }

    /// Whether any errors occurred during parsing.
    pub fn has_errors(&self) -> (r: bool)
        ensures
            r == (self@.errors.len() > 0),
    {
        self.errors.len() > 0
    }

    /// The errors, in the order they were collected; empty when none
    /// occurred.
    pub fn get_errors(&self) -> (r: &Vec<String>)
        ensures
            r@.map_values(|e: String| e@) == self@.errors,
    {
        &self.errors
    }

    /// Whether any warnings occurred during parsing.
    pub fn has_warnings(&self) -> (r: bool)
        ensures
            r == (self@.warnings.len() > 0),
    {
        self.warnings.len() > 0
    }

    /// The warnings, in the order they were collected; empty when none
    /// occurred.
    pub fn get_warnings(&self) -> (r: &Vec<String>)
        ensures
            r@.map_values(|w: String| w@) == self@.warnings,
    {
        &self.warnings
    }

    /// Whether help-handling was active and the user gave the help option.
    pub fn has_help(&self) -> (r: bool)
        ensures
            r == self@.help_requested(),
    {
        if !self.use_help {
            return false;
        }
        self.has_opt("help")
    }

    /// Whether the positional with the given identifier was bound.
    pub fn has_pos(&self, uid: &str) -> (r: bool)
        ensures
            r == (pos_lookup(self@.positionals, uid@) is Some),
    {
        let n = self.positionals.len();
        let mut k: usize = 0;
        while k < n
            invariant
                n == self.positionals.len(),
                k <= n,
                forall|j: int| 0 <= j < k ==> self@.positionals[j].uid != uid@,
            decreases n - k,
        {
            if str_eq(self.positionals[k].uid.as_str(), uid) {
                proof {
                    assert(self@.positionals[k as int].uid == uid@);
                    lemma_pos_first_index(self@.positionals, uid@, k as int);
                }
                return true;
            }
            k += 1;
        }
        proof {
            lemma_pos_not_found(self@.positionals, uid@);
        }
        false
    }

    /// Whether the option with the given identifier occurred.
    pub fn has_opt(&self, uid: &str) -> (r: bool)
        ensures
            r == (opt_lookup(self@.options, uid@) is Some),
    {
        let n = self.options.len();
        let mut k: usize = 0;
        while k < n
            invariant
                n == self.options.len(),
                k <= n,
                forall|j: int| 0 <= j < k ==> self@.options[j].uid != uid@,
            decreases n - k,
        {
            if str_eq(self.options[k].uid.as_str(), uid) {
                proof {
                    assert(self@.options[k as int].uid == uid@);
                    lemma_opt_first_index(self@.options, uid@, k as int);
                }
                return true;
            }
            k += 1;
        }
        proof {
            lemma_opt_not_found(self@.options, uid@);
        }
        false
    }

    /// The raw value bound to the positional with the given identifier,
    /// or `None` when it was not bound.
    pub fn get_pos(&self, uid: &str) -> (r: Option<&str>)
        ensures
            r is Some <==> pos_lookup(self@.positionals, uid@) is Some,
            r matches Some(v) ==> Some(v@) == (match pos_lookup(self@.positionals, uid@) {
                Some(e) => Some(e.value),
                None => None,
            }),
    {
        let n = self.positionals.len();
        let mut k: usize = 0;
        while k < n
            invariant
                n == self.positionals.len(),
                k <= n,
                forall|j: int| 0 <= j < k ==> self@.positionals[j].uid != uid@,
            decreases n - k,
        {
            if str_eq(self.positionals[k].uid.as_str(), uid) {
                proof {
                    assert(self@.positionals[k as int].uid == uid@);
                    lemma_pos_first_index(self@.positionals, uid@, k as int);
                }
                return Some(self.positionals[k].value.as_str());
            }
            k += 1;
        }
        proof {
            lemma_pos_not_found(self@.positionals, uid@);
        }
        None
    }

    /// The values accumulated for the option with the given identifier:
    /// an empty list when the option occurred with no values, `None` when
    /// it never occurred.
    pub fn get_opt(&self, uid: &str) -> (r: Option<&Vec<String>>)
        ensures
            r is Some <==> opt_lookup(self@.options, uid@) is Some,
            r matches Some(v) ==> Some(v@.map_values(|s: String| s@)) == (match opt_lookup(
                self@.options,
                uid@,
            ) {
                Some(e) => Some(e.values),
                None => None,
            }),
    {
        let n = self.options.len();
        let mut k: usize = 0;
        while k < n
            invariant
                n == self.options.len(),
                k <= n,
                forall|j: int| 0 <= j < k ==> self@.options[j].uid != uid@,
            decreases n - k,
        {
            if str_eq(self.options[k].uid.as_str(), uid) {
                proof {
                    assert(self@.options[k as int].uid == uid@);
                    lemma_opt_first_index(self@.options, uid@, k as int);
                }
                return Some(&self.options[k].values);
            }
            k += 1;
        }
        proof {
            lemma_opt_not_found(self@.options, uid@);
        }
        None
    }
}

} // verus!
