//! The line-wrapping text formatter used for help output: splits a
//! description into words and separators, emits each word within the
//! line width (hard-splitting words that do not fit), and renders
//! spaces, newlines, carriage returns and tab stops.

use vstd::prelude::*;
use vstd::string::StrSliceExecFns;
use vstd::string::StringExecFns;

use crate::text::{generate_spaces, push_char, spec_spaces};

verus! {

/// Whether a character separates words: space, newline, carriage return
/// or tab.
pub open spec fn is_sep(c: char) -> bool {
    c == ' ' || c == '\n' || c == '\r' || c == '\t'
}

/// The index of the first separator in `text`, or `text.len()` when the
/// text is a single word.
pub open spec fn sep_pos(text: Seq<char>) -> int
    decreases text.len(),
{
    if text.len() == 0 {
        0
    } else if is_sep(text[0]) {
        0
    } else {
        1 + sep_pos(text.drop_first())
    }
}

/// `sep_pos` stays within the text.
pub proof fn lemma_sep_pos_bounds(text: Seq<char>)
    ensures
        0 <= sep_pos(text) <= text.len(),
    decreases text.len(),
{
    if text.len() > 0 && !is_sep(text[0]) {
        lemma_sep_pos_bounds(text.drop_first());
    }
}

/// No separator before `k`, and a separator (or the end) at `k`, pins
/// `sep_pos` down.
pub proof fn lemma_sep_pos_at(s: Seq<char>, k: int)
    requires
        0 <= k <= s.len(),
        forall|q: int| 0 <= q < k ==> !is_sep(s[q]),
        k < s.len() ==> is_sep(s[k]),
    ensures
        sep_pos(s) == k,
    decreases k,
{
    if k > 0 {
        lemma_sep_pos_at(s.drop_first(), k - 1);
    }
}

/// Text emitted at the cursor, and where the cursor ends up.
#[verifier::ext_equal]
pub struct WrapV {
    pub out: Seq<char>,
    pub x: int,
}

/// A line break followed by the indent.
pub open spec fn nl_indent(iw: int) -> Seq<char> {
    seq!['\n'] + spec_spaces(iw)
}

/// Emits the characters of one word one at a time, breaking to a new
/// indented line whenever the cursor reaches the line width.
pub open spec fn emit_chars(word: Seq<char>, x: int, iw: int, lw: int) -> WrapV
    decreases word.len(),
{
    if word.len() == 0 {
        WrapV { out: Seq::empty(), x }
    } else if x >= lw {
        let rest = emit_chars(word.drop_first(), iw + 1, iw, lw);
        WrapV { out: nl_indent(iw) + seq![word[0]] + rest.out, x: rest.x }
    } else {
        let rest = emit_chars(word.drop_first(), x + 1, iw, lw);
        WrapV { out: seq![word[0]] + rest.out, x: rest.x }
    }
}

/// Emits one word: when appending it would exceed the line width and the
/// cursor is not already at the start of an indented line, a line break
/// and the indent come first; the characters follow, hard-split at the
/// line width.
pub open spec fn emit_word(word: Seq<char>, x: int, iw: int, lw: int) -> WrapV {
    if word.len() == 0 {
        WrapV { out: Seq::empty(), x }
    } else if x != iw && x + word.len() + 1 >= lw {
        let rest = emit_chars(word, iw, iw, lw);
        WrapV { out: nl_indent(iw) + rest.out, x: rest.x }
    } else {
        emit_chars(word, x, iw, lw)
    }
}

/// Emits what follows a word: a space only when there is room before the
/// wrap boundary, a newline as an indented line break, a carriage return
/// as nothing, and a tab as spaces up to the next multiple of four,
/// dropped when that would cross the line width.
pub open spec fn emit_sep(sep: char, x: int, iw: int, lw: int) -> WrapV {
    if sep == ' ' {
        if x + 2 < lw {
            WrapV { out: seq![' '], x: x + 1 }
        } else {
            WrapV { out: Seq::empty(), x }
        }
    } else if sep == '\n' {
        WrapV { out: nl_indent(iw), x: iw }
    } else if sep == '\t' {
        let target = x - (x % 4) + 4;
        if target + 1 >= lw {
            WrapV { out: Seq::empty(), x }
        } else {
            WrapV { out: spec_spaces(target - x), x: target }
        }
    } else {
        WrapV { out: Seq::empty(), x }
    }
}

/// Word-wraps a whole text: word by word, each word followed by its
/// separator, until the end of the text.
pub open spec fn spec_wrap(text: Seq<char>, x: int, iw: int, lw: int) -> WrapV
    decreases text.len(),
    via spec_wrap_decreases
{
    let j = sep_pos(text);
    let w1 = emit_word(text.subrange(0, j), x, iw, lw);
    if j >= text.len() {
        w1
    } else {
        let s1 = emit_sep(text[j], w1.x, iw, lw);
        let rest = spec_wrap(text.subrange(j + 1, text.len() as int), s1.x, iw, lw);
        WrapV { out: w1.out + s1.out + rest.out, x: rest.x }
    }
}

#[via_fn]
proof fn spec_wrap_decreases(text: Seq<char>, x: int, iw: int, lw: int) {
    lemma_sep_pos_bounds(text);
}

/// The cursor column after appending `s` at column `x`: a newline
/// resets the column, every other character advances it by one.
pub open spec fn final_col(s: Seq<char>, x: int) -> int
    decreases s.len(),
{
    if s.len() == 0 {
        x
    } else if s[0] == '\n' {
        final_col(s.drop_first(), 0)
    } else {
        final_col(s.drop_first(), x + 1)
    }
}

/// The widest column the cursor reaches while appending `s` at column
/// `x` (the starting column included).
pub open spec fn max_col(s: Seq<char>, x: int) -> int
    decreases s.len(),
{
    if s.len() == 0 {
        x
    } else if s[0] == '\n' {
        let m = max_col(s.drop_first(), 0);
        if x > m {
            x
        } else {
            m
        }
    } else {
        max_col(s.drop_first(), x + 1)
    }
}

/// Columns compose over concatenation.
pub proof fn lemma_col_concat(a: Seq<char>, b: Seq<char>, x: int)
    ensures
        final_col(a + b, x) == final_col(b, final_col(a, x)),
        max_col(a + b, x) == (if max_col(a, x) > max_col(b, final_col(a, x)) {
            max_col(a, x)
        } else {
            max_col(b, final_col(a, x))
        }),
    decreases a.len(),
{
    if a.len() == 0 {
        assert(a + b =~= b);
        lemma_max_col_ge_final(b, x);
    } else {
        lemma_col_concat(a.drop_first(), b, if a[0] == '\n' {
            0
        } else {
            x + 1
        });
        assert((a + b).drop_first() =~= a.drop_first() + b);
    }
}

/// A text without newlines advances the cursor by its length.
pub proof fn lemma_col_no_newline(s: Seq<char>, x: int)
    requires
        forall|i: int| 0 <= i < s.len() ==> s[i] != '\n',
    ensures
        final_col(s, x) == x + s.len(),
        max_col(s, x) == x + s.len(),
    decreases s.len(),
{
    if s.len() > 0 {
        lemma_col_no_newline(s.drop_first(), x + 1);
    }
}

/// A run of spaces holds no newline.
pub proof fn lemma_spaces_no_newline(n: int)
    ensures
        forall|i: int| 0 <= i < spec_spaces(n).len() ==> spec_spaces(n)[i] != '\n',
    decreases n,
{
    if n > 0 {
        lemma_spaces_no_newline(n - 1);
        crate::text::lemma_spaces_len(n);
        crate::text::lemma_spaces_len(n - 1);
        assert forall|i: int|
            0 <= i < spec_spaces(n).len() implies spec_spaces(n)[i] != '\n' by {
            if i < n - 1 {
                assert(spec_spaces(n)[i] == spec_spaces(n - 1)[i]);
            } else {
                assert(spec_spaces(n)[i] == ' ');
            }
        }
    }
}

/// A line break and its indent leave the cursor at the indent column,
/// having reached no column beyond the wider of the start column and the
/// indent.
proof fn lemma_nl_indent_cols(iw: int, x: int)
    requires
        iw >= 0,
    ensures
        final_col(nl_indent(iw), x) == iw,
        max_col(nl_indent(iw), x) == (if x > iw {
            x
        } else {
            iw
        }),
{
    lemma_spaces_no_newline(iw);
    crate::text::lemma_spaces_len(iw);
    lemma_col_no_newline(spec_spaces(iw), 0);
    assert(nl_indent(iw).drop_first() =~= spec_spaces(iw));
}

proof fn lemma_emit_chars_cols(word: Seq<char>, x: int, iw: int, lw: int)
    requires
        0 <= iw < lw,
        forall|i: int| 0 <= i < word.len() ==> word[i] != '\n',
    ensures
        final_col(emit_chars(word, x, iw, lw).out, x) == emit_chars(word, x, iw, lw).x,
        max_col(emit_chars(word, x, iw, lw).out, x) <= (if x > lw {
            x
        } else {
            lw
        }),
    decreases word.len(),
{
    if word.len() > 0 {
        if x >= lw {
            let rest = emit_chars(word.drop_first(), iw + 1, iw, lw);
            lemma_emit_chars_cols(word.drop_first(), iw + 1, iw, lw);
            lemma_nl_indent_cols(iw, x);
            lemma_col_concat(nl_indent(iw), seq![word[0]] + rest.out, x);
            lemma_col_concat(seq![word[0]], rest.out, iw);
            assert(nl_indent(iw) + (seq![word[0]] + rest.out) =~= nl_indent(iw) + seq![word[0]]
                + rest.out);
            assert(seq![word[0]].drop_first() =~= Seq::<char>::empty());
            assert(final_col(Seq::<char>::empty(), iw + 1) == iw + 1);
            assert(max_col(Seq::<char>::empty(), iw + 1) == iw + 1);
            assert(final_col(seq![word[0]], iw) == iw + 1);
            assert(max_col(seq![word[0]], iw) == iw + 1);
        } else {
            let rest = emit_chars(word.drop_first(), x + 1, iw, lw);
            lemma_emit_chars_cols(word.drop_first(), x + 1, iw, lw);
            lemma_col_concat(seq![word[0]], rest.out, x);
            assert(seq![word[0]].drop_first() =~= Seq::<char>::empty());
            assert(final_col(Seq::<char>::empty(), x + 1) == x + 1);
            assert(max_col(Seq::<char>::empty(), x + 1) == x + 1);
            assert(final_col(seq![word[0]], x) == x + 1);
            assert(max_col(seq![word[0]], x) == x + 1);
        }
    }
}

proof fn lemma_emit_word_cols(word: Seq<char>, x: int, iw: int, lw: int)
    requires
        0 <= iw < lw,
        forall|i: int| 0 <= i < word.len() ==> word[i] != '\n',
    ensures
        final_col(emit_word(word, x, iw, lw).out, x) == emit_word(word, x, iw, lw).x,
        max_col(emit_word(word, x, iw, lw).out, x) <= (if x > lw {
            x
        } else {
            lw
        }),
{
    if word.len() == 0 {
    } else if x != iw && x + word.len() + 1 >= lw {
        let rest = emit_chars(word, iw, iw, lw);
        lemma_emit_chars_cols(word, iw, iw, lw);
        lemma_nl_indent_cols(iw, x);
        lemma_col_concat(nl_indent(iw), rest.out, x);
    } else {
        lemma_emit_chars_cols(word, x, iw, lw);
    }
}

proof fn lemma_emit_sep_cols(sep: char, x: int, iw: int, lw: int)
    requires
        0 <= iw < lw,
        x >= 0,
    ensures
        final_col(emit_sep(sep, x, iw, lw).out, x) == emit_sep(sep, x, iw, lw).x,
        max_col(emit_sep(sep, x, iw, lw).out, x) <= (if x > lw {
            x
        } else {
            lw
        }),
{
    if sep == ' ' {
        if x + 2 < lw {
            assert(seq![' '].drop_first() =~= Seq::<char>::empty());
            assert(final_col(Seq::<char>::empty(), x + 1) == x + 1);
            assert(max_col(Seq::<char>::empty(), x + 1) == x + 1);
            assert(final_col(seq![' '], x) == x + 1);
            assert(max_col(seq![' '], x) == x + 1);
        }
    } else if sep == '\n' {
        lemma_nl_indent_cols(iw, x);
    } else if sep == '\t' {
        let target = x - (x % 4) + 4;
        if target + 1 >= lw {
        } else {
            lemma_spaces_no_newline(target - x);
            crate::text::lemma_spaces_len(target - x);
            lemma_col_no_newline(spec_spaces(target - x), x);
        }
    }
}

/// Word-wrapped output never reaches a column beyond the line width:
/// starting from a cursor within the line, every line of the output,
/// its indent prefix included, stays within `lw` columns, and the
/// reported cursor is exactly the column after the output.  Words longer
/// than the room on a line are hard-split at the width, so even they
/// never push a line past it.
pub proof fn lemma_wrap_line_width_bound(text: Seq<char>, x: int, iw: int, lw: int)
    requires
        0 <= iw < lw,
        0 <= x,
    ensures
        final_col(spec_wrap(text, x, iw, lw).out, x) == spec_wrap(text, x, iw, lw).x,
        max_col(spec_wrap(text, x, iw, lw).out, x) <= (if x > lw {
            x
        } else {
            lw
        }),
    decreases text.len(),
{
    lemma_sep_pos_bounds(text);
    lemma_sep_pos_no_sep(text);
    let j = sep_pos(text);
    let word = text.subrange(0, j);
    assert forall|i: int| 0 <= i < word.len() implies word[i] != '\n' by {
        assert(word[i] == text[i]);
        assert(!is_sep(text[i]));
    }
    let w1 = emit_word(word, x, iw, lw);
    lemma_emit_word_cols(word, x, iw, lw);
    if j < text.len() {
        let s1 = emit_sep(text[j], w1.x, iw, lw);
        let rest = spec_wrap(text.subrange(j + 1, text.len() as int), s1.x, iw, lw);
        assert(w1.x >= 0 && w1.x <= (if x > lw {
            x
        } else {
            lw
        })) by {
            lemma_max_col_ge_final(w1.out, x);
            lemma_final_col_ge_zero(w1.out, x);
        }
        lemma_emit_sep_cols(text[j], w1.x, iw, lw);
        assert(s1.x >= 0 && s1.x <= (if w1.x > lw {
            w1.x
        } else {
            lw
        })) by {
            lemma_max_col_ge_final(s1.out, w1.x);
            lemma_final_col_ge_zero(s1.out, w1.x);
        }
        lemma_wrap_line_width_bound(text.subrange(j + 1, text.len() as int), s1.x, iw, lw);
        lemma_col_concat(w1.out, s1.out + rest.out, x);
        lemma_col_concat(s1.out, rest.out, w1.x);
        assert(w1.out + (s1.out + rest.out) =~= w1.out + s1.out + rest.out);
    }
}

/// Everything before the first separator is no separator.
proof fn lemma_sep_pos_no_sep(text: Seq<char>)
    ensures
        forall|q: int| 0 <= q < sep_pos(text) ==> !is_sep(text[q]),
    decreases text.len(),
{
    if text.len() > 0 && !is_sep(text[0]) {
        lemma_sep_pos_no_sep(text.drop_first());
        lemma_sep_pos_bounds(text.drop_first());
        assert forall|q: int| 0 <= q < sep_pos(text) implies !is_sep(text[q]) by {
            if q > 0 {
                assert(text.drop_first()[q - 1] == text[q]);
            }
        }
    }
}

/// The widest column reached is at least the final column.
proof fn lemma_max_col_ge_final(s: Seq<char>, x: int)
    ensures
        max_col(s, x) >= final_col(s, x),
        max_col(s, x) >= x,
    decreases s.len(),
{
    if s.len() > 0 {
        if s[0] == '\n' {
            lemma_max_col_ge_final(s.drop_first(), 0);
        } else {
            lemma_max_col_ge_final(s.drop_first(), x + 1);
        }
    }
}

/// A cursor that starts within the text stays non-negative.
proof fn lemma_final_col_ge_zero(s: Seq<char>, x: int)
    requires
        x >= 0,
    ensures
        final_col(s, x) >= 0,
    decreases s.len(),
{
    if s.len() > 0 {
        if s[0] == '\n' {
            lemma_final_col_ge_zero(s.drop_first(), 0);
        } else {
            lemma_final_col_ge_zero(s.drop_first(), x + 1);
        }
    }
}

/// The form of already-wrapped text at indent zero, read word by word
/// from column `x`: every word fits where it stands without a line
/// break, every space leaves room before the wrap boundary, and the
/// only separators are spaces and newlines.
pub open spec fn wrapped_form(s: Seq<char>, x: int, lw: int) -> bool
    decreases s.len(),
    via wrapped_form_decreases
{
    let j = sep_pos(s);
    &&& (j > 0 ==> (x == 0 || x + j + 1 < lw) && x + j <= lw)
    &&& if j >= s.len() {
        true
    } else if s[j] == ' ' {
        (x + j) + 2 < lw && wrapped_form(s.subrange(j + 1, s.len() as int), x + j + 1, lw)
    } else if s[j] == '\n' {
        wrapped_form(s.subrange(j + 1, s.len() as int), 0, lw)
    } else {
        false
    }
}

#[via_fn]
proof fn wrapped_form_decreases(s: Seq<char>, x: int, lw: int) {
    lemma_sep_pos_bounds(s);
}

/// A word that fits where it stands is emitted verbatim.
proof fn lemma_emit_chars_plain(word: Seq<char>, x: int, iw: int, lw: int)
    requires
        0 <= iw < lw,
        0 <= x,
        x + word.len() <= lw,
    ensures
        emit_chars(word, x, iw, lw) == (WrapV { out: word, x: x + word.len() }),
    decreases word.len(),
{
    if word.len() == 0 {
        assert(emit_chars(word, x, iw, lw).out =~= word);
    } else {
        lemma_emit_chars_plain(word.drop_first(), x + 1, iw, lw);
        assert(seq![word[0]] + word.drop_first() =~= word);
    }
}

/// Re-wrapping text in wrapped form at indent zero reproduces it.
proof fn lemma_rewrap_identity(s: Seq<char>, x: int, lw: int)
    requires
        0 < lw,
        0 <= x,
        wrapped_form(s, x, lw),
    ensures
        spec_wrap(s, x, 0, lw).out == s,
    decreases s.len(),
{
    lemma_sep_pos_bounds(s);
    let j = sep_pos(s);
    let word = s.subrange(0, j);
    if j > 0 {
        lemma_emit_chars_plain(word, x, 0, lw);
        assert(emit_word(word, x, 0, lw) == (WrapV { out: word, x: x + j }));
    } else {
        assert(word =~= Seq::<char>::empty());
        assert(emit_word(word, x, 0, lw).out =~= word);
    }
    let w1 = emit_word(word, x, 0, lw);
    assert(w1.x == x + j);
    if j >= s.len() {
        assert(word =~= s);
    } else {
        let rest_src = s.subrange(j + 1, s.len() as int);
        if s[j] == ' ' {
            assert(emit_sep(' ', w1.x, 0, lw) == (WrapV { out: seq![' '], x: x + j + 1 }));
            lemma_rewrap_identity(rest_src, x + j + 1, lw);
            assert(word + seq![s[j]] + rest_src =~= s);
            assert(spec_wrap(s, x, 0, lw).out =~= s);
        } else {
            assert(s[j] == '\n');
            assert(emit_sep('\n', w1.x, 0, lw).out =~= seq!['\n']);
            assert(emit_sep('\n', w1.x, 0, lw).x == 0);
            lemma_rewrap_identity(rest_src, 0, lw);
            assert(word + seq![s[j]] + rest_src =~= s);
            assert(spec_wrap(s, x, 0, lw).out =~= s);
        }
    }
}

/// The first separator of a text with a separator-free prefix sits past
/// that prefix.
proof fn lemma_sep_pos_prepend(w: Seq<char>, s: Seq<char>)
    requires
        forall|i: int| 0 <= i < w.len() ==> !is_sep(w[i]),
    ensures
        sep_pos(w + s) == w.len() + sep_pos(s),
    decreases w.len(),
{
    if w.len() == 0 {
        assert(w + s =~= s);
    } else {
        lemma_sep_pos_prepend(w.drop_first(), s);
        assert((w + s).drop_first() =~= w.drop_first() + s);
    }
}

/// Putting a separator-free word that fits where it stands in front of
/// wrapped-form text keeps the wrapped form.
proof fn lemma_form_prepend_word(w: Seq<char>, s: Seq<char>, x: int, lw: int)
    requires
        0 < lw,
        0 <= x,
        forall|i: int| 0 <= i < w.len() ==> !is_sep(w[i]),
        x == 0 || x + w.len() + 1 < lw,
        x + w.len() <= lw,
        wrapped_form(s, x + w.len(), lw),
    ensures
        wrapped_form(w + s, x, lw),
{
    lemma_sep_pos_prepend(w, s);
    lemma_sep_pos_bounds(s);
    let j2 = sep_pos(s);
    let cap = w.len() + j2;
    assert(sep_pos(w + s) == cap);
    if cap >= (w + s).len() {
    } else {
        assert((w + s)[cap] == s[j2]);
        assert((w + s).subrange(cap + 1, (w + s).len() as int) =~= s.subrange(
            j2 + 1,
            s.len() as int,
        ));
    }
}

/// A line break in front of wrapped-form text that restarts at column
/// zero keeps the wrapped form, whatever column it interrupts.
proof fn lemma_form_prepend_newline(s: Seq<char>, x: int, lw: int)
    requires
        wrapped_form(s, 0, lw),
    ensures
        wrapped_form(seq!['\n'] + s, x, lw),
{
    let t = seq!['\n'] + s;
    assert(t[0] == '\n');
    assert(sep_pos(t) == 0);
    assert(t.subrange(1, t.len() as int) =~= s);
}

/// A space with room before the wrap boundary in front of wrapped-form
/// text keeps the wrapped form.
proof fn lemma_form_prepend_space(s: Seq<char>, x: int, lw: int)
    requires
        x + 2 < lw,
        wrapped_form(s, x + 1, lw),
    ensures
        wrapped_form(seq![' '] + s, x, lw),
{
    let t = seq![' '] + s;
    assert(t[0] == ' ');
    assert(sep_pos(t) == 0);
    assert(t.subrange(1, t.len() as int) =~= s);
}

/// Every character of a run of spaces is a space.
proof fn lemma_spaces_all(n: int)
    ensures
        forall|i: int| 0 <= i < spec_spaces(n).len() ==> spec_spaces(n)[i] == ' ',
    decreases n,
{
    if n > 0 {
        lemma_spaces_all(n - 1);
        crate::text::lemma_spaces_len(n);
        crate::text::lemma_spaces_len(n - 1);
        assert forall|i: int| 0 <= i < spec_spaces(n).len() implies spec_spaces(n)[i] == ' ' by {
            if i < n - 1 {
                assert(spec_spaces(n)[i] == spec_spaces(n - 1)[i]);
            } else {
                assert(spec_spaces(n)[i] == ' ');
            }
        }
    }
}

/// A run of spaces that stays clear of the wrap boundary in front of
/// wrapped-form text keeps the wrapped form.
proof fn lemma_form_prepend_spaces(n: int, s: Seq<char>, x: int, lw: int)
    requires
        0 <= n,
        x + n + 1 < lw,
        0 <= x,
        wrapped_form(s, x + n, lw),
    ensures
        wrapped_form(spec_spaces(n) + s, x, lw),
    decreases n,
{
    crate::text::lemma_spaces_len(n);
    if n == 0 {
        assert(spec_spaces(0) + s =~= s);
    } else {
        lemma_form_prepend_spaces(n - 1, s, x + 1, lw);
        lemma_spaces_all(n);
        lemma_spaces_all(n - 1);
        crate::text::lemma_spaces_len(n - 1);
        assert(spec_spaces(n) =~= seq![' '] + spec_spaces(n - 1));
        lemma_form_prepend_space(spec_spaces(n - 1) + s, x, lw);
        assert(seq![' '] + (spec_spaces(n - 1) + s) =~= spec_spaces(n) + s);
    }
}

/// A word too long for the room on its line is emitted as the chars
/// that fill the line, a break, and the rest from column zero.
proof fn lemma_emit_chars_split(word: Seq<char>, x: int, lw: int)
    requires
        0 < lw,
        0 <= x < lw,
        x + word.len() > lw,
    ensures
        emit_chars(word, x, 0, lw) == (WrapV {
            out: word.subrange(0, lw - x) + seq!['\n'] + emit_chars(
                word.subrange(lw - x, word.len() as int),
                0,
                0,
                lw,
            ).out,
            x: emit_chars(word.subrange(lw - x, word.len() as int), 0, 0, lw).x,
        }),
    decreases lw - x,
{
    let drop = word.drop_first();
    if x + 1 == lw {
        // the line is full after this character; the rest restarts at
        // column zero through a break
        assert(drop.len() > 0);
        let after = emit_chars(drop.drop_first(), 1, 0, lw);
        assert(emit_chars(drop, lw, 0, lw) == (WrapV {
            out: nl_indent(0) + seq![drop[0]] + after.out,
            x: after.x,
        }));
        assert(emit_chars(drop, 0, 0, lw) == (WrapV { out: seq![drop[0]] + after.out, x: after.x }));
        assert(nl_indent(0) =~= seq!['\n']);
        assert(word.subrange(0, 1) =~= seq![word[0]]);
        assert(word.subrange(1, word.len() as int) =~= drop);
        assert(emit_chars(word, x, 0, lw).out =~= word.subrange(0, lw - x) + seq!['\n']
            + emit_chars(word.subrange(lw - x, word.len() as int), 0, 0, lw).out);
    } else {
        lemma_emit_chars_split(drop, x + 1, lw);
        assert(word.subrange(0, lw - x) =~= seq![word[0]] + drop.subrange(0, lw - x - 1));
        assert(word.subrange(lw - x, word.len() as int) =~= drop.subrange(
            lw - x - 1,
            drop.len() as int,
        ));
        assert(emit_chars(word, x, 0, lw).out =~= word.subrange(0, lw - x) + seq!['\n']
            + emit_chars(word.subrange(lw - x, word.len() as int), 0, 0, lw).out);
    }
}

/// The chars of a separator-free word emitted from column zero, in
/// front of wrapped-form text at the cursor they leave, stay in wrapped
/// form.
proof fn lemma_form_emit_chars_zero(word: Seq<char>, lw: int, cont: Seq<char>)
    requires
        0 < lw,
        forall|i: int| 0 <= i < word.len() ==> !is_sep(word[i]),
        wrapped_form(cont, emit_chars(word, 0, 0, lw).x, lw),
    ensures
        wrapped_form(emit_chars(word, 0, 0, lw).out + cont, 0, lw),
    decreases word.len(),
{
    if word.len() <= lw {
        lemma_emit_chars_plain(word, 0, 0, lw);
        lemma_form_prepend_word(word, cont, 0, lw);
        assert(emit_chars(word, 0, 0, lw).out + cont =~= word + cont);
    } else {
        lemma_emit_chars_split(word, 0, lw);
        let chunk = word.subrange(0, lw);
        let rem = word.subrange(lw, word.len() as int);
        assert forall|i: int| 0 <= i < rem.len() implies !is_sep(rem[i]) by {
            assert(rem[i] == word[lw + i]);
        }
        assert forall|i: int| 0 <= i < chunk.len() implies !is_sep(chunk[i]) by {
            assert(chunk[i] == word[i]);
        }
        lemma_form_emit_chars_zero(rem, lw, cont);
        let inner = emit_chars(rem, 0, 0, lw).out + cont;
        lemma_form_prepend_newline(inner, lw, lw);
        lemma_form_prepend_word(chunk, seq!['\n'] + inner, 0, lw);
        assert(emit_chars(word, 0, 0, lw).out + cont =~= chunk + (seq!['\n'] + inner));
    }
}

/// One emitted word, in front of wrapped-form text at the cursor it
/// leaves, stays in wrapped form.
proof fn lemma_form_emit_word(word: Seq<char>, x: int, lw: int, cont: Seq<char>)
    requires
        0 < lw,
        0 <= x,
        forall|i: int| 0 <= i < word.len() ==> !is_sep(word[i]),
        wrapped_form(cont, emit_word(word, x, 0, lw).x, lw),
    ensures
        wrapped_form(emit_word(word, x, 0, lw).out + cont, x, lw),
{
    if word.len() == 0 {
        assert(emit_word(word, x, 0, lw).out + cont =~= cont);
    } else if x != 0 && x + word.len() + 1 >= lw {
        lemma_form_emit_chars_zero(word, lw, cont);
        lemma_form_prepend_newline(emit_chars(word, 0, 0, lw).out + cont, x, lw);
        assert(nl_indent(0) =~= seq!['\n']);
        assert(emit_word(word, x, 0, lw).out + cont =~= seq!['\n'] + (emit_chars(
            word,
            0,
            0,
            lw,
        ).out + cont));
    } else if x == 0 {
        lemma_form_emit_chars_zero(word, lw, cont);
    } else {
        lemma_emit_chars_plain(word, x, 0, lw);
        lemma_form_prepend_word(word, cont, x, lw);
    }
}

/// Wrapping any text at indent zero produces wrapped-form output.
proof fn lemma_wrap_form(text: Seq<char>, x: int, lw: int)
    requires
        0 < lw,
        0 <= x,
    ensures
        wrapped_form(spec_wrap(text, x, 0, lw).out, x, lw),
    decreases text.len(),
{
    lemma_sep_pos_bounds(text);
    lemma_sep_pos_no_sep(text);
    let j = sep_pos(text);
    let word = text.subrange(0, j);
    assert forall|i: int| 0 <= i < word.len() implies !is_sep(word[i]) by {
        assert(word[i] == text[i]);
    }
    let w1 = emit_word(word, x, 0, lw);
    lemma_emit_word_cols(word, x, 0, lw);
    lemma_max_col_ge_final(w1.out, x);
    lemma_final_col_ge_zero(w1.out, x);
    if j >= text.len() {
        lemma_form_emit_word(word, x, lw, Seq::empty());
        assert(w1.out + Seq::<char>::empty() =~= w1.out);
    } else {
        let s1 = emit_sep(text[j], w1.x, 0, lw);
        let tail_src = text.subrange(j + 1, text.len() as int);
        lemma_emit_sep_cols(text[j], w1.x, 0, lw);
        lemma_final_col_ge_zero(s1.out, w1.x);
        let rest = spec_wrap(tail_src, s1.x, 0, lw);
        lemma_wrap_form(tail_src, s1.x, lw);
        let cont = s1.out + rest.out;
        if text[j] == ' ' {
            if w1.x + 2 < lw {
                lemma_form_prepend_space(rest.out, w1.x, lw);
                assert(cont =~= seq![' '] + rest.out);
            } else {
                assert(cont =~= rest.out);
            }
        } else if text[j] == '\n' {
            lemma_form_prepend_newline(rest.out, w1.x, lw);
            assert(nl_indent(0) =~= seq!['\n']);
            assert(cont =~= seq!['\n'] + rest.out);
        } else if text[j] == '\t' {
            let target = w1.x - (w1.x % 4) + 4;
            if target + 1 >= lw {
                assert(cont =~= rest.out);
            } else {
                lemma_form_prepend_spaces(target - w1.x, rest.out, w1.x, lw);
                assert(cont =~= spec_spaces(target - w1.x) + rest.out);
            }
        } else {
            assert(cont =~= rest.out);
        }
        assert(wrapped_form(cont, w1.x, lw));
        lemma_form_emit_word(word, x, lw, cont);
        assert(spec_wrap(text, x, 0, lw).out =~= w1.out + cont);
        assert(wrapped_form(spec_wrap(text, x, 0, lw).out, x, lw));
    }
}

/// Word-wrapping at indent zero is idempotent: re-wrapping already
/// wrapped output, at the same width and from the start of a line,
/// reproduces it exactly.  (With a non-zero indent the indent spaces of
/// a wrapped line read back as word separators, so re-wrapping widens
/// the indent: idempotence holds only at indent zero.)
pub proof fn lemma_wrap_idempotent_at_zero_indent(text: Seq<char>, lw: int)
    requires
        0 < lw,
    ensures
        spec_wrap(spec_wrap(text, 0, 0, lw).out, 0, 0, lw).out == spec_wrap(text, 0, 0, lw).out,
{
    lemma_wrap_form(text, 0, lw);
    lemma_rewrap_identity(spec_wrap(text, 0, 0, lw).out, 0, lw);
}

/// Whether a character separates words.
fn is_sep_exec(c: char) -> (r: bool)
    ensures
        r == is_sep(c),
{
    c == ' ' || c == '\n' || c == '\r' || c == '\t'
}

/// Appends a line break and the indent, and resets the cursor.
fn emit_newline_indent(result: &mut String, x: &mut usize, iw: usize)
    ensures
        final(result)@ == old(result)@ + nl_indent(iw as int),
        *final(x) == iw,
{
    push_char(result, '\n');
    let sp = generate_spaces(iw);
    result.append(sp.as_str());
    *x = iw;
    proof {
        assert(result@ =~= old(result)@ + nl_indent(iw as int));
    }
}

/// Appends one word, hard-split at the line width.
fn emit_word_exec(result: &mut String, x: &mut usize, word: &str, iw: usize, lw: usize)
    requires
        iw < lw,
        *old(x) + word@.len() + 2 <= usize::MAX,
    ensures
        ({
            let w = emit_word(word@, *old(x) as int, iw as int, lw as int);
            &&& final(result)@ == old(result)@ + w.out
            &&& *final(x) == w.x
            &&& *final(x) <= lw || *final(x) == *old(x)
        }),
{
    let wlen = word.unicode_len();
    if wlen == 0 {
        proof {
            assert(result@ =~= result@ + emit_word(word@, *x as int, iw as int, lw as int).out);
        }
        return ;
    }
    if *x != iw && *x + wlen + 1 >= lw {
        emit_newline_indent(result, x, iw);
    }
    let ghost mid_result = result@;
    let ghost xe = *x as int;
    let ghost fullc = emit_chars(word@, xe, iw as int, lw as int);
    proof {
        assert(word@.subrange(0, wlen as int) =~= word@);
    }
    let mut q: usize = 0;
    while q < wlen
        invariant
            iw < lw,
            wlen == word@.len(),
            q <= wlen,
            fullc == emit_chars(word@, xe, iw as int, lw as int),
            mid_result + fullc.out == result@ + emit_chars(
                word@.subrange(q as int, wlen as int),
                *x as int,
                iw as int,
                lw as int,
            ).out,
            fullc.x == emit_chars(
                word@.subrange(q as int, wlen as int),
                *x as int,
                iw as int,
                lw as int,
            ).x,
            *x <= lw,
        decreases wlen - q,
    {
        let ghost rem = word@.subrange(q as int, wlen as int);
        proof {
            assert(rem.len() > 0);
            assert(rem[0] == word@[q as int]);
            assert(rem.drop_first() =~= word@.subrange(q as int + 1, wlen as int));
        }
        if *x >= lw {
            emit_newline_indent(result, x, iw);
        }
        let c = word.get_char(q);
        push_char(result, c);
        *x += 1;
        q += 1;
        proof {
            assert(mid_result + fullc.out == result@ + emit_chars(
                word@.subrange(q as int, wlen as int),
                *x as int,
                iw as int,
                lw as int,
            ).out);
        }
    }
    proof {
        assert(word@.subrange(wlen as int, wlen as int) =~= Seq::<char>::empty());
        assert(emit_chars(Seq::<char>::empty(), *x as int, iw as int, lw as int).out
            =~= Seq::<char>::empty());
        assert(mid_result + fullc.out =~= result@);
    }
}

/// Appends what follows a word.
fn emit_sep_exec(result: &mut String, x: &mut usize, sep: char, iw: usize, lw: usize)
    requires
        iw < lw,
        *old(x) + 8 <= usize::MAX,
    ensures
        ({
            let w = emit_sep(sep, *old(x) as int, iw as int, lw as int);
            &&& final(result)@ == old(result)@ + w.out
            &&& *final(x) == w.x
        }),
{
    if sep == ' ' {
        if *x + 2 < lw {
            push_char(result, ' ');
            *x += 1;
            proof {
                assert(result@ =~= old(result)@ + seq![' ']);
            }
        } else {
            proof {
                assert(result@ =~= old(result)@
                    + emit_sep(sep, *old(x) as int, iw as int, lw as int).out);
            }
        }
    } else if sep == '\n' {
        emit_newline_indent(result, x, iw);
    } else if sep == '\t' {
        let target = *x - (*x % 4) + 4;
        if target + 1 >= lw {
            proof {
                assert(result@ =~= old(result)@
                    + emit_sep(sep, *old(x) as int, iw as int, lw as int).out);
            }
        } else {
            let sp = generate_spaces(target - *x);
            result.append(sp.as_str());
            *x = target;
            proof {
                assert(result@ =~= old(result)@ + spec_spaces(target as int - *old(x) as int));
            }
        }
    } else {
        proof {
            assert(result@ =~= old(result)@
                + emit_sep(sep, *old(x) as int, iw as int, lw as int).out);
        }
    }
}

impl crate::registry::ArgParser {
    /// Appends `description` to `result`, word-wrapped: lines break at
    /// `line_width` columns and every new line starts with `indent_width`
    /// spaces; `x` tracks the cursor column across the call.
    ///
    /// The indent must be narrower than the line.
    pub fn print_description(
        result: &mut String,
        x: &mut usize,
        description: &str,
        indent_width: usize,
        line_width: usize,
    )
        requires
            indent_width < line_width,
            *old(x) + description@.len() + line_width + 8 <= usize::MAX,
        ensures
            ({
                let w = spec_wrap(
                    description@,
                    *old(x) as int,
                    indent_width as int,
                    line_width as int,
                );
                &&& final(result)@ == old(result)@ + w.out
                &&& *final(x) == w.x
            }),
    {
        let ghost full = spec_wrap(
            description@,
            *old(x) as int,
            indent_width as int,
            line_width as int,
        );
        let dlen = description.unicode_len();
        let mut pos: usize = 0;
        let mut stopped = false;
        proof {
            assert(description@.subrange(0, dlen as int) =~= description@);
        }
        while !stopped
            invariant
                indent_width < line_width,
                dlen == description@.len(),
                pos <= dlen,
                *old(x) + description@.len() + line_width + 8 <= usize::MAX,
                *x <= line_width || *x == *old(x),
                full == spec_wrap(
                    description@,
                    *old(x) as int,
                    indent_width as int,
                    line_width as int,
                ),
                old(result)@ + full.out == result@ + spec_wrap(
                    description@.subrange(pos as int, dlen as int),
                    *x as int,
                    indent_width as int,
                    line_width as int,
                ).out,
                full.x == spec_wrap(
                    description@.subrange(pos as int, dlen as int),
                    *x as int,
                    indent_width as int,
                    line_width as int,
                ).x,
                stopped ==> pos == dlen,
            decreases dlen - pos, (if stopped {
                0int
            } else {
                1int
            }),
        {
            let ghost rem = description@.subrange(pos as int, dlen as int);
            let mut j = pos;
            while j < dlen && !is_sep_exec(description.get_char(j))
                invariant
                    dlen == description@.len(),
                    pos <= j <= dlen,
                    forall|q: int| pos <= q < j ==> !is_sep(description@[q]),
                decreases dlen - j,
            {
                j += 1;
            }
            proof {
                assert forall|q: int| 0 <= q < j - pos implies !is_sep(rem[q]) by {
                    assert(rem[q] == description@[pos + q]);
                }
                if (j as int) - (pos as int) < rem.len() {
                    assert(rem[j - pos] == description@[j as int]);
                }
                lemma_sep_pos_at(rem, j as int - pos as int);
                assert(rem.subrange(0, j as int - pos as int) =~= description@.subrange(
                    pos as int,
                    j as int,
                ));
            }
            let word = description.substring_char(pos, j);
            emit_word_exec(result, x, word, indent_width, line_width);
            if j < dlen {
                let sep = description.get_char(j);
                emit_sep_exec(result, x, sep, indent_width, line_width);
                proof {
                    assert(rem.subrange(j as int - pos as int + 1, rem.len() as int)
                        =~= description@.subrange(j as int + 1, dlen as int));
                }
                pos = j + 1;
                proof {
                    assert(old(result)@ + full.out =~= result@ + spec_wrap(
                        description@.subrange(pos as int, dlen as int),
                        *x as int,
                        indent_width as int,
                        line_width as int,
                    ).out);
                }
            } else {
                stopped = true;
                pos = j;
                proof {
                    assert(rem.subrange(0, rem.len() as int) =~= rem);
                    assert(description@.subrange(pos as int, dlen as int)
                        =~= Seq::<char>::empty());
                    assert(spec_wrap(
                        Seq::<char>::empty(),
                        *x as int,
                        indent_width as int,
                        line_width as int,
                    ).out =~= Seq::<char>::empty());
                    assert(old(result)@ + full.out =~= result@ + spec_wrap(
                        description@.subrange(pos as int, dlen as int),
                        *x as int,
                        indent_width as int,
                        line_width as int,
                    ).out);
                }
            }
        }
        proof {
            assert(description@.subrange(dlen as int, dlen as int) =~= Seq::<char>::empty());
            let tail = spec_wrap(
                Seq::<char>::empty(),
                *x as int,
                indent_width as int,
                line_width as int,
            );
            assert(tail.out =~= Seq::<char>::empty());
            assert(old(result)@ + full.out =~= result@);
        }
    }
}

} // verus!
