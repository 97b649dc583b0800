//! The mathematical model of the analysis: how a document's text splits into
//! lines, which lines count, what level each one sits at, and how the levels
//! reduce to a single indentation unit.

use vstd::prelude::*;

verus! {

// ---------------------------------------------------------------------------
// Characters and single lines
// ---------------------------------------------------------------------------

/// A whitespace character as the line filter understands it: the characters
/// with the Unicode `White_Space` property, given by their scalar values.
pub open spec fn is_ws_char(c: char) -> bool {
    let u = c as u32;
    ||| u == 0x20
    ||| (0x09 <= u && u <= 0x0d)
    ||| u == 0x85
    ||| u == 0xa0
    ||| u == 0x1680
    ||| (0x2000 <= u && u <= 0x200a)
    ||| u == 0x2028
    ||| u == 0x2029
    ||| u == 0x202f
    ||| u == 0x205f
    ||| u == 0x3000
}

/// The number of leading space characters of a line.
pub open spec fn leading_spaces(l: Seq<char>) -> nat
    decreases l.len(),
{
    if l.len() == 0 || l[0] != ' ' {
        0
    } else {
        1 + leading_spaces(l.drop_first())
    }
}

/// The position of the first character of a line that is not whitespace,
/// or the line's length if every character is whitespace.
pub open spec fn first_nonws(l: Seq<char>) -> nat
    decreases l.len(),
{
    if l.len() == 0 {
        0
    } else if !is_ws_char(l[0]) {
        0
    } else {
        1 + first_nonws(l.drop_first())
    }
}

/// A line that contributes nothing: blank (only whitespace), or a comment
/// (its first non-whitespace character is `#`).
pub open spec fn is_skip_line(l: Seq<char>) -> bool {
    first_nonws(l) == l.len() || l[first_nonws(l) as int] == '#'
}

/// A line whose indentation is rejected: the character just after its
/// leading spaces is a tab.
pub open spec fn is_tab_line(l: Seq<char>) -> bool {
    leading_spaces(l) < l.len() && l[leading_spaces(l) as int] == '\t'
}

// ---------------------------------------------------------------------------
// Splitting a document into lines
// ---------------------------------------------------------------------------

/// The length of the first line of `s`: the distance to the first newline,
/// or `s.len()` if there is none.
pub open spec fn line_len(s: Seq<char>) -> nat
    decreases s.len(),
{
    if s.len() == 0 {
        0
    } else if s[0] == '\n' {
        0
    } else {
        1 + line_len(s.drop_first())
    }
}

/// What remains of `s` after its first line and the newline that ends it.
pub open spec fn rest_after(s: Seq<char>) -> Seq<char> {
    if line_len(s) >= s.len() {
        Seq::empty()
    } else {
        s.skip(line_len(s) as int + 1)
    }
}

/// The levels of a document: the count of leading spaces of each line that
/// is neither blank nor a comment, in document order.
pub open spec fn doc_levels(s: Seq<char>) -> Seq<nat>
    decreases s.len(),
{
    if s.len() == 0 {
        seq![]
    } else {
        let l = s.take(line_len(s) as int);
        let head: Seq<nat> = if is_skip_line(l) {
            seq![]
        } else {
            seq![leading_spaces(l)]
        };
        head + doc_levels(rest_after(s))
    }
}

/// Whether some content line of the document has a tab just after its
/// leading spaces. Such a document is rejected outright.
pub open spec fn doc_tab(s: Seq<char>) -> bool
    decreases s.len(),
{
    if s.len() == 0 {
        false
    } else {
        let l = s.take(line_len(s) as int);
        (!is_skip_line(l) && is_tab_line(l)) || doc_tab(rest_after(s))
    }
}

// ---------------------------------------------------------------------------
// Reducing the levels to a unit
// ---------------------------------------------------------------------------

/// Greatest common divisor by Euclid's algorithm; `gcd_nat(a, 0) == a`.
pub open spec fn gcd_nat(a: nat, b: nat) -> nat
    decreases b,
{
    if b == 0 {
        a
    } else {
        gcd_nat(b, a % b)
    }
}

/// `gcd_nat` folded over a sequence, starting from `acc`.
pub open spec fn gcd_fold(acc: nat, s: Seq<nat>) -> nat
    decreases s.len(),
{
    if s.len() == 0 {
        acc
    } else {
        gcd_fold(gcd_nat(acc, s[0]), s.drop_first())
    }
}

/// The absolute difference of two levels.
pub open spec fn level_diff(a: nat, b: nat) -> nat {
    if a >= b {
        (a - b) as nat
    } else {
        (b - a) as nat
    }
}

/// The level changes of a document, walked in order with an implicit
/// starting level of `prev`: whenever a line's level differs from the
/// previous line's, the absolute difference is recorded.
pub open spec fn step_diffs(levels: Seq<nat>, prev: nat) -> Seq<nat>
    decreases levels.len(),
{
    if levels.len() == 0 {
        seq![]
    } else {
        let head: Seq<nat> = if levels[0] != prev {
            seq![level_diff(levels[0], prev)]
        } else {
            seq![]
        };
        head + step_diffs(levels.drop_first(), levels[0])
    }
}

/// The levels that sit beyond column 0, in order, with repetitions.
pub open spec fn nonzero_levels(levels: Seq<nat>) -> Seq<nat>
    decreases levels.len(),
{
    if levels.len() == 0 {
        seq![]
    } else {
        let head: Seq<nat> = if levels[0] != 0 {
            seq![levels[0]]
        } else {
            seq![]
        };
        head + nonzero_levels(levels.drop_first())
    }
}

/// The indentation unit inferred from a level sequence: the greatest common
/// divisor of every recorded level change and of every non-zero level.
pub open spec fn indent_unit(levels: Seq<nat>) -> nat {
    gcd_fold(0, step_diffs(levels, 0) + nonzero_levels(levels))
}

/// The outcome of unit inference: no signal when no line sits beyond
/// column 0 (in particular when there is no content line at all), and the
/// inferred unit otherwise. A unit of 0 is normalized to no signal.
pub open spec fn detected_unit(levels: Seq<nat>) -> Option<nat> {
    if forall|i: int| 0 <= i < levels.len() ==> levels[i] == 0 {
        None
    } else if indent_unit(levels) == 0 {
        None
    } else {
        Some(indent_unit(levels))
    }
}

/// The unit detected in a document's text, assuming its indentation was not
/// rejected for a tab.
pub open spec fn detected(text: Seq<char>) -> Option<nat> {
    detected_unit(doc_levels(text))
}

// ---------------------------------------------------------------------------
// Bridging executable values and the model
// ---------------------------------------------------------------------------

/// A vector of machine integers, read as mathematical levels.
pub open spec fn as_nats(v: Seq<usize>) -> Seq<nat> {
    v.map_values(|x: usize| x as nat)
}

/// An optional machine integer, read as an optional level.
pub open spec fn opt_as_nat(o: Option<usize>) -> Option<nat> {
    match o {
        Option::None => None,
        Option::Some(u) => Some(u as nat),
    }
}

// ---------------------------------------------------------------------------
// Basic facts about the line model
// ---------------------------------------------------------------------------

/// `line_len` points at the first newline: nothing before it is a newline,
/// and the character there (if any) is one.
pub proof fn lemma_line_len_bounds(s: Seq<char>)
    ensures
        line_len(s) <= s.len(),
        forall|k: int| 0 <= k < line_len(s) ==> s[k] != '\n',
        line_len(s) < s.len() ==> s[line_len(s) as int] == '\n',
    decreases s.len(),
{
    if s.len() != 0 && s[0] != '\n' {
        lemma_line_len_bounds(s.drop_first());
        assert forall|k: int| 0 <= k < line_len(s) implies s[k] != '\n' by {
            if k > 0 {
                assert(s.drop_first()[k - 1] != '\n');
            }
        }
    }
}

/// A scan that saw `m` non-newline characters and then a newline (or the
/// end) has found the first line's length.
pub proof fn lemma_line_len_is(s: Seq<char>, m: nat)
    requires
        m <= s.len(),
        forall|k: int| 0 <= k < m ==> s[k] != '\n',
        m < s.len() ==> s[m as int] == '\n',
    ensures
        line_len(s) == m,
    decreases m,
{
    if m == 0 {
    } else {
        lemma_line_len_is(s.drop_first(), (m - 1) as nat);
    }
}

/// A scan that saw `m` spaces and then something else (or the end) has
/// found the count of leading spaces.
pub proof fn lemma_leading_spaces_is(l: Seq<char>, m: nat)
    requires
        m <= l.len(),
        forall|k: int| 0 <= k < m ==> l[k] == ' ',
        m < l.len() ==> l[m as int] != ' ',
    ensures
        leading_spaces(l) == m,
    decreases m,
{
    if m == 0 {
    } else {
        lemma_leading_spaces_is(l.drop_first(), (m - 1) as nat);
    }
}

/// A scan that saw `m` whitespace characters and then a non-whitespace one
/// (or the end) has found the first non-whitespace position.
pub proof fn lemma_first_nonws_is(l: Seq<char>, m: nat)
    requires
        m <= l.len(),
        forall|k: int| 0 <= k < m ==> is_ws_char(l[k]),
        m < l.len() ==> !is_ws_char(l[m as int]),
    ensures
        first_nonws(l) == m,
    decreases m,
{
    if m == 0 {
    } else {
        lemma_first_nonws_is(l.drop_first(), (m - 1) as nat);
    }
}

} // verus!
