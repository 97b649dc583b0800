//! Laws of the analysis, each proved once and for all inputs.

use crate::model::{
    detected, detected_unit, doc_levels, doc_tab, gcd_fold, gcd_nat, indent_unit, is_skip_line,
    lemma_line_len_bounds, lemma_line_len_is, level_diff, line_len, nonzero_levels, rest_after,
    step_diffs,
};
use crate::{
    detection_conforms, slice_detection_conforms, yaml_accepts, DetectError, Indentation,
};
use vstd::arithmetic::div_mod::{
    lemma_mod_add_multiples_vanish, lemma_mod_self_0, lemma_mod_sub_multiples_vanish,
    lemma_small_mod,
};
use vstd::prelude::*;

verus! {

/// Law: a document none of whose content lines is indented yields no
/// indentation signal.
pub proof fn lemma_flat_document_none(text: Seq<char>)
    requires
        forall|i: int| 0 <= i < doc_levels(text).len() ==> doc_levels(text)[i] == 0,
    ensures
        detected(text) is None,
{
}

/// Law: a tab in the indentation of a content line defeats the call: no
/// conforming result is a success, whatever the surrounding structure.
pub proof fn lemma_tab_always_fails(
    text: Seq<char>,
    accepted: bool,
    r: Result<Option<Indentation>, DetectError>,
)
    requires
        detection_conforms(text, accepted, r),
        doc_tab(text),
    ensures
        r is Err,
{
}

/// Two detection results that are the same observable outcome: both succeed
/// with the very same value, or both fail with the same kind of error
/// carrying the same characters. (Two separately allocated `String`s are
/// compared by the characters they hold.)
pub open spec fn results_agree(
    r1: Result<Option<Indentation>, DetectError>,
    r2: Result<Option<Indentation>, DetectError>,
) -> bool {
    &&& (r1 is Ok <==> r2 is Ok)
    &&& (r1 is Ok ==> r1 == r2)
    &&& (r1 is Err && r2 is Err) ==> ({
        let e1 = r1->Err_0;
        let e2 = r2->Err_0;
        &&& (e1 is Syntax <==> e2 is Syntax)
        &&& (e1 is Encoding <==> e2 is Encoding)
        &&& (e1 is TabIndentation <==> e2 is TabIndentation)
        &&& (e1 is Syntax && e2 is Syntax ==> e1->Syntax_0@ == e2->Syntax_0@)
        &&& (e1 is Encoding && e2 is Encoding ==> e1->Encoding_0@ == e2->Encoding_0@)
    })
}

/// Law: detection is a function of its input, with no hidden state: any two
/// results the contract admits for the same text and the same parser
/// verdict are the same outcome.
pub proof fn lemma_detection_deterministic(
    text: Seq<char>,
    accepted: bool,
    r1: Result<Option<Indentation>, DetectError>,
    r2: Result<Option<Indentation>, DetectError>,
)
    requires
        detection_conforms(text, accepted, r1),
        detection_conforms(text, accepted, r2),
    ensures
        results_agree(r1, r2),
{
    if accepted && !doc_tab(text) {
        let u1 = r1->Ok_0;
        let u2 = r2->Ok_0;
        match (u1, u2) {
            (Option::Some(a), Option::Some(b)) => {
                Indentation::lemma_spaces_injective(a, b);
            },
            _ => {},
        }
    }
}

/// Law: the two entry points differ only in input representation. On a text
/// and on its own UTF-8 bytes, any results their contracts admit are the
/// same outcome.
pub proof fn lemma_entry_points_agree(
    text: Seq<char>,
    r1: Result<Option<Indentation>, DetectError>,
    r2: Result<Option<Indentation>, DetectError>,
)
    requires
        detection_conforms(text, yaml_accepts(text), r1),
        slice_detection_conforms(vstd::utf8::encode_utf8(text), r2),
    ensures
        results_agree(r1, r2),
{
    vstd::utf8::encode_utf8_valid_utf8(text);
    vstd::utf8::encode_utf8_decode_utf8(text);
    lemma_detection_deterministic(text, yaml_accepts(text), r1, r2);
}

// ---------------------------------------------------------------------------
// Blank and comment lines
// ---------------------------------------------------------------------------

/// Law: blank and comment-only lines never influence detection. Removing
/// one such line, with the newline that ends it, from between the lines of
/// a document changes neither the recorded levels, nor the tab verdict,
/// nor the detected unit.
pub proof fn lemma_skip_line_ignored(before: Seq<char>, line: Seq<char>, after: Seq<char>)
    requires
        is_skip_line(line),
        forall|i: int| 0 <= i < line.len() ==> line[i] != '\n',
        before.len() == 0 || before.last() == '\n',
    ensures
        doc_levels(before + line.push('\n') + after) == doc_levels(before + after),
        doc_tab(before + line.push('\n') + after) == doc_tab(before + after),
        detected(before + line.push('\n') + after) == detected(before + after),
    decreases before.len(),
{
    let with = before + line.push('\n') + after;
    let without = before + after;
    if before.len() == 0 {
        let w = line.push('\n') + after;
        assert(with =~= w);
        assert(without =~= after);
        assert forall|k: int| 0 <= k < line.len() implies w[k] != '\n' by {
            assert(w[k] == line[k]);
        }
        assert(w[line.len() as int] == '\n');
        lemma_line_len_is(w, line.len());
        assert(w.take(line.len() as int) =~= line);
        assert(rest_after(w) =~= after);
        assert(doc_levels(w) == Seq::<nat>::empty() + doc_levels(after));
        assert(Seq::<nat>::empty() + doc_levels(after) =~= doc_levels(after));
        assert(doc_tab(w) == doc_tab(after));
    } else {
        lemma_line_len_bounds(before);
        if line_len(before) == before.len() {
            assert(before[before.len() - 1] != '\n');
            assert(false);
        }
        let m = line_len(before) as int;
        assert(before[m] == '\n');
        assert forall|k: int| 0 <= k < m implies with[k] != '\n' by {
            assert(with[k] == before[k]);
        }
        assert(with[m] == before[m]);
        lemma_line_len_is(with, line_len(before));
        assert forall|k: int| 0 <= k < m implies without[k] != '\n' by {
            assert(without[k] == before[k]);
        }
        assert(without[m] == before[m]);
        lemma_line_len_is(without, line_len(before));
        let head_line = before.take(m);
        assert(with.take(m) =~= head_line);
        assert(without.take(m) =~= head_line);
        let before2 = before.skip(m + 1);
        assert(rest_after(with) =~= before2 + line.push('\n') + after);
        assert(rest_after(without) =~= before2 + after);
        if before2.len() > 0 {
            assert(before2.last() == before.last());
        }
        lemma_skip_line_ignored(before2, line, after);
        assert(doc_levels(with) == doc_levels(without));
        assert(doc_tab(with) == doc_tab(without));
    }
}

// ---------------------------------------------------------------------------
// Constant-step documents
// ---------------------------------------------------------------------------

/// Every level reached by steps that are all `k` is a multiple of `k`.
proof fn lemma_const_steps_levels_divisible(levels: Seq<nat>, prev: nat, k: nat)
    requires
        k >= 1,
        prev % k == 0,
        forall|i: int|
            0 <= i < step_diffs(levels, prev).len() ==> step_diffs(levels, prev)[i] == k,
    ensures
        forall|i: int| 0 <= i < levels.len() ==> levels[i] % k == 0,
    decreases levels.len(),
{
    if levels.len() > 0 {
        let first = levels[0];
        let rest = step_diffs(levels.drop_first(), first);
        if first != prev {
            assert(step_diffs(levels, prev)[0] == level_diff(first, prev));
            assert(level_diff(first, prev) == k);
            if first >= prev {
                assert(first == prev + k);
                lemma_mod_add_multiples_vanish(prev as int, k as int);
            } else {
                assert(first == prev - k);
                lemma_mod_sub_multiples_vanish(prev as int, k as int);
            }
            assert(first % k == 0);
            assert forall|i: int| 0 <= i < rest.len() implies rest[i] == k by {
                assert(step_diffs(levels, prev)[i + 1] == rest[i]);
            }
        } else {
            assert(step_diffs(levels, prev) == rest);
        }
        lemma_const_steps_levels_divisible(levels.drop_first(), first, k);
        assert forall|i: int| 0 <= i < levels.len() implies levels[i] % k == 0 by {
            if i > 0 {
                assert(levels.drop_first()[i - 1] % k == 0);
            }
        }
    }
}

/// A level different from the implicit starting level forces at least one
/// recorded step.
proof fn lemma_changed_level_steps_nonempty(levels: Seq<nat>, prev: nat)
    requires
        exists|i: int| 0 <= i < levels.len() && levels[i] != prev,
    ensures
        step_diffs(levels, prev).len() > 0,
    decreases levels.len(),
{
    if levels[0] != prev {
    } else {
        let i = choose|i: int| 0 <= i < levels.len() && levels[i] != prev;
        assert(levels.drop_first()[i - 1] != levels[0]);
        lemma_changed_level_steps_nonempty(levels.drop_first(), levels[0]);
    }
}

/// The non-zero levels inherit divisibility from the levels.
proof fn lemma_nonzero_levels_divisible(levels: Seq<nat>, k: nat)
    requires
        forall|i: int| 0 <= i < levels.len() ==> levels[i] % k == 0,
    ensures
        forall|i: int|
            0 <= i < nonzero_levels(levels).len() ==> nonzero_levels(levels)[i] % k == 0,
    decreases levels.len(),
{
    if levels.len() > 0 {
        assert(forall|i: int|
            0 <= i < levels.drop_first().len() ==> levels.drop_first()[i] % k == 0);
        lemma_nonzero_levels_divisible(levels.drop_first(), k);
        let nz = nonzero_levels(levels);
        let rest = nonzero_levels(levels.drop_first());
        let head: Seq<nat> = if levels[0] != 0 {
            seq![levels[0]]
        } else {
            seq![]
        };
        assert forall|i: int| 0 <= i < nz.len() implies nz[i] % k == 0 by {
            if i < head.len() {
                assert(nz[i] == levels[0]);
            } else {
                assert(nz[i] == rest[i - head.len()]);
            }
        }
    }
}

/// The greatest common divisor of `k` with any of its multiples is `k`.
proof fn lemma_gcd_multiple(k: nat, x: nat)
    requires
        k >= 1,
        x % k == 0,
    ensures
        gcd_nat(k, x) == k,
{
    if x == 0 {
    } else {
        if x < k {
            lemma_small_mod(x, k);
            assert(x == 0);
        }
        if x == k {
            lemma_mod_self_0(k as int);
            assert(gcd_nat(k, x) == gcd_nat(k, 0));
        } else {
            assert(x > k);
            lemma_small_mod(k, x);
            assert(gcd_nat(k, x) == gcd_nat(x, k));
            lemma_mod_self_0(k as int);
            assert(x % k == 0);
            assert(gcd_nat(x, k) == gcd_nat(k, 0));
        }
    }
}

/// Folding a greatest common divisor of `k` over multiples of `k` keeps `k`.
proof fn lemma_gcd_fold_multiples(k: nat, s: Seq<nat>)
    requires
        k >= 1,
        forall|i: int| 0 <= i < s.len() ==> s[i] % k == 0,
    ensures
        gcd_fold(k, s) == k,
    decreases s.len(),
{
    if s.len() > 0 {
        lemma_gcd_multiple(k, s[0]);
        assert(forall|i: int| 0 <= i < s.drop_first().len() ==> s.drop_first()[i] % k == 0);
        lemma_gcd_fold_multiples(k, s.drop_first());
    }
}

/// Law: a document whose content lines move by a constant step of `k`
/// spaces at every level change, and which has at least one indented line,
/// is detected as `k`-space indentation — for every `k` from 1 up.
pub proof fn lemma_constant_step_detected(text: Seq<char>, k: nat)
    requires
        k >= 1,
        forall|i: int|
            0 <= i < step_diffs(doc_levels(text), 0).len() ==> step_diffs(doc_levels(text), 0)[i]
                == k,
        exists|i: int| 0 <= i < doc_levels(text).len() && doc_levels(text)[i] != 0,
    ensures
        detected(text) == Some(k),
{
    let levels = doc_levels(text);
    let diffs = step_diffs(levels, 0);
    lemma_mod_self_0(k as int);
    lemma_small_mod(0, k);
    lemma_const_steps_levels_divisible(levels, 0, k);
    lemma_changed_level_steps_nonempty(levels, 0);
    let all = diffs + nonzero_levels(levels);
    assert(all[0] == k);
    lemma_nonzero_levels_divisible(levels, k);
    assert forall|i: int| 0 <= i < all.drop_first().len() implies all.drop_first()[i] % k == 0 by {
        if i + 1 < diffs.len() {
            assert(all.drop_first()[i] == diffs[i + 1]);
        } else {
            assert(all.drop_first()[i] == nonzero_levels(levels)[i + 1 - diffs.len()]);
        }
    }
    assert(0nat % k == 0);
    assert(gcd_nat(0, k) == gcd_nat(k, 0nat % k));
    assert(gcd_nat(0, k) == k);
    lemma_gcd_fold_multiples(k, all.drop_first());
    assert(gcd_fold(0, all) == gcd_fold(gcd_nat(0, all[0]), all.drop_first()));
    assert(indent_unit(levels) == k);
    assert(detected_unit(levels) == Some(k));
}

} // verus!
