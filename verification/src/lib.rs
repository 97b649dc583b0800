//! Detection of the indentation width used by a YAML document.
//!
//! A document is first handed to a YAML event-stream parser; only text the
//! parser accepts is analyzed. The analysis reads the leading spaces of every
//! content line (blank and comment-only lines are skipped, a tab in the
//! indentation is a hard error) and reduces the observed levels and level
//! changes to a single unit by a greatest-common-divisor computation.

mod gate;
pub mod laws;
pub mod model;
mod scan;
mod unit;

use crate::model::{detected, doc_tab};
use vstd::prelude::*;

pub use crate::gate::{utf8_diagnostic, yaml_accepts, yaml_diagnostic};

verus! {

/// The indentation detected in a YAML document: the number of space
/// characters that make up one nesting level. Always at least one.
#[derive(Debug, Clone, Copy, PartialEq, Eq, Structural)]
pub struct Indentation {
    indent: usize,
}

impl Indentation {
    /// The number of spaces of one nesting level.
    pub closed spec fn spec_spaces(&self) -> nat {
        self.indent as nat
    }

    #[verifier::type_invariant]
    spec fn inv(&self) -> bool {
        self.indent >= 1
    }

    /// Two detected indentations with the same width are the same value.
    pub proof fn lemma_spaces_injective(a: Indentation, b: Indentation)
        requires
            a.spec_spaces() == b.spec_spaces(),
        ensures
            a == b,
    {
    }

    /// Returns the number of spaces used for each indentation level.
    pub fn spaces(&self) -> (r: usize)
        ensures
            r == self.spec_spaces(),
            r >= 1,
    {
        proof {
            use_type_invariant(self);
        }
        self.indent
    }
}

/// Why a detection call failed. Every failure is terminal for the call:
/// there is no partial result.
#[derive(Debug)]
pub enum DetectError {
    /// The document is not syntactically valid YAML; carries the parser's
    /// own diagnostic.
    Syntax(String),
    /// The input bytes are not valid UTF-8; carries a description that
    /// names the position of the decoding failure.
    Encoding(String),
    /// A tab character stands where indentation is expected.
    TabIndentation,
}

/// How a returned value relates to the unit the model detects: nothing for
/// no signal, and a detected indentation carrying exactly the unit.
pub open spec fn matches_unit(r: Option<Indentation>, u: Option<nat>) -> bool {
    match (r, u) {
        (Option::None, Option::None) => true,
        (Option::Some(ind), Option::Some(n)) => ind.spec_spaces() == n,
        _ => false,
    }
}

/// The full contract of detection over a document's text, given whether the
/// YAML parser accepted it: a syntax error carrying the parser's own
/// diagnostic when it did not; an indentation-policy error for a tab in the
/// indentation of a content line; otherwise the unit the model detects.
pub open spec fn detection_conforms(
    text: Seq<char>,
    accepted: bool,
    r: Result<Option<Indentation>, DetectError>,
) -> bool {
    &&& !accepted ==> (r matches Err(e) && e matches DetectError::Syntax(m) && m@
        == yaml_diagnostic(text))
    &&& accepted && doc_tab(text) ==> (r matches Err(e) && e is TabIndentation)
    &&& accepted && !doc_tab(text) ==> (r matches Ok(u) && matches_unit(u, detected(text)))
}

/// The full contract of detection over raw bytes: as over text, once the
/// bytes decode; an encoding error, with its description, when they do not.
/// The parser reads text, so the bytes are decoded first and an ill-encoded
/// document never reaches it.
pub open spec fn slice_detection_conforms(
    bytes: Seq<u8>,
    r: Result<Option<Indentation>, DetectError>,
) -> bool {
    &&& !vstd::utf8::valid_utf8(bytes) ==> (r matches Err(e) && e matches DetectError::Encoding(m)
        && m@ == utf8_diagnostic(bytes))
    &&& vstd::utf8::valid_utf8(bytes) ==> detection_conforms(
        vstd::utf8::decode_utf8(bytes),
        yaml_accepts(vstd::utf8::decode_utf8(bytes)),
        r,
    )
}

/// Detects indentation by analyzing text the parser has already accepted.
fn detect_from_text(text: &str) -> (r: Result<Option<Indentation>, DetectError>)
    ensures
        detection_conforms(text@, true, r),
{
    let chars = scan::chars_vec(text);
    let levels = match scan::collect_levels(&chars) {
        None => {
            return Err(DetectError::TabIndentation);
        },
        Some(levels) => levels,
    };
    match unit::find_indentation_unit(&levels) {
        None => Ok(None),
        Some(u) => Ok(Some(Indentation { indent: u })),
    }
}

/// Detects the indentation used in a YAML string.
///
/// The document is first checked by a YAML event-stream parser; the
/// leading-whitespace analysis runs only on text known to parse.
///
/// Returns `Ok(Some(..))` with the detected unit, `Ok(None)` when the
/// document is valid YAML but offers no indentation signal (no content line
/// sits beyond column 0 — flat documents, or flow style only), and an error
/// when the document is not valid YAML or a tab stands in the indentation
/// of a content line.
pub fn detect_indentation(yaml: &str) -> (r: Result<Option<Indentation>, DetectError>)
    ensures
        detection_conforms(yaml@, yaml_accepts(yaml@), r),
{
    match gate::validate_yaml(yaml) {
        Err(msg) => {
            return Err(DetectError::Syntax(msg));
        },
        Ok(()) => {},
    }
    detect_from_text(yaml)
}

/// Detects the indentation used in a YAML byte slice.
///
/// The byte-slice variant of [`detect_indentation`]: the bytes must decode
/// as UTF-8, or the call fails with an encoding error before the parser
/// sees anything.
pub fn detect_indentation_slice(yaml: &[u8]) -> (r: Result<Option<Indentation>, DetectError>)
    ensures
        slice_detection_conforms(yaml@, r),
{
    let text = match gate::decode_text(yaml) {
        Err(msg) => {
            return Err(DetectError::Encoding(msg));
        },
        Ok(t) => t,
    };
    proof {
        vstd::utf8::encode_utf8_decode_utf8(text@);
        assert(vstd::utf8::decode_utf8(yaml@) == text@);
    }
    detect_indentation(text)
}

} // verus!
