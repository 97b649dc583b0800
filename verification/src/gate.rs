//! The validity gate and the text decoding: the only two places where the
//! library leans on code it does not verify.

use vstd::prelude::*;

verus! {

/// Whether the YAML event-stream parser accepts this text, reading events
/// up to the end of the stream without a fault. A pure function of the text.
pub uninterp spec fn yaml_accepts(text: Seq<char>) -> bool;

/// The diagnostic the YAML event-stream parser reports when it rejects this
/// text. Parsing is deterministic, so the message too is a pure function of
/// the text; naming it lets the contracts pass it through unchanged.
pub uninterp spec fn yaml_diagnostic(text: Seq<char>) -> Seq<char>;

/// Relies on `saphyr_parser::Parser`: `next_event` is called repeatedly
/// until the stream is drained (the text is well-formed YAML; `Ok` here) or
/// the parser reports a fault (`Err` here, carrying the parser's own
/// diagnostic). The outcome and the diagnostic depend on the text alone.
#[verifier::external_body]
pub(crate) fn validate_yaml(text: &str) -> (r: Result<(), String>)
    ensures
        r is Ok <==> yaml_accepts(text@),
        r matches Err(m) ==> m@ == yaml_diagnostic(text@),
{
    let mut parser = saphyr_parser::Parser::new_from_str(text);
    loop {
        match parser.next_event() {
            None => return Ok(()),
            Some(Ok(_)) => {},
            Some(Err(err)) => return Err(err.to_string()),
        }
    }
}

/// The description this library gives bytes that do not decode: built from
/// what `std::str::from_utf8` reports, which names the position of the
/// offending byte and depends on the bytes alone.
pub uninterp spec fn utf8_diagnostic(bytes: Seq<u8>) -> Seq<char>;

/// Relies on `std::str::from_utf8`: it succeeds exactly on valid UTF-8 and
/// returns the text that reads those same bytes — the contract vstd itself
/// gives `str::from_utf8_unchecked`.
#[verifier::external_body]
pub(crate) fn decode_text(bytes: &[u8]) -> (r: Result<&str, String>)
    ensures
        r is Ok <==> vstd::utf8::valid_utf8(bytes@),
        r matches Ok(s) ==> vstd::utf8::encode_utf8(s@) == bytes@,
        r matches Err(m) ==> m@ == utf8_diagnostic(bytes@),
{
    match std::str::from_utf8(bytes) {
        Ok(s) => Ok(s),
        Err(err) => Err(format!("invalid UTF-8: {}", err)),
    }
}

} // verus!
