//! The boundary codec: bytes that the host handed over, read as UTF-8 text.
//!
//! Malformed bytes are no fault: decoding then yields nothing, and nothing
//! is logged.
use vstd::prelude::*;
use vstd::string::StringSliceAdditionalSpecFns;
use vstd::utf8::{decode_utf8, encode_utf8_decode_utf8, valid_utf8};

verus! {

/// `after` is `before` with one more line at its end, which reads `text`.
pub open spec fn logged(before: Seq<String>, after: Seq<String>, text: Seq<char>) -> bool {
    &&& after.len() == before.len() + 1
    &&& after.take(before.len() as int) == before
    &&& after.last()@ == text
}

/// What the log holds after `bytes` were offered to it: one more line, the
/// text that the bytes encode, where they are well-formed UTF-8; what it
/// held before where they are not.
pub open spec fn log_after(before: Seq<String>, after: Seq<String>, bytes: Seq<u8>) -> bool {
    if valid_utf8(bytes) {
        logged(before, after, decode_utf8(bytes))
    } else {
        after == before
    }
}

/// Calls [`core::str::from_utf8`]. Trusted: the call yields a string slice
/// exactly when the bytes are well-formed UTF-8, and the slice is then made
/// of those very bytes.
#[verifier::external_body]
fn utf8_str(bytes: &[u8]) -> (text: Option<&str>)
    ensures
        text is Some <==> valid_utf8(bytes@),
        text matches Some(s) ==> s.spec_bytes() == bytes@,
{
    match core::str::from_utf8(bytes) {
        Ok(s) => Some(s),
        Err(_) => None,
    }
}

/// Reads `bytes` as UTF-8: the text that they encode where they are
/// well-formed, nothing where they are not.
pub fn decode(bytes: &[u8]) -> (text: Option<String>)
    ensures
        text is Some <==> valid_utf8(bytes@),
        text matches Some(t) ==> t@ == decode_utf8(bytes@),
{
    match utf8_str(bytes) {
        Some(s) => {
            proof {
                encode_utf8_decode_utf8(s@);
            }
            Some(String::from_str(s))
        },
        None => None,
    }
}

/// Decodes `bytes` and appends the text to `log` as one line. Malformed
/// bytes leave the log as it is.
pub fn decode_and_log(bytes: &[u8], log: &mut Vec<String>)
    ensures
        log_after(old(log)@, final(log)@, bytes@),
{
    let ghost before = log@;
    match decode(bytes) {
        Some(text) => {
            log.push(text);
            assert(log@.take(before.len() as int) =~= before);
        },
        None => {},
    }
}

} // verus!
