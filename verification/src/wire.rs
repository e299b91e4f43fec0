//! Scheme-tagged wire envelopes shared by every backend. Key and ciphertext
//! material is not portable across backends, so every serialized blob starts
//! with the `scheme` string of the backend that wrote it; reading checks that
//! tag before the payload is touched.

use vstd::prelude::*;
use vstd::utf8::{decode_utf8, valid_utf8};

use crate::ir::cat;
use crate::text::str_eq;

verus! {

/// Envelope tagging ciphertext material with its backend scheme identifier.
pub struct TaggedCts<T> {
    pub scheme: String,
    pub payload: T,
}

/// The leading `scheme` field of any tagged envelope.
pub struct SchemeHeader {
    pub scheme: String,
}

#[verifier::external_type_specification]
#[verifier::external_body]
pub struct ExBincodeErrorKind(bincode::ErrorKind);

/// The value of little-endian bytes.
pub open spec fn le_value(b: Seq<u8>) -> nat
    decreases b.len(),
{
    if b.len() == 0 {
        0
    } else {
        b[0] as nat + 256 * le_value(b.drop_first())
    }
}

/// The string bincode reads from the front of `bytes` in its default
/// configuration, or `None` when it cannot read one: an 8-byte little-endian
/// length, then that many bytes of UTF-8; later bytes are left unread.
pub open spec fn bincode_string(bytes: Seq<u8>) -> Option<Seq<char>> {
    if bytes.len() < 8 {
        None
    } else {
        let n = le_value(bytes.subrange(0, 8));
        if 8 + n > bytes.len() {
            None
        } else {
            let body = bytes.subrange(8, 8 + n as int);
            if valid_utf8(body) {
                Some(decode_utf8(body))
            } else {
                None
            }
        }
    }
}

/// Reads the leading string of a bincode buffer with `bincode::deserialize`,
/// whose default configuration reads a fixed 8-byte little-endian length, then
/// the bytes, checks them as UTF-8 and allows trailing bytes: the result is
/// `bincode_string` of the bytes.
#[verifier::external_body]
pub(crate) fn read_leading_string(bytes: &[u8]) -> (r: Result<String, Box<bincode::ErrorKind>>)
    ensures
        match r {
            Ok(s) => bincode_string(bytes@) == Some(s@),
            Err(_) => bincode_string(bytes@) is None,
        },
{
    bincode::deserialize::<String>(bytes)
}

/// Renders a bincode error with its `Display` text. Nothing is stated of the
/// text.
#[verifier::external_body]
pub(crate) fn bincode_error_text(e: &bincode::ErrorKind) -> String {
    format!("{}", e)
}

/// The prefix of the refusal of material that does not start with a readable
/// scheme tag.
pub open spec fn unreadable_prefix(kind: Seq<char>) -> Seq<char> {
    "cannot deserialize "@ + kind + " (is it a Penumbra ciphertext?): "@
}

/// The refusal of material tagged with another scheme.
pub open spec fn scheme_mismatch_msg(kind: Seq<char>, expected: Seq<char>, found: Seq<char>) -> Seq<char> {
    "backend/scheme mismatch for "@ + kind + ": expected '"@ + expected + "', but found '"@ + found
        + "' (ciphertext material is not portable across backends; see docs/BACKENDS.md)"@
}

/// Read the scheme tag that leads a tagged envelope and refuse material written
/// by another scheme before its payload is decoded. `kind` names the material
/// in the refusal (`"ciphertext"` or `"ciphertext batch"`).
pub fn check_scheme_tag(bytes: &[u8], expected_scheme: &str, kind: &str) -> (r: Result<(), String>)
    ensures
        match bincode_string(bytes@) {
            None => r matches Err(e) && e@.len() >= unreadable_prefix(kind@).len() && e@.subrange(
                0,
                unreadable_prefix(kind@).len() as int,
            ) == unreadable_prefix(kind@),
            Some(found) => if found == expected_scheme@ {
                r is Ok
            } else {
                r matches Err(e) && e@ == scheme_mismatch_msg(kind@, expected_scheme@, found)
            },
        },
{
    let scheme = match read_leading_string(bytes) {
        Ok(s) => s,
        Err(e) => {
            let m = cat(String::from_str("cannot deserialize "), kind);
            let m = cat(m, " (is it a Penumbra ciphertext?): ");
            let ghost prefix = m@;
            let m = cat(m, bincode_error_text(&e).as_str());
            assert(m@.subrange(0, prefix.len() as int) =~= prefix);
            return Err(m);
        },
    };
    if !str_eq(scheme.as_str(), expected_scheme) {
        let m = cat(String::from_str("backend/scheme mismatch for "), kind);
        let m = cat(m, ": expected '");
        let m = cat(m, expected_scheme);
        let m = cat(m, "', but found '");
        let m = cat(m, scheme.as_str());
        let m = cat(
            m,
            "' (ciphertext material is not portable across backends; see docs/BACKENDS.md)",
        );
        return Err(m);
    }
    Ok(())
}

/// The prefix of the refusal of key bytes that do not start with a readable
/// scheme tag.
pub open spec fn unreadable_key_header_prefix() -> Seq<char> {
    "failed to parse key header: "@
}

/// The refusal of key material tagged with another scheme.
pub open spec fn key_scheme_mismatch_msg(kind: Seq<char>, expected: Seq<char>, found: Seq<char>) -> Seq<char> {
    "backend/scheme mismatch for "@ + kind + ": expected '"@ + expected + "', found '"@ + found
        + "' (key material is not portable across backends; see docs/BACKENDS.md)"@
}

/// Read the scheme tag that leads a tagged key and refuse a key written by
/// another scheme before its payload is decoded. `kind` names the key in the
/// refusal (`"client key"` or `"server key"`).
pub fn check_key_tag(bytes: &[u8], expected_scheme: &str, kind: &str) -> (r: Result<(), String>)
    ensures
        match bincode_string(bytes@) {
            None => r matches Err(e) && e@.len() >= unreadable_key_header_prefix().len()
                && e@.subrange(0, unreadable_key_header_prefix().len() as int)
                == unreadable_key_header_prefix(),
            Some(found) => if found == expected_scheme@ {
                r is Ok
            } else {
                r matches Err(e) && e@ == key_scheme_mismatch_msg(kind@, expected_scheme@, found)
            },
        },
{
    let scheme = match read_leading_string(bytes) {
        Ok(s) => s,
        Err(e) => {
            let m = String::from_str("failed to parse key header: ");
            let ghost prefix = m@;
            let m = cat(m, bincode_error_text(&e).as_str());
            assert(m@.subrange(0, prefix.len() as int) =~= prefix);
            return Err(m);
        },
    };
    if !str_eq(scheme.as_str(), expected_scheme) {
        let m = cat(String::from_str("backend/scheme mismatch for "), kind);
        let m = cat(m, ": expected '");
        let m = cat(m, expected_scheme);
        let m = cat(m, "', found '");
        let m = cat(m, scheme.as_str());
        let m = cat(m, "' (key material is not portable across backends; see docs/BACKENDS.md)");
        return Err(m);
    }
    Ok(())
}

} // verus!
