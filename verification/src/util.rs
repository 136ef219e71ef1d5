//! Conversion of NUL-padded byte fields into owned strings.

use vstd::prelude::*;
use vstd::slice::slice_subrange;
use vstd::utf8::{decode_utf8, valid_utf8};

verus! {

/// The index of the first NUL byte of `bytes`, or `bytes.len()` where there is none.
pub open spec fn nul_end(bytes: Seq<u8>) -> int
    decreases bytes.len(),
{
    if bytes.len() == 0 || bytes[0] == 0 {
        0
    } else {
        1 + nul_end(bytes.drop_first())
    }
}

/// The part of `bytes` that comes before its first NUL byte.
pub open spec fn trimmed(bytes: Seq<u8>) -> Seq<u8> {
    bytes.take(nul_end(bytes))
}

/// `nul_end` is the unique position that has no NUL before it and either a NUL
/// at it or nothing after it.
pub proof fn lemma_nul_end(bytes: Seq<u8>)
    ensures
        0 <= nul_end(bytes) <= bytes.len(),
        forall|i: int| 0 <= i < nul_end(bytes) ==> bytes[i] != 0,
        nul_end(bytes) < bytes.len() ==> bytes[nul_end(bytes)] == 0,
    decreases bytes.len(),
{
    if bytes.len() == 0 || bytes[0] == 0 {
    } else {
        let rest = bytes.drop_first();
        lemma_nul_end(rest);
        assert forall|i: int| 0 <= i < nul_end(bytes) implies bytes[i] != 0 by {
            if i > 0 {
                assert(bytes[i] == rest[i - 1]);
            }
        }
        if nul_end(bytes) < bytes.len() {
            assert(bytes[nul_end(bytes)] == rest[nul_end(rest)]);
        }
    }
}

/// Any position with the two defining properties is `nul_end`.
pub proof fn lemma_nul_end_unique(bytes: Seq<u8>, end: int)
    requires
        0 <= end <= bytes.len(),
        forall|i: int| 0 <= i < end ==> bytes[i] != 0,
        end < bytes.len() ==> bytes[end] == 0,
    ensures
        nul_end(bytes) == end,
{
    lemma_nul_end(bytes);
    let e = nul_end(bytes);
    if e < end {
        assert(bytes[e] != 0);
    } else if end < e {
        assert(bytes[end] != 0);
    }
}

/// `core::str::Utf8Error`, which is passed on unread.
#[verifier::external_type_specification]
#[verifier::external_body]
pub struct ExUtf8Error(core::str::Utf8Error);

/// `core::str::from_utf8` succeeds exactly on well-formed UTF-8 and then
/// returns the string that those bytes encode.
pub assume_specification[ core::str::from_utf8 ](v: &[u8]) -> (r: Result<&str, core::str::Utf8Error>)
    ensures
        r is Ok <==> valid_utf8(v@),
        r matches Ok(s) ==> s@ == decode_utf8(v@),
;

/// Cuts `bytes` at its first NUL byte and decodes what comes before as UTF-8.
///
/// Fails exactly when that prefix is not well-formed UTF-8.
pub fn bytes_to_trimmed_string(bytes: &[u8]) -> (r: Result<String, ()>)
    ensures
        r is Ok <==> valid_utf8(trimmed(bytes@)),
        r matches Ok(s) ==> s@ == decode_utf8(trimmed(bytes@)),
{
    let mut end: usize = 0;
    while end < bytes.len() && bytes[end] != 0
        invariant
            end <= bytes.len(),
            forall|i: int| 0 <= i < end ==> bytes@[i] != 0,
        decreases bytes.len() - end,
    {
        end += 1;
    }
    proof {
        lemma_nul_end_unique(bytes@, end as int);
    }
    let head = slice_subrange(bytes, 0, end);
    assert(head@ == trimmed(bytes@));
    match core::str::from_utf8(head) {
        Ok(s) => Ok(s.to_owned()),
        Err(_) => Err(()),
    }
}

/// What `str::trim` leaves of a text: the text without the whitespace at its
/// two ends, where whitespace is what Unicode calls so. The result depends
/// on the text alone, and is named here without being spelled out.
pub uninterp spec fn spec_trim(text: Seq<char>) -> Seq<char>;

/// `str::trim` returns the part of a text that is left when the whitespace
/// at its two ends is taken away.
#[verifier::external_body]
pub(crate) fn trim(text: &str) -> (r: &str)
    ensures
        r@ == spec_trim(text@),
{
    text.trim()
}

} // verus!
