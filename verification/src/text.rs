//! Text in a buffer: UTF-8 validation and raw byte strings.

use bstr::BStr;
use vstd::prelude::*;
use vstd::utf8::{encode_utf8, valid_utf8};

verus! {

#[verifier::external_type_specification]
#[verifier::external_body]
pub struct ExBStr(BStr);

/// The bytes that a byte string holds.
pub uninterp spec fn bstr_contents(text: &BStr) -> Seq<u8>;

/// Why a run of bytes is not UTF-8.
#[derive(Debug, Clone, Copy, PartialEq, Eq)]
pub struct DecodeError {
    /// Length of the longest prefix of the bytes that is UTF-8: the position
    /// of the first invalid sequence.
    pub valid_up_to: usize,
    /// Length of the invalid sequence, or `None` where the bytes end in the
    /// middle of a character.
    pub error_len: Option<usize>,
}

/// Whether `error` describes why `bytes` is not UTF-8.
pub open spec fn text_error(bytes: Seq<u8>, error: DecodeError) -> bool {
    &&& error.valid_up_to < bytes.len()
    &&& valid_utf8(bytes.subrange(0, error.valid_up_to as int))
    &&& forall|end: int|
        error.valid_up_to < end <= bytes.len() ==> !valid_utf8(#[trigger] bytes.subrange(0, end))
    &&& match error.error_len {
        Some(len) => 1 <= len && error.valid_up_to + len <= bytes.len(),
        None => bytes.len() - error.valid_up_to <= 3,
    }
}

/// `std::str::from_utf8`: the text that `bytes` encodes if `bytes` is UTF-8,
/// and else an error of which `valid_up_to()` is the greatest length of a
/// prefix of `bytes` that is UTF-8, and `error_len()` is the length of the
/// invalid sequence behind that prefix, or `None` where `bytes` ends, at
/// most 3 bytes further, in the middle of a character.
#[verifier::external_body]
pub(crate) fn from_utf8(bytes: &[u8]) -> (text: Result<&str, DecodeError>)
    ensures
        text is Ok <==> valid_utf8(bytes@),
        text is Ok ==> encode_utf8(text->Ok_0@) == bytes@,
        text is Err ==> text_error(bytes@, text->Err_0),
{
    match std::str::from_utf8(bytes) {
        Ok(text) => Ok(text),
        Err(e) => Err(DecodeError { valid_up_to: e.valid_up_to(), error_len: e.error_len() }),
    }
}

/// `bstr::BStr::new`: the byte string that holds exactly `bytes`, without a
/// copy.
#[verifier::external_body]
pub(crate) fn bstr_new(bytes: &[u8]) -> (text: &BStr)
    ensures
        bstr_contents(text) == bytes@,
{
    BStr::new(bytes)
}

} // verus!
