//! The decompression stage: from the bytes of a project file to its text.

use crate::error::AlsError;
use std::io::Read;
use vstd::prelude::*;
use vstd::utf8::{decode_utf8, valid_utf8};

verus! {

/// The error of `std::io`, as the gzip decoder returns it.
#[verifier::external_type_specification]
#[verifier::external_body]
pub struct ExIoError(std::io::Error);

/// The error of `String::from_utf8`.
#[verifier::external_type_specification]
#[verifier::external_body]
pub struct ExFromUtf8Error(std::string::FromUtf8Error);

/// The bytes that a gzip stream of one or more members inflates to; `None`
/// where the bytes are no such stream.
pub uninterp spec fn gunzip(data: Seq<u8>) -> Option<Seq<u8>>;

/// Reads `data` to its end through `flate2::bufread::MultiGzDecoder`. The
/// contract claims only that the outcome is a function of the bytes, which it
/// names [`gunzip`]: the decoder fails or succeeds, and yields the same bytes,
/// whenever it is given the same bytes.
#[verifier::external_body]
fn read_gzip(data: &[u8]) -> (r: Result<Vec<u8>, std::io::Error>)
    ensures
        r.is_ok() == gunzip(data@).is_some(),
        r matches Ok(bytes) ==> bytes@ == gunzip(data@).unwrap(),
{
    let mut bytes = Vec::new();
    flate2::bufread::MultiGzDecoder::new(data).read_to_end(&mut bytes)?;
    Ok(bytes)
}

/// Calls `String::from_utf8`, which succeeds exactly on bytes that are valid
/// UTF-8 and then gives the text that they encode.
#[verifier::external_body]
fn string_from_utf8(bytes: Vec<u8>) -> (r: Result<String, std::string::FromUtf8Error>)
    ensures
        r.is_ok() == valid_utf8(bytes@),
        r matches Ok(text) ==> text@ == decode_utf8(bytes@),
{
    String::from_utf8(bytes)
}

/// What the inflated bytes of a project file give: their text, or the error
/// where they are not UTF-8.
pub open spec fn text_result(bytes: Seq<u8>) -> Result<Seq<char>, AlsError> {
    if valid_utf8(bytes) {
        Ok(decode_utf8(bytes))
    } else {
        Err(AlsError::Utf8)
    }
}

/// What a project file gives: the text of the bytes that it inflates to, or the
/// error where it is no gzip stream.
pub open spec fn inflate_result(data: Seq<u8>) -> Result<Seq<char>, AlsError> {
    match gunzip(data) {
        Some(bytes) => text_result(bytes),
        None => Err(AlsError::Gzip),
    }
}

/// Whether `r` is what a decoding with the outcome `outcome` returns.
pub open spec fn returns_text(outcome: Result<Seq<char>, AlsError>, r: Result<String, AlsError>) -> bool {
    match outcome {
        Ok(text) => r matches Ok(s) && s@ == text,
        Err(e) => r matches Err(x) && x == e,
    }
}

/// Reads inflated bytes as UTF-8 text.
pub fn decode_text(bytes: Vec<u8>) -> (r: Result<String, AlsError>)
    ensures
        returns_text(text_result(bytes@), r),
{
    match string_from_utf8(bytes) {
        Ok(text) => Ok(text),
        Err(_) => Err(AlsError::Utf8),
    }
}

/// Inflates a gzip stream, single or multi-member, into text.
pub fn inflate(data: &[u8]) -> (r: Result<String, AlsError>)
    ensures
        returns_text(inflate_result(data@), r),
{
    match read_gzip(data) {
        Ok(bytes) => decode_text(bytes),
        Err(_) => Err(AlsError::Gzip),
    }
}

} // verus!
