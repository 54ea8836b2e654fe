//! The bundled registry files and headers are stored as raw-DEFLATE blobs;
//! this module turns a blob back into the text it was made from.

use vstd::prelude::*;

use std::io::Read;

use vstd::utf8::{decode_utf8, valid_utf8};

use crate::error::Error;

verus! {

/// The bytes `flate2::read::DeflateDecoder` yields when `compressed` is
/// read through it to the end, or `None` where the decoder reports an
/// error.
pub uninterp spec fn deflate_decoded(compressed: Seq<u8>) -> Option<Seq<u8>>;

/// `DeflateDecoder::new(compressed).read_to_end(..)`.  Claimed: reading
/// from a byte slice fails only where the decoder does, so the outcome is
/// a function of the bytes alone.
#[verifier::external_body]
fn deflate_bytes(compressed: &[u8]) -> (r: Option<Vec<u8>>)
    ensures
        match deflate_decoded(compressed@) {
            Some(b) => r matches Some(v) && v@ == b,
            None => r is None,
        },
{
    let mut out: Vec<u8> = Vec::new();
    match flate2::read::DeflateDecoder::new(compressed).read_to_end(&mut out) {
        Ok(_) => Some(out),
        Err(_) => None,
    }
}

/// `String::from_utf8`.  Claimed, as std documents it: the bytes are
/// accepted exactly when they are well-formed UTF-8 (`valid_utf8`), and
/// the string then holds the characters they encode (`decode_utf8`).
#[verifier::external_body]
fn utf8_text(bytes: Vec<u8>) -> (r: Option<String>)
    ensures
        r is Some <==> valid_utf8(bytes@),
        r matches Some(s) ==> s@ == decode_utf8(bytes@),
{
    String::from_utf8(bytes).ok()
}

/// The text a bundled blob holds: the raw-DEFLATE stream inflated and
/// read as UTF-8.  A blob that does not inflate, or inflates to bytes
/// that are not UTF-8, is a corrupt build artifact and is reported as
/// such.
pub fn inflate(compressed: &[u8]) -> (r: Result<String, Error>)
    ensures
        match deflate_decoded(compressed@) {
            None => r matches Err(Error::BlobInflate),
            Some(b) => if valid_utf8(b) {
                r matches Ok(s) && s@ == decode_utf8(b)
            } else {
                r matches Err(Error::BlobNotUtf8)
            },
        },
{
    match deflate_bytes(compressed) {
        None => Err(Error::BlobInflate),
        Some(bytes) => match utf8_text(bytes) {
            Some(s) => Ok(s),
            None => Err(Error::BlobNotUtf8),
        },
    }
}

} // verus!
