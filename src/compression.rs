//! Compressed NBT payloads: gzip and zlib streams inflated by flate2, then
//! decoded as documents.

use vstd::prelude::*;
use crate::format::{NbtError, decode_document};
use crate::nbt::{Document, DocumentView, document_view, read_document};

verus! {

/// Why a compressed NBT payload could not be decoded.
#[derive(PartialEq, Eq, Structural, Clone, Copy, Debug)]
pub enum PayloadError {
    /// The compressed bytes did not inflate.
    Decompression,
    /// The inflated bytes are not a valid NBT document.
    Nbt(NbtError),
}

/// What flate2's gzip decoder makes of a byte sequence: the inflated bytes,
/// or `None` where it reports an error.
pub uninterp spec fn gzip_inflate(b: Seq<u8>) -> Option<Seq<u8>>;

/// What flate2's zlib decoder makes of a byte sequence: the inflated bytes,
/// or `None` where it reports an error.
pub uninterp spec fn zlib_inflate(b: Seq<u8>) -> Option<Seq<u8>>;

/// Relies on flate2's `bufread::GzDecoder` read to the end: the inflated
/// bytes of the first gzip member, or an error; both depend on the input
/// bytes alone.
#[verifier::external_body]
pub(crate) fn inflate_gzip(b: &[u8]) -> (r: Option<Vec<u8>>)
    ensures
        match gzip_inflate(b@) {
            Some(v) => r is Some && r->Some_0@ == v,
            None => r is None,
        },
{
    let mut out = Vec::new();
    match std::io::Read::read_to_end(&mut flate2::bufread::GzDecoder::new(b), &mut out) {
        Ok(_) => Some(out),
        Err(_) => None,
    }
}

/// Relies on flate2's `bufread::ZlibDecoder` read to the end: the inflated
/// bytes of a zlib stream, or an error; both depend on the input bytes
/// alone.
#[verifier::external_body]
pub(crate) fn inflate_zlib(b: &[u8]) -> (r: Option<Vec<u8>>)
    ensures
        match zlib_inflate(b@) {
            Some(v) => r is Some && r->Some_0@ == v,
            None => r is None,
        },
{
    let mut out = Vec::new();
    match std::io::Read::read_to_end(&mut flate2::bufread::ZlibDecoder::new(b), &mut out) {
        Ok(_) => Some(out),
        Err(_) => None,
    }
}

/// The document of an inflated payload, or why there is none; `None`
/// stands for a payload that did not inflate.
pub open spec fn spec_decode_payload(inflated: Option<Seq<u8>>) -> Result<DocumentView, PayloadError> {
    match inflated {
        None => Err(PayloadError::Decompression),
        Some(d) => match decode_document(d) {
            Ok(doc) => Ok(doc),
            Err(e) => Err(PayloadError::Nbt(e)),
        },
    }
}

/// Decodes an inflated payload; `None` stands for a payload that did not
/// inflate.
pub fn decode_payload(inflated: Option<Vec<u8>>) -> (r: Result<Document, PayloadError>)
    ensures
        match spec_decode_payload(
            match inflated {
                Some(v) => Some(v@),
                None => None,
            },
        ) {
            Ok(d) => r is Ok && document_view(r->Ok_0) == d,
            Err(e) => r == Err::<Document, PayloadError>(e),
        },
{
    match inflated {
        None => Err(PayloadError::Decompression),
        Some(d) => match read_document(d.as_slice()) {
            Ok(doc) => Ok(doc),
            Err(e) => Err(PayloadError::Nbt(e)),
        },
    }
}

/// Decodes a gzip-compressed NBT document, as loose NBT files are stored.
pub fn load(compressed: &[u8]) -> (r: Result<Document, PayloadError>)
    ensures
        match spec_decode_payload(gzip_inflate(compressed@)) {
            Ok(d) => r is Ok && document_view(r->Ok_0) == d,
            Err(e) => r == Err::<Document, PayloadError>(e),
        },
{
    decode_payload(inflate_gzip(compressed))
}

} // verus!
