//! Calls into the hashing, encoding and compression crates.
use vstd::prelude::*;
use sha1::Digest;
use base64::Engine;
use std::io::Read;

verus! {

/// The SHA-1 digest of a byte string.
pub uninterp spec fn sha1_of(data: Seq<u8>) -> Seq<u8>;

/// The standard (RFC 4648, padded) Base64 text of a byte string.
pub uninterp spec fn base64_standard(data: Seq<u8>) -> Seq<char>;

/// What a raw DEFLATE decoder reads from a byte string: the decompressed
/// bytes, or `None` when the stream is corrupt.
pub uninterp spec fn inflate_raw(data: Seq<u8>) -> Option<Seq<u8>>;

/// `sha1::Sha1` over `data`: claims that the result is the SHA-1 digest of
/// the input, 20 bytes long.
#[verifier::external_body]
pub(crate) fn sha1_digest(data: &[u8]) -> (r: Vec<u8>)
    ensures
        r@ == sha1_of(data@),
        r@.len() == 20,
{
    let mut hasher = sha1::Sha1::new();
    hasher.update(data);
    hasher.finalize().to_vec()
}

/// `base64::engine::general_purpose::STANDARD.encode`: claims that the result
/// is the padded standard Base64 text of the input.
#[verifier::external_body]
pub(crate) fn base64_encode(data: &[u8]) -> (r: String)
    ensures
        r@ == base64_standard(data@),
{
    base64::engine::general_purpose::STANDARD.encode(data)
}

/// `flate2::read::DeflateDecoder` read to the end: claims that the result is
/// the decoder's output, `None` when the decoder reports an error.
#[verifier::external_body]
pub(crate) fn raw_inflate(data: &[u8]) -> (r: Option<Vec<u8>>)
    ensures
        match inflate_raw(data@) {
            Some(d) => (r matches Some(v) && v@ == d),
            None => r is None,
        },
{
    let mut decoder = flate2::read::DeflateDecoder::new(data);
    let mut out: Vec<u8> = Vec::new();
    match decoder.read_to_end(&mut out) {
        Ok(_) => Some(out),
        Err(_) => None,
    }
}

/// What `urlencoding::decode` gives for a text: the text with its `%XX`
/// escapes decoded, or `None` when the decoded bytes are not UTF-8.
pub uninterp spec fn percent_decoded(text: Seq<char>) -> Option<Seq<char>>;

/// What a gzip decoder reads from a byte string, `None` on a corrupt stream.
pub uninterp spec fn gunzip(data: Seq<u8>) -> Option<Seq<u8>>;

/// What a zlib decoder reads from a byte string, `None` on a corrupt stream.
pub uninterp spec fn inflate_zlib(data: Seq<u8>) -> Option<Seq<u8>>;

/// What a Brotli decoder reads from a byte string, `None` on a corrupt stream.
pub uninterp spec fn unbrotli(data: Seq<u8>) -> Option<Seq<u8>>;

/// What a Zstandard decoder reads from a byte string, `None` on a corrupt stream.
pub uninterp spec fn unzstd(data: Seq<u8>) -> Option<Seq<u8>>;

/// `flate2::read::GzDecoder` read to the end: claims that the result is the
/// decoder's output, `None` when it reports an error.
#[verifier::external_body]
pub(crate) fn gzip_decode(data: &[u8]) -> (r: Option<Vec<u8>>)
    ensures
        match gunzip(data@) {
            Some(d) => (r matches Some(v) && v@ == d),
            None => r is None,
        },
{
    let mut decoder = flate2::read::GzDecoder::new(data);
    let mut out: Vec<u8> = Vec::new();
    match decoder.read_to_end(&mut out) {
        Ok(_) => Some(out),
        Err(_) => None,
    }
}

/// `flate2::read::ZlibDecoder` read to the end: claims that the result is
/// the decoder's output, `None` when it reports an error.
#[verifier::external_body]
pub(crate) fn zlib_decode(data: &[u8]) -> (r: Option<Vec<u8>>)
    ensures
        match inflate_zlib(data@) {
            Some(d) => (r matches Some(v) && v@ == d),
            None => r is None,
        },
{
    let mut decoder = flate2::read::ZlibDecoder::new(data);
    let mut out: Vec<u8> = Vec::new();
    match decoder.read_to_end(&mut out) {
        Ok(_) => Some(out),
        Err(_) => None,
    }
}

/// `brotli::Decompressor` (4096-byte buffer) read to the end: claims that
/// the result is the decoder's output, `None` when it reports an error.
#[verifier::external_body]
pub(crate) fn brotli_decode(data: &[u8]) -> (r: Option<Vec<u8>>)
    ensures
        match unbrotli(data@) {
            Some(d) => (r matches Some(v) && v@ == d),
            None => r is None,
        },
{
    let mut decoder = brotli::Decompressor::new(data, 4096);
    let mut out: Vec<u8> = Vec::new();
    match decoder.read_to_end(&mut out) {
        Ok(_) => Some(out),
        Err(_) => None,
    }
}

/// `zstd::stream::decode_all`: claims that the result is the decoder's
/// output, `None` when it reports an error.
#[verifier::external_body]
pub(crate) fn zstd_decode(data: &[u8]) -> (r: Option<Vec<u8>>)
    ensures
        match unzstd(data@) {
            Some(d) => (r matches Some(v) && v@ == d),
            None => r is None,
        },
{
    match zstd::stream::decode_all(data) {
        Ok(v) => Some(v),
        Err(_) => None,
    }
}

/// The text `String::from_utf8_lossy` makes of a byte string: invalid
/// sequences become U+FFFD.
pub uninterp spec fn lossy_text(data: Seq<u8>) -> Seq<char>;

/// `String::from_utf8_lossy`, owned: claims that the result is the lossy
/// text of the bytes and, as std documents, the decoded text when the bytes
/// are valid UTF-8.
#[verifier::external_body]
pub(crate) fn utf8_lossy(data: &[u8]) -> (r: String)
    ensures
        r@ == lossy_text(data@),
        vstd::utf8::valid_utf8(data@) ==> r@ == vstd::utf8::decode_utf8(data@),
{
    String::from_utf8_lossy(data).into_owned()
}

/// The text holds a `%` sign, the only character that decoding changes.
pub open spec fn has_escape(t: Seq<char>) -> bool {
    t.contains('%')
}

/// `urlencoding::decode`: claims that the result is the percent-decoded
/// text, and, as the crate's source shows, that a text without `%` comes
/// back unchanged. (`+` is not turned into a space.)
#[verifier::external_body]
pub(crate) fn url_decode(text: &str) -> (r: Option<String>)
    ensures
        match percent_decoded(text@) {
            Some(d) => (r matches Some(s) && s@ == d),
            None => r is None,
        },
        match r {
            Some(s) => has_escape(text@) || s@ == text@,
            None => has_escape(text@),
        },
{
    match urlencoding::decode(text) {
        Ok(c) => Some(c.into_owned()),
        Err(_) => None,
    }
}

} // verus!
