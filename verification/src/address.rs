//! Content addresses: a snapshot is known by the digest of its bytes, whatever
//! compression it is stored under.

use vstd::prelude::*;
use vstd::slice::slice_to_vec;
use blake2::Digest;
use std::io::Read;
use crate::error::{ChainError, ChainErrorView, Side};

verus! {

/// `niffler::Error`: why a stored stream could not be read.
#[verifier::external_type_specification]
#[verifier::external_body]
pub struct ExStreamError(niffler::Error);

/// The content that `niffler::get_reader` hands out for the stored bytes
/// `raw`, read to its end: `raw` without its compression, or the reason why
/// it could not be read.
pub uninterp spec fn unwrapped(raw: Seq<u8>) -> Result<Seq<u8>, niffler::Error>;

/// The BLAKE2b digest of `content`, 32 bytes long, in lower-case hexadecimal.
pub uninterp spec fn blake2b_hex(content: Seq<u8>) -> Seq<char>;

/// A digit of lower-case hexadecimal.
pub open spec fn is_hex_digit(c: char) -> bool {
    ('0' <= c && c <= '9') || ('a' <= c && c <= 'f')
}

/// An address has 64 digits of lower-case hexadecimal.
pub open spec fn is_address(a: Seq<char>) -> bool {
    &&& a.len() == 64
    &&& forall|i: int| 0 <= i < a.len() ==> is_hex_digit(#[trigger] a[i])
}

/// Whether `raw`, of five bytes or more, begins with the magic number of a
/// compression format: gzip, bzip2, zstd or xz.
pub open spec fn begins_compressed(raw: Seq<u8>) -> bool
    recommends
        raw.len() >= 5,
{
    ||| raw[0] == 0x1f && raw[1] == 0x8b
    ||| raw[0] == 0x42 && raw[1] == 0x5a
    ||| raw[0] == 0x28 && raw[1] == 0xb5 && raw[2] == 0x2f && raw[3] == 0xfd
    ||| raw[0] == 0xfd && raw[1] == 0x37 && raw[2] == 0x7a && raw[3] == 0x58 && raw[4] == 0x5a
}

/// Stored bytes that are their own content: too few to be a compressed
/// stream, or not beginning like one.
pub open spec fn is_plain(raw: Seq<u8>) -> bool {
    raw.len() < 5 || !begins_compressed(raw)
}

/// The content of the stored bytes `raw`. Fewer than five bytes cannot be a
/// compressed stream and are content as they stand; anything longer is what
/// unwrapping makes of it.
pub open spec fn content_of(raw: Seq<u8>) -> Result<Seq<u8>, niffler::Error> {
    if raw.len() < 5 {
        Ok(raw)
    } else {
        unwrapped(raw)
    }
}

/// Calls `niffler::get_reader` on the bytes and reads the stream it returns
/// to the end. Trusted: the outcome depends on the bytes alone; fewer than
/// five bytes are refused; five bytes or more that begin with no magic
/// number come back as they are.
#[verifier::external_body]
pub(crate) fn unwrap_stream(raw: &[u8]) -> (r: Result<Vec<u8>, niffler::Error>)
    ensures
        match unwrapped(raw@) {
            Ok(content) => r is Ok && r->Ok_0@ == content,
            Err(reason) => r is Err && r->Err_0 == reason,
        },
        raw@.len() < 5 ==> r is Err,
        raw@.len() >= 5 && !begins_compressed(raw@) ==> r is Ok && r->Ok_0@ == raw@,
{
    let (mut reader, _format) = niffler::get_reader(Box::new(raw))?;
    let mut content = Vec::new();
    reader.read_to_end(&mut content)?;
    Ok(content)
}

/// The content of the stored bytes `raw`, for the document on `side`.
pub fn content(raw: &[u8], side: Side) -> (r: Result<Vec<u8>, ChainError>)
    ensures
        match content_of(raw@) {
            Ok(content) => r is Ok && r->Ok_0@ == content,
            Err(reason) => r is Err && r->Err_0@ == (ChainErrorView::Unreadable { side, reason }),
        },
        is_plain(raw@) ==> r is Ok && r->Ok_0@ == raw@,
{
    if raw.len() < 5 {
        return Ok(slice_to_vec(raw));
    }
    match unwrap_stream(raw) {
        Ok(content) => Ok(content),
        Err(reason) => Err(ChainError::Unreadable { side, reason }),
    }
}

/// Feeds the bytes to `blake2::Blake2b` with an output of 32 bytes and
/// formats the digest with `{:x}`. Trusted: the text depends on the bytes
/// alone and has 64 digits of lower-case hexadecimal.
#[verifier::external_body]
pub(crate) fn digest_hex(content: &[u8]) -> (hex: String)
    ensures
        hex@ == blake2b_hex(content@),
        is_address(hex@),
{
    let mut hasher = blake2::Blake2b::<blake2::digest::consts::U32>::new();
    hasher.update(content);
    format!("{:x}", hasher.finalize())
}

/// The address of the snapshot stored as `raw`: the digest of its content.
pub open spec fn address_of(raw: Seq<u8>) -> Result<Seq<char>, ChainErrorView> {
    match content_of(raw) {
        Ok(content) => Ok(blake2b_hex(content)),
        Err(reason) => Err(ChainErrorView::Unreadable { side: Side::Left, reason }),
    }
}

/// Computes the content address of a snapshot from its stored bytes. The
/// address is that of the content, not of the stored form; content of any
/// length has one.
pub fn hash(raw: &[u8]) -> (r: Result<String, ChainError>)
    ensures
        match address_of(raw@) {
            Ok(address) => r is Ok && r->Ok_0@ == address,
            Err(e) => r is Err && r->Err_0@ == e,
        },
        r is Ok ==> is_address(r->Ok_0@),
        raw@.len() < 5 ==> r is Ok && r->Ok_0@ == blake2b_hex(raw@),
        is_plain(raw@) ==> r is Ok && r->Ok_0@ == blake2b_hex(raw@),
{
    let content = content(raw, Side::Left)?;
    Ok(digest_hex(content.as_slice()))
}

} // verus!
