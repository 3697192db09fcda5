//! The grouping key: the leading bytes of a file, read as one machine word.

use vstd::prelude::*;
use vstd::endian::{endianness, Endian};
use vstd::layout::size_of;
use vstd::slice::slice_subrange;

verus! {

/// Why a file was left alone.
#[derive(Clone, Copy, Debug, PartialEq, Eq, Structural)]
pub enum ScanError {
    /// The file holds fewer bytes than a key, or could not be opened or read.
    ExtractionFailed,
    /// The whole content of the file could not be read.
    ReadFailed,
    /// The file is a duplicate, but removing it failed.
    DeletionFailed,
}

/// Number of bytes in a grouping key: the size of a machine word.
pub open spec fn spec_key_width() -> nat {
    size_of::<usize>()
}

/// The number that `s` stands for when its first byte is the least significant.
pub open spec fn le_value(s: Seq<u8>) -> nat
    decreases s.len(),
{
    if s.len() == 0 {
        0
    } else {
        s[0] as nat + 256 * le_value(s.subrange(1, s.len() as int))
    }
}

/// The number that `s` stands for when its first byte is the most significant.
pub open spec fn be_value(s: Seq<u8>) -> nat
    decreases s.len(),
{
    if s.len() == 0 {
        0
    } else {
        256 * be_value(s.drop_last()) + s.last() as nat
    }
}

/// The number that `s` stands for in the byte order of the running machine.
pub open spec fn native_value(s: Seq<u8>) -> nat {
    match endianness() {
        Endian::Little => le_value(s),
        Endian::Big => be_value(s),
    }
}

/// What key extraction gives for a file whose leading bytes are `head`.
pub open spec fn spec_read_id(head: Seq<u8>) -> Result<usize, ScanError> {
    if head.len() < spec_key_width() {
        Err(ScanError::ExtractionFailed)
    } else {
        Ok(native_value(head.subrange(0, spec_key_width() as int)) as usize)
    }
}

/// Number of bytes in a grouping key.
pub fn key_width() -> (w: usize)
    ensures
        w == spec_key_width(),
        w * 8 == usize::BITS,
{
    broadcast use vstd::layout::layout_of_primitives;
    core::mem::size_of::<usize>()
}

/// Trusted: `usize::from_ne_bytes`, on exactly one word of bytes. The standard
/// library documents the result as the integer whose memory representation, in
/// the byte order of the target, is the given array. The contract states that
/// number, with the first byte least significant on a little-endian machine and
/// most significant on a big-endian one.
#[verifier::external_body]
fn word_from_ne_bytes(bytes: &[u8]) -> (word: usize)
    requires
        bytes@.len() == spec_key_width(),
    ensures
        word as nat == native_value(bytes@),
{
    usize::from_ne_bytes(bytes.try_into().unwrap())
}

/// Extracts the grouping key of a file from `head`, the bytes at its start.
///
/// The caller hands over what the file holds up to `key_width()` bytes, or more.
/// A file with fewer bytes has no key: nothing is padded.
pub fn read_id(head: &[u8]) -> (r: Result<usize, ScanError>)
    ensures
        r == spec_read_id(head@),
        r is Ok <==> head@.len() >= spec_key_width(),
        r is Err ==> r == Err::<usize, ScanError>(ScanError::ExtractionFailed),
{
    let w = key_width();
    if head.len() < w {
        return Err(ScanError::ExtractionFailed);
    }
    let word = word_from_ne_bytes(slice_subrange(head, 0, w));
    Ok(word)
}

} // verus!
