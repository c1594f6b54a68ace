use vstd::prelude::*;

verus! {

/// Everything that can go wrong while decoding a message-tree file.
///
/// * `BadFileMagic` — the leading big-endian `int32` of the file is not `-1`.
/// * `TruncatedBlock` — a short read in the middle of a block length or body.
/// * `TruncatedStream` — a short read inside the decompressed stream or a record.
/// * `SnappyDecompressError` — a chunk is not valid Snappy data.
/// * `UnknownVersion` — the record header is not ASCII `"NT1"`.
/// * `UnknownMessageKind` — an unrecognised tag byte in the message loop.
/// * `UnterminatedTransaction` — end of record before a matching close tag.
/// * `InvalidUtf8` — a strict text field held invalid UTF-8.
/// * `EmptyTree` — a record with no message at all.
#[derive(Clone, Copy, Debug, PartialEq, Eq, Structural)]
pub enum DecodeError {
    BadFileMagic,
    TruncatedBlock,
    TruncatedStream,
    SnappyDecompressError,
    UnknownVersion,
    UnknownMessageKind,
    UnterminatedTransaction,
    InvalidUtf8,
    EmptyTree,
}

} // verus!
