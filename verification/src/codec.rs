//! Compression of snapshot files, done by zstd.

use vstd::prelude::*;

verus! {

/// The compression level of snapshot files: zstd's default.
pub const SNAPSHOT_LEVEL: i32 = 0;

/// The zstd frame that compressing `data` at `level` gives, or nothing
/// where zstd does not compress it.
pub uninterp spec fn zstd_encoded(data: Seq<u8>, level: i32) -> Option<Seq<u8>>;

/// The bytes that the zstd frames in `data` decompress to, or nothing where
/// `data` is not made of zstd frames.
pub uninterp spec fn zstd_decoded(data: Seq<u8>) -> Option<Seq<u8>>;

/// zstd's `stream::encode_all` on a byte slice.
///
/// The answer of the call is what zstd gives for these bytes at this level:
/// the frame where it succeeds, and `None` where it reports an error.
#[verifier::external_body]
pub(crate) fn zstd_encode(data: &[u8], level: i32) -> (frame: Option<Vec<u8>>)
    ensures
        match frame {
            Some(bytes) => zstd_encoded(data@, level) == Some(bytes@),
            None => zstd_encoded(data@, level) is None,
        },
{
    zstd::stream::encode_all(data, level).ok()
}

/// zstd's `stream::decode_all` on a byte slice.
///
/// The answer of the call is what zstd gives for these bytes: what they
/// decompress to where it succeeds, and `None` where it reports an error, as
/// it does for input that is not made of zstd frames.
#[verifier::external_body]
pub(crate) fn zstd_decode(data: &[u8]) -> (plain: Option<Vec<u8>>)
    ensures
        match plain {
            Some(bytes) => zstd_decoded(data@) == Some(bytes@),
            None => zstd_decoded(data@) is None,
        },
{
    zstd::stream::decode_all(data).ok()
}

/// Why a snapshot could not be compressed.
#[derive(Clone, Copy, Debug, PartialEq, Eq, Structural)]
pub enum PackError {
    /// The compressor reported a failure.
    Compressor,
}

/// Compresses the text of a snapshot into the bytes of its file: the frame
/// that zstd gives for the text at the level of snapshots, and an error
/// where zstd gives none.
pub fn pack(document: &[u8]) -> (file: Result<Vec<u8>, PackError>)
    ensures
        match file {
            Ok(bytes) => zstd_encoded(document@, SNAPSHOT_LEVEL) == Some(bytes@),
            Err(error) => error == PackError::Compressor && zstd_encoded(
                document@,
                SNAPSHOT_LEVEL,
            ) is None,
        },
{
    packed(zstd_encode(document, SNAPSHOT_LEVEL))
}

/// What [`pack`] makes of the compressor's answer: the frame where there is
/// one, the error where there is none.
pub fn packed(frame: Option<Vec<u8>>) -> (file: Result<Vec<u8>, PackError>)
    ensures
        file == match frame {
            Some(bytes) => Ok::<Vec<u8>, PackError>(bytes),
            None => Err::<Vec<u8>, PackError>(PackError::Compressor),
        },
{
    match frame {
        Some(bytes) => Ok(bytes),
        None => Err(PackError::Compressor),
    }
}

/// Decompresses the bytes of a snapshot file into the text of the snapshot,
/// or reports that they are no snapshot file.
pub fn unpack(file: &[u8]) -> (document: Option<Vec<u8>>)
    ensures
        match document {
            Some(bytes) => zstd_decoded(file@) == Some(bytes@),
            None => zstd_decoded(file@) is None,
        },
{
    zstd_decode(file)
}

} // verus!
