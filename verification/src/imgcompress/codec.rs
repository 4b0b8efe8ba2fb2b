//! The two outside codecs of the image format: zstd for the base image and
//! CRC32C for the checksums of the blocks.
//!
//! Nothing in this file is proved. Each item states what the library takes
//! from the outside function that it names.

use vstd::prelude::*;

verus! {

/// What `zstd::stream::encode_all` returns for `data` at `level`; `None`
/// where it reports an error.
pub uninterp spec fn zstd_encoded(data: Seq<u8>, level: int) -> Option<Seq<u8>>;

/// What `zstd::stream::decode_all` returns for `data`; `None` where it
/// reports an error.
pub uninterp spec fn zstd_decoded(data: Seq<u8>) -> Option<Seq<u8>>;

/// What `crc32c::crc32c_append` returns for the running checksum `seed` and
/// `data`.
pub uninterp spec fn crc32c_digest(seed: u32, data: Seq<u8>) -> u32;

/// Error of the stream codec. Its contents are not looked at.
#[verifier::external_type_specification]
#[verifier::external_body]
pub struct ExIoError(std::io::Error);

/// Calls `zstd::stream::encode_all` on `data`. Claims that the frame it
/// returns is the one named by [`zstd_encoded`], and that zstd is lossless,
/// as the examples in its documentation show: decoding that frame gives
/// `data` back.
#[verifier::external_body]
pub(crate) fn zstd_encode(data: &[u8], level: i32) -> (frame: Result<Vec<u8>, std::io::Error>)
    ensures
        match frame {
            Ok(bytes) => zstd_encoded(data@, level as int) == Some(bytes@) && zstd_decoded(bytes@) == Some(
                data@,
            ),
            Err(_) => zstd_encoded(data@, level as int) is None,
        },
{
    zstd::stream::encode_all(data, level)
}

/// Calls `zstd::stream::decode_all` on `data`. Claims that what it returns
/// is what [`zstd_decoded`] names.
#[verifier::external_body]
pub(crate) fn zstd_decode(data: &[u8]) -> (plain: Result<Vec<u8>, std::io::Error>)
    ensures
        match plain {
            Ok(bytes) => zstd_decoded(data@) == Some(bytes@),
            Err(_) => zstd_decoded(data@) is None,
        },
{
    zstd::stream::decode_all(data)
}

/// `crc32c::crc32c_append` continues the CRC-32C checksum `crc` over `data`.
/// Its result is named by [`crc32c_digest`].
pub assume_specification[ crc32c::crc32c_append ](crc: u32, data: &[u8]) -> (digest: u32)
    ensures
        digest == crc32c_digest(crc, data@),
;

} // verus!
