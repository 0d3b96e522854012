//! The compression codec: a uniform `compress`/`decompress` surface over
//! no compression, zstd at a chosen level, and lz4.

use vstd::prelude::*;

use crate::error::PackError;
use crate::format::CompressionType;

verus! {

/// A write-time compression choice: the family plus its tuning. Only the
/// family is recorded in the container header.
#[derive(Debug, Clone, Copy)]
pub enum CompressionCodec {
    Uncompressed,
    Zstd(i32),
    Lz4,
}

impl CompressionCodec {
    /// No compression.
    pub fn none() -> (c: Self)
        ensures
            c is Uncompressed,
    {
        CompressionCodec::Uncompressed
    }

    /// Zstd at its default level.
    pub fn zstd_default() -> (c: Self)
        ensures
            c == CompressionCodec::Zstd(3),
    {
        CompressionCodec::Zstd(3)
    }

    /// Zstd tuned for speed.
    pub fn zstd_fast() -> (c: Self)
        ensures
            c == CompressionCodec::Zstd(1),
    {
        CompressionCodec::Zstd(1)
    }

    /// Zstd tuned for ratio.
    pub fn zstd_best() -> (c: Self)
        ensures
            c == CompressionCodec::Zstd(19),
    {
        CompressionCodec::Zstd(19)
    }

    /// Lz4 at its default tuning.
    pub fn lz4_default() -> (c: Self)
        ensures
            c is Lz4,
    {
        CompressionCodec::Lz4
    }
}

/// The family a codec belongs to: what the container header records.
pub open spec fn spec_family(c: CompressionCodec) -> CompressionType {
    match c {
        CompressionCodec::Uncompressed => CompressionType::Uncompressed,
        CompressionCodec::Zstd(_) => CompressionType::Zstd,
        CompressionCodec::Lz4 => CompressionType::Lz4,
    }
}

impl From<CompressionCodec> for CompressionType {
    /// The family of `codec`.
    fn from(codec: CompressionCodec) -> (r: Self) {
        match codec {
            CompressionCodec::Uncompressed => CompressionType::Uncompressed,
            CompressionCodec::Zstd(_) => CompressionType::Zstd,
            CompressionCodec::Lz4 => CompressionType::Lz4,
        }
    }
}

impl vstd::std_specs::convert::FromSpecImpl<CompressionCodec> for CompressionType {
    open spec fn obeys_from_spec() -> bool {
        true
    }

    open spec fn from_spec(c: CompressionCodec) -> CompressionType {
        spec_family(c)
    }
}

/// The bound an in-memory payload may decompress to: 100 MiB.
pub const MAX_DECOMPRESSED_SIZE: usize = 100 * 1024 * 1024;

/// What `zstd::bulk::compress` returns for a block and level.
pub uninterp spec fn zstd_compressed(data: Seq<u8>, level: int) -> Seq<u8>;

/// What the lz4 frame encoder produces for a block and level.
pub uninterp spec fn lz4_compressed(data: Seq<u8>, level: int) -> Seq<u8>;

/// The compressed form of a buffer under a codec.
pub open spec fn spec_compress(data: Seq<u8>, c: CompressionCodec) -> Seq<u8> {
    match c {
        CompressionCodec::Uncompressed => data,
        CompressionCodec::Zstd(level) => zstd_compressed(data, level as int),
        CompressionCodec::Lz4 => lz4_compressed(data, 4),
    }
}

/// Relies on `zstd::bulk::compress`: one-shot block compression whose
/// output is a function of the input block and level alone.
#[verifier::external_body]
fn zstd_compress(data: &[u8], level: i32) -> (r: Result<Vec<u8>, PackError>)
    ensures
        r matches Ok(v) ==> v@ == zstd_compressed(data@, level as int),
        r matches Err(e) ==> e is Compression,
{
    match zstd::bulk::compress(data, level) {
        Ok(v) => Ok(v),
        Err(e) => Err(PackError::Compression(e.to_string())),
    }
}

/// Relies on `zstd::bulk::decompress`: a block produced by
/// `zstd::bulk::compress` decompresses back to the original, provided the
/// original fits in `cap` bytes.
#[verifier::external_body]
fn zstd_decompress(data: &[u8], cap: usize) -> (r: Result<Vec<u8>, PackError>)
    ensures
        r matches Ok(v) ==> (forall|orig: Seq<u8>, level: int|
            #[trigger] zstd_compressed(orig, level) == data@ && orig.len() <= cap ==> v@ == orig),
        r is Err ==> !(exists|orig: Seq<u8>, level: int|
            #[trigger] zstd_compressed(orig, level) == data@ && orig.len() <= cap),
        r matches Err(e) ==> e is Decompression,
{
    match zstd::bulk::decompress(data, cap) {
        Ok(v) => Ok(v),
        Err(e) => Err(PackError::Decompression(e.to_string())),
    }
}

/// Relies on lz4's frame `Encoder`: streaming a block through it at a
/// level yields a frame that is a function of the block and level alone.
#[verifier::external_body]
fn lz4_compress(data: &[u8], level: u32) -> (r: Result<Vec<u8>, PackError>)
    ensures
        r matches Ok(v) ==> v@ == lz4_compressed(data@, level as int),
        r matches Err(e) ==> e is Compression,
{
    let mut encoder = match lz4::EncoderBuilder::new().level(level).build(Vec::new()) {
        Ok(e) => e,
        Err(e) => return Err(PackError::Compression(e.to_string())),
    };
    if let Err(e) = std::io::copy(&mut &data[..], &mut encoder) {
        return Err(PackError::Compression(e.to_string()));
    }
    let (compressed, result) = encoder.finish();
    match result {
        Ok(()) => Ok(compressed),
        Err(e) => Err(PackError::Compression(e.to_string())),
    }
}

/// Relies on `lz4::Decoder`: reading a frame produced by the lz4 encoder
/// yields the original block.
#[verifier::external_body]
fn lz4_decompress(data: &[u8]) -> (r: Result<Vec<u8>, PackError>)
    ensures
        r matches Ok(v) ==> (forall|orig: Seq<u8>, level: int|
            #[trigger] lz4_compressed(orig, level) == data@ ==> v@ == orig),
        r is Err ==> !(exists|orig: Seq<u8>, level: int|
            #[trigger] lz4_compressed(orig, level) == data@),
        r matches Err(e) ==> e is Decompression,
{
    let mut decoder = match lz4::Decoder::new(data) {
        Ok(d) => d,
        Err(e) => return Err(PackError::Decompression(e.to_string())),
    };
    let mut out = Vec::new();
    match std::io::copy(&mut decoder, &mut out) {
        Ok(_) => Ok(out),
        Err(e) => Err(PackError::Decompression(e.to_string())),
    }
}

/// Compresses a buffer under the chosen codec. Failure is possible only on
/// compression-engine errors; no compression never fails.
pub fn compress(data: &[u8], codec: CompressionCodec) -> (r: Result<Vec<u8>, PackError>)
    ensures
        r matches Ok(v) ==> v@ == spec_compress(data@, codec),
        codec is Uncompressed ==> r is Ok,
        r matches Err(e) ==> e is Compression,
{
    match codec {
        CompressionCodec::Uncompressed => Ok(vstd::slice::slice_to_vec(data)),
        CompressionCodec::Zstd(level) => zstd_compress(data, level),
        CompressionCodec::Lz4 => lz4_compress(data, 4),
    }
}

/// Decompresses a buffer whose family is `compression_type`. Whatever a
/// codec of that family compressed to these bytes comes back exactly,
/// provided it fits the decompression bound; uncompressed input is
/// returned as is.
pub fn decompress(data: &[u8], compression_type: CompressionType) -> (r: Result<
    Vec<u8>,
    PackError,
>)
    ensures
        forall|orig: Seq<u8>, c: CompressionCodec|
            spec_family(c) == compression_type && #[trigger] spec_compress(orig, c) == data@
                && orig.len() <= MAX_DECOMPRESSED_SIZE ==> (r matches Ok(v) && v@ == orig),
        compression_type is Uncompressed ==> (r matches Ok(v) && v@ == data@),
        r matches Err(e) ==> e is Decompression,
{
    match compression_type {
        CompressionType::Uncompressed => {
            let v = vstd::slice::slice_to_vec(data);
            Ok(v)
        },
        CompressionType::Zstd => {
            let r = zstd_decompress(data, MAX_DECOMPRESSED_SIZE);
            proof {
                assert forall|orig: Seq<u8>, c: CompressionCodec|
                    spec_family(c) == compression_type && #[trigger] spec_compress(orig, c)
                        == data@ && orig.len() <= MAX_DECOMPRESSED_SIZE implies (r matches Ok(v)
                    && v@ == orig) by {
                    let level = c->Zstd_0;
                    assert(zstd_compressed(orig, level as int) == data@ && orig.len()
                        <= MAX_DECOMPRESSED_SIZE);
                    assert(r is Ok);
                }
            }
            r
        },
        CompressionType::Lz4 => {
            let r = lz4_decompress(data);
            proof {
                assert forall|orig: Seq<u8>, c: CompressionCodec|
                    spec_family(c) == compression_type && #[trigger] spec_compress(orig, c)
                        == data@ && orig.len() <= MAX_DECOMPRESSED_SIZE implies (r matches Ok(v)
                    && v@ == orig) by {
                    assert(lz4_compressed(orig, 4) == data@);
                    assert(r is Ok);
                }
            }
            r
        },
    }
}

} // verus!
