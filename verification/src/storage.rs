//! The container codec: serialize, compress, optionally encrypt and frame
//! a snapshot on write; invert each stage, checking as it goes, on read.

use vstd::prelude::*;

use sha2::Digest;

use crate::compression::{
    compress, decompress, spec_compress, spec_family, CompressionCodec, MAX_DECOMPRESSED_SIZE,
};
use crate::container::lemma_header_bincode_len;
use crate::encryption::{aes_open_of, decrypt_snapshot, encrypt_snapshot, EncryptionKey};
use crate::error::PackError;
use crate::format::{
    header_valid, CompressionType, magic_ok, HeaderV, PackFormat, PackedSnapshot, SnapshotHeader, SnapshotV,
    FORMAT_VERSION,
};
use crate::text::dec_digits;
use crate::wire::{bytes_eq, lemma_concat_split, Wire};

verus! {

/// What SHA-256 digests a byte sequence to: a function of the input alone.
pub uninterp spec fn sha256_of(data: Seq<u8>) -> Seq<u8>;

/// Relies on sha2's `Sha256` (`Digest::digest`): the 32-byte SHA-256
/// digest of the input.
#[verifier::external_body]
fn sha256_digest(data: &[u8]) -> (r: [u8; 32])
    ensures
        r@ == sha256_of(data@) && r@.len() == 32,
{
    sha2::Sha256::digest(data).into()
}

/// The length of the container's encoded header: the payload starts here.
pub const CONTAINER_HEADER_LEN: usize = 117;

/// The serialized body of a snapshot, under the snapshot's own format.
pub open spec fn body_bytes(s: SnapshotV) -> Seq<u8> {
    <PackedSnapshot as Wire>::venc(s, s.header.format)
}

/// The body serialized and then compressed: the payload before encryption.
pub open spec fn payload_plain(s: SnapshotV, c: CompressionCodec) -> Seq<u8> {
    spec_compress(body_bytes(s), c)
}

/// The encoded container header bytes of a header view.
pub open spec fn enc_header_bytes(h: HeaderV) -> Seq<u8> {
    <SnapshotHeader as Wire>::venc(h, PackFormat::Bincode)
}

/// The header the writer emits: the snapshot's header with the codec
/// family, the encryption flag, the payload checksum, the payload size,
/// and the payload's true file offset filled in.
pub open spec fn final_header(s: SnapshotV, c: CompressionCodec, enc: bool, p: Seq<u8>) -> HeaderV {
    HeaderV {
        compression: spec_family(c),
        encrypted: enc,
        checksum: sha256_of(p),
        data_size: p.len() as u64,
        data_offset: CONTAINER_HEADER_LEN as u64,
        ..s.header
    }
}

/// What it means for bytes `b` to be a container the writer can emit for
/// snapshot `s` under codec `c` and optional key `key`, with payload `p`:
/// the final header followed by the payload, where the payload is the
/// compressed body, sealed under the key when one is given.
#[verifier::opaque]
pub open spec fn is_written_container(
    b: Seq<u8>,
    s: SnapshotV,
    c: CompressionCodec,
    key: Option<Seq<u8>>,
    p: Seq<u8>,
) -> bool {
    &&& match key {
        None => p == payload_plain(s, c),
        Some(k) => aes_open_of(p, k) == Some(payload_plain(s, c)) && p.len() == payload_plain(
            s,
            c,
        ).len() + 28,
    }
    &&& p.len() <= usize::MAX
    &&& sha256_of(p).len() == 32
    &&& b == enc_header_bytes(final_header(s, c, key is Some, p)) + p
}

/// Whether `b` is a container the writer can emit for `s` under codec `c`
/// and key `key`, for some payload.
#[verifier::opaque]
pub open spec fn written_container_for(
    b: Seq<u8>,
    s: SnapshotV,
    c: CompressionCodec,
    key: Option<Seq<u8>>,
) -> bool {
    exists|p: Seq<u8>| #[trigger] is_written_container(b, s, c, key, p)
}

/// The container header decoded from the front of `b`, with the count of
/// bytes it occupies.
pub open spec fn read_header_of(b: Seq<u8>) -> Option<(HeaderV, int)> {
    <SnapshotHeader as Wire>::vdec(b, PackFormat::Bincode)
}

/// Whether the header's payload window lies inside a buffer of `len`
/// bytes.
pub open spec fn range_ok(h: HeaderV, len: int) -> bool {
    h.data_offset + h.data_size <= len
}

/// The payload window of `b` under header `h`.
pub open spec fn payload_of(h: HeaderV, b: Seq<u8>) -> Seq<u8> {
    b.subrange(h.data_offset as int, h.data_offset + h.data_size)
}

/// Whether the payload window's digest matches the header's checksum.
pub open spec fn checksum_ok(h: HeaderV, b: Seq<u8>) -> bool {
    sha256_of(payload_of(h, b)) == h.checksum
}

/// Law: a written container reads back. Every container the writer can
/// emit for a well-formed snapshot parses to the emitted header, carries
/// its payload at the recorded window with a matching checksum, and its
/// payload opens and decompresses back to the exact serialized body.
pub proof fn lemma_container_roundtrip(
    b: Seq<u8>,
    s: SnapshotV,
    c: CompressionCodec,
    wk: Option<Seq<u8>>,
    p: Seq<u8>,
)
    requires
        is_written_container(b, s, c, wk, p),
        header_valid(s.header),
        s.header.format != PackFormat::Custom,
        <PackedSnapshot as Wire>::vok(s, s.header.format),
    ensures
        ({
            let h = final_header(s, c, wk is Some, p);
            &&& read_header_of(b) == Some((h, CONTAINER_HEADER_LEN as int))
            &&& header_valid(h)
            &&& h.data_offset == CONTAINER_HEADER_LEN
            &&& h.data_size == p.len()
            &&& b.len() == CONTAINER_HEADER_LEN + p.len()
            &&& range_ok(h, b.len() as int)
            &&& payload_of(h, b) == p
            &&& checksum_ok(h, b)
            &&& h.encrypted == (wk is Some)
            &&& h.format == s.header.format
            &&& h.compression == spec_family(c)
            &&& (match wk {
                None => p == payload_plain(s, c),
                Some(k) => aes_open_of(p, k) == Some(payload_plain(s, c)),
            })
            &&& (wk is Some ==> p.len() >= 28)
            &&& payload_plain(s, c) == spec_compress(body_bytes(s), c)
            &&& <PackedSnapshot as Wire>::vdec(body_bytes(s), s.header.format) == Some(
                (s, body_bytes(s).len() as int),
            )
        }),
{
    reveal(is_written_container);
    let h = final_header(s, c, wk is Some, p);
    assert(h.magic == s.header.magic && h.version == s.header.version);
    assert(<SnapshotHeader as Wire>::vok(h, PackFormat::Bincode));
    <SnapshotHeader as Wire>::lemma_complete(h, p, PackFormat::Bincode);
    lemma_header_bincode_len(h);
    let eh = enc_header_bytes(h);
    assert(b == eh + p);
    assert(read_header_of(b) == Some((h, CONTAINER_HEADER_LEN as int)));
    lemma_concat_split(eh, p);
    assert(payload_of(h, b) =~= p);
    <PackedSnapshot as Wire>::lemma_complete(s, Seq::<u8>::empty(), s.header.format);
    assert(body_bytes(s) + Seq::<u8>::empty() =~= body_bytes(s));
}

/// Law: without encryption the writer is deterministic. Two containers
/// written from the same snapshot under the same codec and no key are
/// byte-identical.
pub proof fn lemma_write_deterministic(
    b1: Seq<u8>,
    b2: Seq<u8>,
    s: SnapshotV,
    c: CompressionCodec,
    p1: Seq<u8>,
    p2: Seq<u8>,
)
    requires
        is_written_container(b1, s, c, None, p1),
        is_written_container(b2, s, c, None, p2),
    ensures
        b1 == b2,
{
    reveal(is_written_container);
}

/// Law: the emitted header describes the container. For any container the
/// writer can emit, the header parsed from its front records the header's
/// own encoded length as the data offset, the remainder of the container
/// as the data size, and the SHA-256 digest of that remainder as the
/// checksum.
pub proof fn lemma_emitted_header_invariants(
    b: Seq<u8>,
    s: SnapshotV,
    c: CompressionCodec,
    wk: Option<Seq<u8>>,
    p: Seq<u8>,
)
    requires
        is_written_container(b, s, c, wk, p),
        header_valid(s.header),
        s.header.format != PackFormat::Custom,
        <PackedSnapshot as Wire>::vok(s, s.header.format),
    ensures
        ({
            let h = final_header(s, c, wk is Some, p);
            &&& read_header_of(b) == Some((h, CONTAINER_HEADER_LEN as int))
            &&& h.data_offset == enc_header_bytes(h).len()
            &&& h.data_size == b.len() - h.data_offset
            &&& h.checksum == sha256_of(b.skip(h.data_offset as int))
        }),
{
    reveal(is_written_container);
    lemma_container_roundtrip(b, s, c, wk, p);
    let h = final_header(s, c, wk is Some, p);
    lemma_header_bincode_len(h);
    lemma_concat_split(enc_header_bytes(h), p);
    assert(b.skip(CONTAINER_HEADER_LEN as int) =~= p);
}

/// The writer half of the codec: a compression choice and an optional key.
pub struct SnapshotWriter {
    compression: CompressionCodec,
    encryption_key: Option<EncryptionKey>,
}

impl SnapshotWriter {
    /// The writer's compression choice.
    pub closed spec fn spec_compression(self) -> CompressionCodec {
        self.compression
    }

    /// The writer's key bytes, if it encrypts.
    pub closed spec fn spec_key(self) -> Option<Seq<u8>> {
        match self.encryption_key {
            Some(k) => Some(k@),
            None => None,
        }
    }

    /// A writer with default-level Zstd compression and no encryption.
    pub fn new() -> (w: Self)
        ensures
            w.spec_compression() == CompressionCodec::Zstd(3),
            w.spec_key() is None,
    {
        SnapshotWriter { compression: CompressionCodec::zstd_default(), encryption_key: None }
    }

    /// The same writer with another compression choice.
    pub fn with_compression(self, codec: CompressionCodec) -> (w: Self)
        ensures
            w.spec_compression() == codec,
            w.spec_key() == self.spec_key(),
    {
        SnapshotWriter { compression: codec, encryption_key: self.encryption_key }
    }

    /// The same writer, now encrypting under `key`.
    pub fn with_encryption(self, key: EncryptionKey) -> (w: Self)
        ensures
            w.spec_compression() == self.spec_compression(),
            w.spec_key() == Some(key@),
    {
        SnapshotWriter { compression: self.compression, encryption_key: Some(key) }
    }

    /// Emits a container for `snapshot`: the serialized body, compressed,
    /// sealed when a key is configured, and framed behind the final
    /// header. The `Custom` format, and a body beyond the format's
    /// limits, are rejected with `Serialization`; with no compression and
    /// no key nothing else can fail.
    #[verifier::rlimit(100)]
    #[verifier::spinoff_prover]
    pub fn write_to_bytes(&self, snapshot: &PackedSnapshot) -> (r: Result<Vec<u8>, PackError>)
        ensures
            r matches Ok(b) ==> written_container_for(
                b@,
                snapshot@,
                self.spec_compression(),
                self.spec_key(),
            ),
            snapshot@.header.format == PackFormat::Custom ==> (r matches Err(e)
                && e is Serialization),
            snapshot@.header.format != PackFormat::Custom && !<PackedSnapshot as Wire>::vok(
                snapshot@,
                snapshot@.header.format,
            ) ==> (r matches Err(e) && e is Serialization),
            snapshot@.header.format != PackFormat::Custom && <PackedSnapshot as Wire>::vok(
                snapshot@,
                snapshot@.header.format,
            ) && self.spec_compression() is Uncompressed && self.spec_key() is None ==> r is Ok,
            r matches Err(e) ==> (e is Serialization || e is Compression || e is Encryption),
    {
        let fmt = snapshot.header.format;
        if fmt == PackFormat::Custom {
            return Err(PackError::Serialization("custom format not implemented".to_owned()));
        }
        if !snapshot.wire_ok(fmt) {
            return Err(PackError::Serialization("snapshot exceeds format limits".to_owned()));
        }
        let mut body: Vec<u8> = Vec::new();
        snapshot.wire_write(fmt, &mut body);
        let compressed = match compress(body.as_slice(), self.compression) {
            Ok(v) => v,
            Err(e) => return Err(e),
        };
        let ghost compv = compressed@;
        let final_data: Vec<u8>;
        let encrypted: bool;
        match &self.encryption_key {
            Some(key) => {
                final_data = match encrypt_snapshot(compressed.as_slice(), key) {
                    Ok(v) => v,
                    Err(e) => return Err(e),
                };
                encrypted = true;
            },
            None => {
                final_data = compressed;
                encrypted = false;
            },
        }
        let checksum = sha256_digest(final_data.as_slice());
        let header = SnapshotHeader {
            compression: CompressionType::from(self.compression),
            encrypted: encrypted,
            checksum: checksum,
            data_size: final_data.len() as u64,
            data_offset: CONTAINER_HEADER_LEN as u64,
            ..snapshot.header
        };
        let mut out: Vec<u8> = Vec::new();
        header.wire_write(PackFormat::Bincode, &mut out);
        out.extend_from_slice(final_data.as_slice());
        proof {
            broadcast use vstd::array::group_array_axioms;

            reveal(is_written_container);
            let p = final_data@;
            assert(body@ =~= body_bytes(snapshot@));
            assert(compv == payload_plain(snapshot@, self.spec_compression()));
            assert(header@ =~= final_header(snapshot@, self.spec_compression(), encrypted, p));
            assert(out@ =~= enc_header_bytes(header@) + p);
            match self.spec_key() {
                None => {
                    assert(p == payload_plain(snapshot@, self.spec_compression()));
                },
                Some(k) => {
                    assert(aes_open_of(p, k) == Some(compv));
                },
            }
            assert(is_written_container(
                out@,
                snapshot@,
                self.spec_compression(),
                self.spec_key(),
                p,
            ));
            assert(written_container_for(
                out@,
                snapshot@,
                self.spec_compression(),
                self.spec_key(),
            )) by {
                reveal(written_container_for);
            }
        }
        Ok(out)
    }
}

/// The reader half of the codec: an optional decryption key.
pub struct SnapshotReader {
    encryption_key: Option<EncryptionKey>,
}

impl SnapshotReader {
    /// The reader's key bytes, if it decrypts.
    pub closed spec fn spec_key(self) -> Option<Seq<u8>> {
        match self.encryption_key {
            Some(k) => Some(k@),
            None => None,
        }
    }

    /// A reader without a decryption key.
    pub fn new() -> (r: Self)
        ensures
            r.spec_key() is None,
    {
        SnapshotReader { encryption_key: None }
    }

    /// The same reader, now decrypting under `key`.
    pub fn with_encryption(self, key: EncryptionKey) -> (r: Self)
        ensures
            r.spec_key() == Some(key@),
    {
        SnapshotReader { encryption_key: Some(key) }
    }

    /// Reads a container back into a snapshot. The stages fail in a fixed
    /// order — header parse, magic, version, payload window, checksum,
    /// decryption, decompression, body decode — and every container the
    /// writer can emit from a well-formed snapshot reads back to that
    /// exact snapshot when the keys agree.
    #[verifier::rlimit(100)]
    #[verifier::spinoff_prover]
    pub fn read_from_bytes(&self, bytes: &[u8]) -> (r: Result<PackedSnapshot, PackError>)
        ensures
            read_header_of(bytes@) is None ==> (r matches Err(e) && e is Deserialization),
            (read_header_of(bytes@) matches Some((h, hc)) && !magic_ok(h)) ==> (r matches Err(e)
                && e is InvalidFormat),
            (match read_header_of(bytes@) {
                Some((h, hc)) => magic_ok(h) && h.version != FORMAT_VERSION ==> (r matches Err(e)
                    && (e matches PackError::VersionMismatch { expected, actual } && expected@
                    == dec_digits(FORMAT_VERSION as nat) && actual@ == dec_digits(
                    h.version as nat,
                ))),
                None => true,
            }),
            (read_header_of(bytes@) matches Some((h, hc)) && header_valid(h) && !range_ok(
                h,
                bytes@.len() as int,
            )) ==> (r matches Err(e) && e is InvalidFormat),
            (read_header_of(bytes@) matches Some((h, hc)) && header_valid(h) && range_ok(
                h,
                bytes@.len() as int,
            ) && !checksum_ok(h, bytes@)) ==> (r matches Err(e) && e is ChecksumMismatch),
            (read_header_of(bytes@) matches Some((h, hc)) && header_valid(h) && range_ok(
                h,
                bytes@.len() as int,
            ) && checksum_ok(h, bytes@) && h.encrypted && self.spec_key() is None) ==> (r matches
                Err(e) && e is Decryption),
            r matches Ok(out) ==> (read_header_of(bytes@) matches Some((h, hc)) && header_valid(h)
                && range_ok(h, bytes@.len() as int) && checksum_ok(h, bytes@)),
            forall|s: SnapshotV, c: CompressionCodec, wk: Option<Seq<u8>>, p: Seq<u8>|
                #[trigger] is_written_container(bytes@, s, c, wk, p) && header_valid(s.header)
                    && s.header.format != PackFormat::Custom && <PackedSnapshot as Wire>::vok(
                    s,
                    s.header.format,
                ) && body_bytes(s).len() <= MAX_DECOMPRESSED_SIZE && (wk matches Some(k)
                    ==> self.spec_key() == Some(k)) ==> (r matches Ok(out) && out@ == s),
            r matches Err(e) ==> (e is Deserialization || e is InvalidFormat
                || e is VersionMismatch || e is ChecksumMismatch || e is Decryption
                || e is Decompression),
    {
        let blen = bytes.len();
        let hdr_read = <SnapshotHeader as Wire>::wire_read(bytes, 0, PackFormat::Bincode);
        proof {
            assert(bytes@.skip(0) =~= bytes@);
        }
        let (header, _hlen) = match hdr_read {
            None => {
                proof {
                    assert forall|s: SnapshotV, c: CompressionCodec, wk: Option<Seq<u8>>, p: Seq<
                        u8,
                    >|
                        #[trigger] is_written_container(bytes@, s, c, wk, p) && header_valid(
                            s.header,
                        ) && s.header.format != PackFormat::Custom && <PackedSnapshot as Wire>::vok(
                            s,
                            s.header.format,
                        ) implies false by {
                        lemma_container_roundtrip(bytes@, s, c, wk, p);
                    }
                }
                return Err(PackError::Deserialization("container header".to_owned()));
            },
            Some(x) => x,
        };
        let ghost h = header@;
        proof {
            assert(read_header_of(bytes@) matches Some((hh, hc)) && hh == h);
        }
        match header.validate() {
            Err(e) => {
                proof {
                    assert forall|s: SnapshotV, c: CompressionCodec, wk: Option<Seq<u8>>, p: Seq<
                        u8,
                    >|
                        #[trigger] is_written_container(bytes@, s, c, wk, p) && header_valid(
                            s.header,
                        ) && s.header.format != PackFormat::Custom && <PackedSnapshot as Wire>::vok(
                            s,
                            s.header.format,
                        ) implies false by {
                        lemma_container_roundtrip(bytes@, s, c, wk, p);
                    }
                }
                return Err(e);
            },
            Ok(()) => {},
        }
        let off64 = header.data_offset;
        let sz64 = header.data_size;
        if !(off64 <= blen as u64 && sz64 <= blen as u64 - off64) {
            proof {
                assert(!range_ok(h, bytes@.len() as int));
                assert forall|s: SnapshotV, c: CompressionCodec, wk: Option<Seq<u8>>, p: Seq<u8>|
                    #[trigger] is_written_container(bytes@, s, c, wk, p) && header_valid(s.header)
                        && s.header.format != PackFormat::Custom && <PackedSnapshot as Wire>::vok(
                        s,
                        s.header.format,
                    ) implies false by {
                    lemma_container_roundtrip(bytes@, s, c, wk, p);
                }
            }
            return Err(PackError::InvalidFormat("data range exceeds buffer".to_owned()));
        }
        let off = off64 as usize;
        let sz = sz64 as usize;
        let payload = &bytes[off..off + sz];
        proof {
            assert(payload@ =~= payload_of(h, bytes@));
        }
        let digest = sha256_digest(payload);
        if !bytes_eq(digest.as_slice(), header.checksum.as_slice()) {
            proof {
                broadcast use vstd::array::group_array_axioms;

                assert(!checksum_ok(h, bytes@));
                assert forall|s: SnapshotV, c: CompressionCodec, wk: Option<Seq<u8>>, p: Seq<u8>|
                    #[trigger] is_written_container(bytes@, s, c, wk, p) && header_valid(s.header)
                        && s.header.format != PackFormat::Custom && <PackedSnapshot as Wire>::vok(
                        s,
                        s.header.format,
                    ) implies false by {
                    lemma_container_roundtrip(bytes@, s, c, wk, p);
                }
            }
            return Err(PackError::ChecksumMismatch);
        }
        proof {
            broadcast use vstd::array::group_array_axioms;

            assert(checksum_ok(h, bytes@));
        }
        let plain: Vec<u8>;
        if header.encrypted {
            let key = match &self.encryption_key {
                Some(k) => k,
                None => {
                    proof {
                        assert forall|
                            s: SnapshotV,
                            c: CompressionCodec,
                            wk: Option<Seq<u8>>,
                            p: Seq<u8>,
                        |
                            #[trigger] is_written_container(bytes@, s, c, wk, p) && header_valid(
                                s.header,
                            ) && s.header.format != PackFormat::Custom && (wk matches Some(k2)
                                ==> self.spec_key() == Some(k2)) && <PackedSnapshot as Wire>::vok(
                                s,
                                s.header.format,
                            ) implies false by {
                            lemma_container_roundtrip(bytes@, s, c, wk, p);
                        }
                    }
                    return Err(PackError::Decryption("no encryption key provided".to_owned()));
                },
            };
            let decrypted = match decrypt_snapshot(payload, key) {
                Ok(v) => v,
                Err(e) => {
                    proof {
                        assert forall|
                            s: SnapshotV,
                            c: CompressionCodec,
                            wk: Option<Seq<u8>>,
                            p: Seq<u8>,
                        |
                            #[trigger] is_written_container(bytes@, s, c, wk, p) && header_valid(
                                s.header,
                            ) && s.header.format != PackFormat::Custom && (wk matches Some(k2)
                                ==> self.spec_key() == Some(k2)) && <PackedSnapshot as Wire>::vok(
                                s,
                                s.header.format,
                            ) implies false by {
                            lemma_container_roundtrip(bytes@, s, c, wk, p);
                        }
                    }
                    return Err(e);
                },
            };
            plain = match decompress(decrypted.as_slice(), header.compression) {
                Ok(v) => v,
                Err(e) => {
                    proof {
                        assert forall|
                            s: SnapshotV,
                            c: CompressionCodec,
                            wk: Option<Seq<u8>>,
                            p: Seq<u8>,
                        |
                            #[trigger] is_written_container(bytes@, s, c, wk, p) && header_valid(
                                s.header,
                            ) && s.header.format != PackFormat::Custom && (wk matches Some(k2)
                                ==> self.spec_key() == Some(k2)) && <PackedSnapshot as Wire>::vok(
                                s,
                                s.header.format,
                            ) && body_bytes(s).len() <= MAX_DECOMPRESSED_SIZE implies false by {
                            lemma_container_roundtrip(bytes@, s, c, wk, p);
                        }
                    }
                    return Err(e);
                },
            };
        } else {
            plain = match decompress(payload, header.compression) {
                Ok(v) => v,
                Err(e) => {
                    proof {
                        assert forall|
                            s: SnapshotV,
                            c: CompressionCodec,
                            wk: Option<Seq<u8>>,
                            p: Seq<u8>,
                        |
                            #[trigger] is_written_container(bytes@, s, c, wk, p) && header_valid(
                                s.header,
                            ) && s.header.format != PackFormat::Custom && (wk matches Some(k2)
                                ==> self.spec_key() == Some(k2)) && <PackedSnapshot as Wire>::vok(
                                s,
                                s.header.format,
                            ) && body_bytes(s).len() <= MAX_DECOMPRESSED_SIZE implies false by {
                            lemma_container_roundtrip(bytes@, s, c, wk, p);
                        }
                    }
                    return Err(e);
                },
            };
        }
        if header.format == PackFormat::Custom {
            proof {
                assert forall|s: SnapshotV, c: CompressionCodec, wk: Option<Seq<u8>>, p: Seq<u8>|
                    #[trigger] is_written_container(bytes@, s, c, wk, p) && header_valid(s.header)
                        && s.header.format != PackFormat::Custom && <PackedSnapshot as Wire>::vok(
                        s,
                        s.header.format,
                    ) implies false by {
                    lemma_container_roundtrip(bytes@, s, c, wk, p);
                }
            }
            return Err(PackError::Deserialization("custom format not implemented".to_owned()));
        }
        let body_read = <PackedSnapshot as Wire>::wire_read(plain.as_slice(), 0, header.format);
        proof {
            assert(plain@.skip(0) =~= plain@);
        }
        match body_read {
            None => {
                proof {
                    assert forall|
                        s: SnapshotV,
                        c: CompressionCodec,
                        wk: Option<Seq<u8>>,
                        p: Seq<u8>,
                    |
                        #[trigger] is_written_container(bytes@, s, c, wk, p) && header_valid(
                            s.header,
                        ) && s.header.format != PackFormat::Custom && (wk matches Some(k2)
                            ==> self.spec_key() == Some(k2)) && <PackedSnapshot as Wire>::vok(
                            s,
                            s.header.format,
                        ) && body_bytes(s).len() <= MAX_DECOMPRESSED_SIZE implies false by {
                        lemma_container_roundtrip(bytes@, s, c, wk, p);
                    }
                }
                return Err(PackError::Deserialization("snapshot body".to_owned()));
            },
            Some((out, _consumed)) => {
                proof {
                    assert forall|
                        s: SnapshotV,
                        c: CompressionCodec,
                        wk: Option<Seq<u8>>,
                        p: Seq<u8>,
                    |
                        #[trigger] is_written_container(bytes@, s, c, wk, p) && header_valid(
                            s.header,
                        ) && s.header.format != PackFormat::Custom && (wk matches Some(k2)
                            ==> self.spec_key() == Some(k2)) && <PackedSnapshot as Wire>::vok(
                            s,
                            s.header.format,
                        ) && body_bytes(s).len() <= MAX_DECOMPRESSED_SIZE implies out@ == s by {
                        lemma_container_roundtrip(bytes@, s, c, wk, p);
                    }
                }
                Ok(out)
            },
        }
    }
}

} // verus!
