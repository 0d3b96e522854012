//! Wire implementations for the container header and for whole snapshots.
//!
//! The header's fourteen fields are codec-ed in four short runs so that
//! each proof stays small; the run codecs are opaque outside their own
//! lemmas.

use vstd::prelude::*;

use crate::format::{
    CompressionType, HeaderV, PackFormat, PackedSnapshot, SnapshotHeader, SnapshotV,
};
use crate::format::{ComponentArchetype, EntityMetadataEntry};
use crate::wire::{
    dec_bin, dec_struct_hdr, enc_bin, enc_struct_hdr, lemma_bin_complete, lemma_concat_split,
    lemma_skip_skip, lemma_struct_hdr_complete, read_bin32, read_bin8, read_struct_hdr, write_bin,
    write_struct_hdr, Wire,
};

verus! {

// ------------------------------------------------------------------
// Run 1: magic, version, format, compression
// ------------------------------------------------------------------
/// The first run of header fields on the wire.
#[verifier::opaque]
pub open spec fn enc_hdr_run1(v: HeaderV, f: PackFormat) -> Seq<u8> {
    enc_bin(v.magic, f) + (<u32 as Wire>::venc(v.version, f) + (<PackFormat as Wire>::venc(
        v.format,
        f,
    ) + <CompressionType as Wire>::venc(v.compression, f)))
}

/// Decodes the first run of header fields.
#[verifier::opaque]
pub open spec fn dec_hdr_run1(b: Seq<u8>, f: PackFormat) -> Option<
    ((Seq<u8>, u32, PackFormat, CompressionType), int),
> {
    match dec_bin(b, 8, f) {
        None => None,
        Some((magic, d1)) => match <u32 as Wire>::vdec(b.skip(d1), f) {
            None => None,
            Some((version, d2)) => match <PackFormat as Wire>::vdec(b.skip(d1 + d2), f) {
                None => None,
                Some((format, d3)) => match <CompressionType as Wire>::vdec(
                    b.skip(d1 + d2 + d3),
                    f,
                ) {
                    None => None,
                    Some((compression, d4)) => Some(
                        ((magic, version, format, compression), d1 + d2 + d3 + d4),
                    ),
                },
            },
        },
    }
}

/// A successful run-1 decode consumes between zero and all of `b`.
pub proof fn lemma_hdr_run1_bounds(b: Seq<u8>, f: PackFormat)
    ensures
        dec_hdr_run1(b, f) matches Some(p) ==> 0 <= p.1 <= b.len(),
{
    reveal(dec_hdr_run1);
}

/// Decoding inverts encoding for the first run.
#[verifier::rlimit(100)]
#[verifier::spinoff_prover]
pub proof fn lemma_hdr_run1_complete(v: HeaderV, rest: Seq<u8>, f: PackFormat)
    requires
        v.magic.len() == 8,
    ensures
        dec_hdr_run1(enc_hdr_run1(v, f) + rest, f) == Some(
            ((v.magic, v.version, v.format, v.compression), enc_hdr_run1(v, f).len() as int),
        ),
{
    reveal(enc_hdr_run1);
    reveal(dec_hdr_run1);
    let e1 = enc_bin(v.magic, f);
    let e2 = <u32 as Wire>::venc(v.version, f);
    let e3 = <PackFormat as Wire>::venc(v.format, f);
    let e4 = <CompressionType as Wire>::venc(v.compression, f);
    let t4 = e4;
    let t3 = e3 + t4;
    let t2 = e2 + t3;
    let whole = enc_hdr_run1(v, f) + rest;
    assert(whole =~= e1 + (t2 + rest));
    lemma_bin_complete(v.magic, t2 + rest, f);
    lemma_concat_split(e1, t2 + rest);
    let c1 = e1.len() as int;
    assert(whole.skip(c1) =~= t2 + rest);
    assert(t2 + rest =~= e2 + (t3 + rest));
    <u32 as Wire>::lemma_complete(v.version, t3 + rest, f);
    lemma_skip_skip(whole, c1, e2.len() as int);
    lemma_concat_split(e2, t3 + rest);
    let c2 = c1 + e2.len() as int;
    assert(whole.skip(c2) =~= t3 + rest);
    assert(t3 + rest =~= e3 + (t4 + rest));
    <PackFormat as Wire>::lemma_complete(v.format, t4 + rest, f);
    lemma_skip_skip(whole, c2, e3.len() as int);
    lemma_concat_split(e3, t4 + rest);
    let c3 = c2 + e3.len() as int;
    assert(whole.skip(c3) =~= t4 + rest);
    <CompressionType as Wire>::lemma_complete(v.compression, rest, f);
    assert(enc_hdr_run1(v, f).len() == c3 + e4.len());
}

/// Appends the first run of header fields.
pub fn write_hdr_run1(h: &SnapshotHeader, f: PackFormat, out: &mut Vec<u8>)
    ensures
        final(out)@ == old(out)@ + enc_hdr_run1(h@, f),
{
    proof {
        broadcast use vstd::array::group_array_axioms;

    }
    write_bin(h.magic.as_slice(), f, out);
    h.version.wire_write(f, out);
    h.format.wire_write(f, out);
    h.compression.wire_write(f, out);
    proof {
        reveal(enc_hdr_run1);
        assert(out@ =~= old(out)@ + enc_hdr_run1(h@, f));
    }
}

/// Reads the first run of header fields at `pos`.
#[verifier::rlimit(100)]
#[verifier::spinoff_prover]
pub fn read_hdr_run1(b: &[u8], pos: usize, f: PackFormat) -> (r: Option<
    (([u8; 8], u32, PackFormat, CompressionType), usize),
>)
    requires
        pos <= b@.len(),
    ensures
        r matches Some(p) ==> pos <= p.1 <= b@.len() && dec_hdr_run1(b@.skip(pos as int), f)
            == Some(((p.0.0@, p.0.1, p.0.2, p.0.3), p.1 - pos as int)),
        r is None ==> dec_hdr_run1(b@.skip(pos as int), f) is None,
{
    proof {
        reveal(dec_hdr_run1);
    }
    let (magic, p1) = match read_bin8(b, pos, f) {
        None => {
            return None;
        },
        Some(x) => x,
    };
    proof {
        lemma_skip_skip(b@, pos as int, p1 - pos as int);
    }
    let (version, p2) = match <u32 as Wire>::wire_read(b, p1, f) {
        None => {
            return None;
        },
        Some(x) => x,
    };
    proof {
        lemma_skip_skip(b@, pos as int, p2 - pos as int);
    }
    let (format, p3) = match <PackFormat as Wire>::wire_read(b, p2, f) {
        None => {
            return None;
        },
        Some(x) => x,
    };
    proof {
        lemma_skip_skip(b@, pos as int, p3 - pos as int);
    }
    let (compression, p4) = match <CompressionType as Wire>::wire_read(b, p3, f) {
        None => {
            return None;
        },
        Some(x) => x,
    };
    Some(((magic, version, format, compression), p4))
}

// ------------------------------------------------------------------
// Run 2: encrypted, checksum, timestamp
// ------------------------------------------------------------------
/// The second run of header fields on the wire.
#[verifier::opaque]
pub open spec fn enc_hdr_run2(v: HeaderV, f: PackFormat) -> Seq<u8> {
    <bool as Wire>::venc(v.encrypted, f) + (enc_bin(v.checksum, f) + <i64 as Wire>::venc(
        v.timestamp,
        f,
    ))
}

/// Decodes the second run of header fields.
#[verifier::opaque]
pub open spec fn dec_hdr_run2(b: Seq<u8>, f: PackFormat) -> Option<((bool, Seq<u8>, i64), int)> {
    match <bool as Wire>::vdec(b, f) {
        None => None,
        Some((encrypted, d1)) => match dec_bin(b.skip(d1), 32, f) {
            None => None,
            Some((checksum, d2)) => match <i64 as Wire>::vdec(b.skip(d1 + d2), f) {
                None => None,
                Some((timestamp, d3)) => Some(((encrypted, checksum, timestamp), d1 + d2 + d3)),
            },
        },
    }
}

/// A successful run-2 decode consumes between zero and all of `b`.
pub proof fn lemma_hdr_run2_bounds(b: Seq<u8>, f: PackFormat)
    ensures
        dec_hdr_run2(b, f) matches Some(p) ==> 0 <= p.1 <= b.len(),
{
    reveal(dec_hdr_run2);
}

/// Decoding inverts encoding for the second run.
#[verifier::rlimit(100)]
#[verifier::spinoff_prover]
pub proof fn lemma_hdr_run2_complete(v: HeaderV, rest: Seq<u8>, f: PackFormat)
    requires
        v.checksum.len() == 32,
    ensures
        dec_hdr_run2(enc_hdr_run2(v, f) + rest, f) == Some(
            ((v.encrypted, v.checksum, v.timestamp), enc_hdr_run2(v, f).len() as int),
        ),
{
    reveal(enc_hdr_run2);
    reveal(dec_hdr_run2);
    let e1 = <bool as Wire>::venc(v.encrypted, f);
    let e2 = enc_bin(v.checksum, f);
    let e3 = <i64 as Wire>::venc(v.timestamp, f);
    let t3 = e3;
    let t2 = e2 + t3;
    let whole = enc_hdr_run2(v, f) + rest;
    assert(whole =~= e1 + (t2 + rest));
    <bool as Wire>::lemma_complete(v.encrypted, t2 + rest, f);
    lemma_concat_split(e1, t2 + rest);
    let c1 = e1.len() as int;
    assert(whole.skip(c1) =~= t2 + rest);
    assert(t2 + rest =~= e2 + (t3 + rest));
    lemma_bin_complete(v.checksum, t3 + rest, f);
    lemma_skip_skip(whole, c1, e2.len() as int);
    lemma_concat_split(e2, t3 + rest);
    let c2 = c1 + e2.len() as int;
    assert(whole.skip(c2) =~= t3 + rest);
    <i64 as Wire>::lemma_complete(v.timestamp, rest, f);
    assert(enc_hdr_run2(v, f).len() == c2 + e3.len());
}

/// Appends the second run of header fields.
pub fn write_hdr_run2(h: &SnapshotHeader, f: PackFormat, out: &mut Vec<u8>)
    ensures
        final(out)@ == old(out)@ + enc_hdr_run2(h@, f),
{
    proof {
        broadcast use vstd::array::group_array_axioms;

    }
    h.encrypted.wire_write(f, out);
    write_bin(h.checksum.as_slice(), f, out);
    h.timestamp.wire_write(f, out);
    proof {
        reveal(enc_hdr_run2);
        assert(out@ =~= old(out)@ + enc_hdr_run2(h@, f));
    }
}

/// Reads the second run of header fields at `pos`.
#[verifier::rlimit(100)]
#[verifier::spinoff_prover]
pub fn read_hdr_run2(b: &[u8], pos: usize, f: PackFormat) -> (r: Option<
    ((bool, [u8; 32], i64), usize),
>)
    requires
        pos <= b@.len(),
    ensures
        r matches Some(p) ==> pos <= p.1 <= b@.len() && dec_hdr_run2(b@.skip(pos as int), f)
            == Some(((p.0.0, p.0.1@, p.0.2), p.1 - pos as int)),
        r is None ==> dec_hdr_run2(b@.skip(pos as int), f) is None,
{
    proof {
        reveal(dec_hdr_run2);
    }
    let (encrypted, p1) = match <bool as Wire>::wire_read(b, pos, f) {
        None => {
            return None;
        },
        Some(x) => x,
    };
    proof {
        lemma_skip_skip(b@, pos as int, p1 - pos as int);
    }
    let (checksum, p2) = match read_bin32(b, p1, f) {
        None => {
            return None;
        },
        Some(x) => x,
    };
    proof {
        lemma_skip_skip(b@, pos as int, p2 - pos as int);
    }
    let (timestamp, p3) = match <i64 as Wire>::wire_read(b, p2, f) {
        None => {
            return None;
        },
        Some(x) => x,
    };
    Some(((encrypted, checksum, timestamp), p3))
}

// ------------------------------------------------------------------
// Run 3: entity, component, archetype counts, data offset
// ------------------------------------------------------------------
/// The third run of header fields on the wire.
#[verifier::opaque]
pub open spec fn enc_hdr_run3(v: HeaderV, f: PackFormat) -> Seq<u8> {
    <u64 as Wire>::venc(v.entity_count, f) + (<u64 as Wire>::venc(v.component_count, f) + (<
    u64 as Wire>::venc(v.archetype_count, f) + <u64 as Wire>::venc(v.data_offset, f)))
}

/// Decodes the third run of header fields.
#[verifier::opaque]
pub open spec fn dec_hdr_run3(b: Seq<u8>, f: PackFormat) -> Option<((u64, u64, u64, u64), int)> {
    match <u64 as Wire>::vdec(b, f) {
        None => None,
        Some((ec, d1)) => match <u64 as Wire>::vdec(b.skip(d1), f) {
            None => None,
            Some((cc, d2)) => match <u64 as Wire>::vdec(b.skip(d1 + d2), f) {
                None => None,
                Some((ac, d3)) => match <u64 as Wire>::vdec(b.skip(d1 + d2 + d3), f) {
                    None => None,
                    Some((doff, d4)) => Some(((ec, cc, ac, doff), d1 + d2 + d3 + d4)),
                },
            },
        },
    }
}

/// A successful run-3 decode consumes between zero and all of `b`.
pub proof fn lemma_hdr_run3_bounds(b: Seq<u8>, f: PackFormat)
    ensures
        dec_hdr_run3(b, f) matches Some(p) ==> 0 <= p.1 <= b.len(),
{
    reveal(dec_hdr_run3);
}

/// Decoding inverts encoding for the third run.
#[verifier::rlimit(100)]
#[verifier::spinoff_prover]
pub proof fn lemma_hdr_run3_complete(v: HeaderV, rest: Seq<u8>, f: PackFormat)
    ensures
        dec_hdr_run3(enc_hdr_run3(v, f) + rest, f) == Some(
            (
                (v.entity_count, v.component_count, v.archetype_count, v.data_offset),
                enc_hdr_run3(v, f).len() as int,
            ),
        ),
{
    reveal(enc_hdr_run3);
    reveal(dec_hdr_run3);
    let e1 = <u64 as Wire>::venc(v.entity_count, f);
    let e2 = <u64 as Wire>::venc(v.component_count, f);
    let e3 = <u64 as Wire>::venc(v.archetype_count, f);
    let e4 = <u64 as Wire>::venc(v.data_offset, f);
    let t4 = e4;
    let t3 = e3 + t4;
    let t2 = e2 + t3;
    let whole = enc_hdr_run3(v, f) + rest;
    assert(whole =~= e1 + (t2 + rest));
    <u64 as Wire>::lemma_complete(v.entity_count, t2 + rest, f);
    lemma_concat_split(e1, t2 + rest);
    let c1 = e1.len() as int;
    assert(whole.skip(c1) =~= t2 + rest);
    assert(t2 + rest =~= e2 + (t3 + rest));
    <u64 as Wire>::lemma_complete(v.component_count, t3 + rest, f);
    lemma_skip_skip(whole, c1, e2.len() as int);
    lemma_concat_split(e2, t3 + rest);
    let c2 = c1 + e2.len() as int;
    assert(whole.skip(c2) =~= t3 + rest);
    assert(t3 + rest =~= e3 + (t4 + rest));
    <u64 as Wire>::lemma_complete(v.archetype_count, t4 + rest, f);
    lemma_skip_skip(whole, c2, e3.len() as int);
    lemma_concat_split(e3, t4 + rest);
    let c3 = c2 + e3.len() as int;
    assert(whole.skip(c3) =~= t4 + rest);
    <u64 as Wire>::lemma_complete(v.data_offset, rest, f);
    assert(enc_hdr_run3(v, f).len() == c3 + e4.len());
}

/// Appends the third run of header fields.
pub fn write_hdr_run3(h: &SnapshotHeader, f: PackFormat, out: &mut Vec<u8>)
    ensures
        final(out)@ == old(out)@ + enc_hdr_run3(h@, f),
{
    h.entity_count.wire_write(f, out);
    h.component_count.wire_write(f, out);
    h.archetype_count.wire_write(f, out);
    h.data_offset.wire_write(f, out);
    proof {
        reveal(enc_hdr_run3);
        assert(out@ =~= old(out)@ + enc_hdr_run3(h@, f));
    }
}

/// Reads the third run of header fields at `pos`.
#[verifier::rlimit(100)]
#[verifier::spinoff_prover]
pub fn read_hdr_run3(b: &[u8], pos: usize, f: PackFormat) -> (r: Option<
    ((u64, u64, u64, u64), usize),
>)
    requires
        pos <= b@.len(),
    ensures
        r matches Some(p) ==> pos <= p.1 <= b@.len() && dec_hdr_run3(b@.skip(pos as int), f)
            == Some((p.0, p.1 - pos as int)),
        r is None ==> dec_hdr_run3(b@.skip(pos as int), f) is None,
{
    proof {
        reveal(dec_hdr_run3);
    }
    let (ec, p1) = match <u64 as Wire>::wire_read(b, pos, f) {
        None => {
            return None;
        },
        Some(x) => x,
    };
    proof {
        lemma_skip_skip(b@, pos as int, p1 - pos as int);
    }
    let (cc, p2) = match <u64 as Wire>::wire_read(b, p1, f) {
        None => {
            return None;
        },
        Some(x) => x,
    };
    proof {
        lemma_skip_skip(b@, pos as int, p2 - pos as int);
    }
    let (ac, p3) = match <u64 as Wire>::wire_read(b, p2, f) {
        None => {
            return None;
        },
        Some(x) => x,
    };
    proof {
        lemma_skip_skip(b@, pos as int, p3 - pos as int);
    }
    let (doff, p4) = match <u64 as Wire>::wire_read(b, p3, f) {
        None => {
            return None;
        },
        Some(x) => x,
    };
    Some(((ec, cc, ac, doff), p4))
}

// ------------------------------------------------------------------
// Run 4: data size, metadata offset and size
// ------------------------------------------------------------------
/// The fourth run of header fields on the wire.
#[verifier::opaque]
pub open spec fn enc_hdr_run4(v: HeaderV, f: PackFormat) -> Seq<u8> {
    <u64 as Wire>::venc(v.data_size, f) + (<u64 as Wire>::venc(v.metadata_offset, f) + <
    u64 as Wire>::venc(v.metadata_size, f))
}

/// Decodes the fourth run of header fields.
#[verifier::opaque]
pub open spec fn dec_hdr_run4(b: Seq<u8>, f: PackFormat) -> Option<((u64, u64, u64), int)> {
    match <u64 as Wire>::vdec(b, f) {
        None => None,
        Some((dsz, d1)) => match <u64 as Wire>::vdec(b.skip(d1), f) {
            None => None,
            Some((moff, d2)) => match <u64 as Wire>::vdec(b.skip(d1 + d2), f) {
                None => None,
                Some((msz, d3)) => Some(((dsz, moff, msz), d1 + d2 + d3)),
            },
        },
    }
}

/// A successful run-4 decode consumes between zero and all of `b`.
pub proof fn lemma_hdr_run4_bounds(b: Seq<u8>, f: PackFormat)
    ensures
        dec_hdr_run4(b, f) matches Some(p) ==> 0 <= p.1 <= b.len(),
{
    reveal(dec_hdr_run4);
}

/// Decoding inverts encoding for the fourth run.
#[verifier::rlimit(100)]
#[verifier::spinoff_prover]
pub proof fn lemma_hdr_run4_complete(v: HeaderV, rest: Seq<u8>, f: PackFormat)
    ensures
        dec_hdr_run4(enc_hdr_run4(v, f) + rest, f) == Some(
            ((v.data_size, v.metadata_offset, v.metadata_size), enc_hdr_run4(v, f).len() as int),
        ),
{
    reveal(enc_hdr_run4);
    reveal(dec_hdr_run4);
    let e1 = <u64 as Wire>::venc(v.data_size, f);
    let e2 = <u64 as Wire>::venc(v.metadata_offset, f);
    let e3 = <u64 as Wire>::venc(v.metadata_size, f);
    let t3 = e3;
    let t2 = e2 + t3;
    let whole = enc_hdr_run4(v, f) + rest;
    assert(whole =~= e1 + (t2 + rest));
    <u64 as Wire>::lemma_complete(v.data_size, t2 + rest, f);
    lemma_concat_split(e1, t2 + rest);
    let c1 = e1.len() as int;
    assert(whole.skip(c1) =~= t2 + rest);
    assert(t2 + rest =~= e2 + (t3 + rest));
    <u64 as Wire>::lemma_complete(v.metadata_offset, t3 + rest, f);
    lemma_skip_skip(whole, c1, e2.len() as int);
    lemma_concat_split(e2, t3 + rest);
    let c2 = c1 + e2.len() as int;
    assert(whole.skip(c2) =~= t3 + rest);
    <u64 as Wire>::lemma_complete(v.metadata_size, rest, f);
    assert(enc_hdr_run4(v, f).len() == c2 + e3.len());
}

/// Appends the fourth run of header fields.
pub fn write_hdr_run4(h: &SnapshotHeader, f: PackFormat, out: &mut Vec<u8>)
    ensures
        final(out)@ == old(out)@ + enc_hdr_run4(h@, f),
{
    h.data_size.wire_write(f, out);
    h.metadata_offset.wire_write(f, out);
    h.metadata_size.wire_write(f, out);
    proof {
        reveal(enc_hdr_run4);
        assert(out@ =~= old(out)@ + enc_hdr_run4(h@, f));
    }
}

/// Reads the fourth run of header fields at `pos`.
#[verifier::rlimit(100)]
#[verifier::spinoff_prover]
pub fn read_hdr_run4(b: &[u8], pos: usize, f: PackFormat) -> (r: Option<((u64, u64, u64), usize)>)
    requires
        pos <= b@.len(),
    ensures
        r matches Some(p) ==> pos <= p.1 <= b@.len() && dec_hdr_run4(b@.skip(pos as int), f)
            == Some((p.0, p.1 - pos as int)),
        r is None ==> dec_hdr_run4(b@.skip(pos as int), f) is None,
{
    proof {
        reveal(dec_hdr_run4);
    }
    let (dsz, p1) = match <u64 as Wire>::wire_read(b, pos, f) {
        None => {
            return None;
        },
        Some(x) => x,
    };
    proof {
        lemma_skip_skip(b@, pos as int, p1 - pos as int);
    }
    let (moff, p2) = match <u64 as Wire>::wire_read(b, p1, f) {
        None => {
            return None;
        },
        Some(x) => x,
    };
    proof {
        lemma_skip_skip(b@, pos as int, p2 - pos as int);
    }
    let (msz, p3) = match <u64 as Wire>::wire_read(b, p2, f) {
        None => {
            return None;
        },
        Some(x) => x,
    };
    Some(((dsz, moff, msz), p3))
}

// ------------------------------------------------------------------
// The header itself
// ------------------------------------------------------------------
impl Wire for SnapshotHeader {
    open spec fn venc(v: HeaderV, f: PackFormat) -> Seq<u8> {
        enc_struct_hdr(14, f) + (enc_hdr_run1(v, f) + (enc_hdr_run2(v, f) + (enc_hdr_run3(v, f)
            + enc_hdr_run4(v, f))))
    }

    open spec fn vok(v: HeaderV, f: PackFormat) -> bool {
        v.magic.len() == 8 && v.checksum.len() == 32
    }

    open spec fn vdec(b: Seq<u8>, f: PackFormat) -> Option<(HeaderV, int)> {
        match dec_struct_hdr(b, 14, f) {
            None => None,
            Some(c0) => match dec_hdr_run1(b.skip(c0), f) {
                None => None,
                Some((r1, d1)) => match dec_hdr_run2(b.skip(c0 + d1), f) {
                    None => None,
                    Some((r2, d2)) => match dec_hdr_run3(b.skip(c0 + d1 + d2), f) {
                        None => None,
                        Some((r3, d3)) => match dec_hdr_run4(b.skip(c0 + d1 + d2 + d3), f) {
                            None => None,
                            Some((r4, d4)) => Some(
                                (
                                    HeaderV {
                                        magic: r1.0,
                                        version: r1.1,
                                        format: r1.2,
                                        compression: r1.3,
                                        encrypted: r2.0,
                                        checksum: r2.1,
                                        timestamp: r2.2,
                                        entity_count: r3.0,
                                        component_count: r3.1,
                                        archetype_count: r3.2,
                                        data_offset: r3.3,
                                        data_size: r4.0,
                                        metadata_offset: r4.1,
                                        metadata_size: r4.2,
                                    },
                                    c0 + d1 + d2 + d3 + d4,
                                ),
                            ),
                        },
                    },
                },
            },
        }
    }

    proof fn lemma_vdec_bounds(b: Seq<u8>, f: PackFormat) {
        match dec_struct_hdr(b, 14, f) {
            None => {},
            Some(c0) => {
                lemma_hdr_run1_bounds(b.skip(c0), f);
                match dec_hdr_run1(b.skip(c0), f) {
                    None => {},
                    Some((r1, d1)) => {
                        lemma_hdr_run2_bounds(b.skip(c0 + d1), f);
                        match dec_hdr_run2(b.skip(c0 + d1), f) {
                            None => {},
                            Some((r2, d2)) => {
                                lemma_hdr_run3_bounds(b.skip(c0 + d1 + d2), f);
                                match dec_hdr_run3(b.skip(c0 + d1 + d2), f) {
                                    None => {},
                                    Some((r3, d3)) => {
                                        lemma_hdr_run4_bounds(b.skip(c0 + d1 + d2 + d3), f);
                                    },
                                }
                            },
                        }
                    },
                }
            },
        }
    }

    #[verifier::rlimit(100)]
    #[verifier::spinoff_prover]
    proof fn lemma_complete(v: HeaderV, rest: Seq<u8>, f: PackFormat) {
        let hdr = enc_struct_hdr(14, f);
        let e1 = enc_hdr_run1(v, f);
        let e2 = enc_hdr_run2(v, f);
        let e3 = enc_hdr_run3(v, f);
        let e4 = enc_hdr_run4(v, f);
        let t4 = e4;
        let t3 = e3 + t4;
        let t2 = e2 + t3;
        let t1 = e1 + t2;
        let whole = Self::venc(v, f) + rest;
        assert(whole =~= hdr + (t1 + rest));
        lemma_struct_hdr_complete(14, t1 + rest, f);
        lemma_concat_split(hdr, t1 + rest);
        let c0 = hdr.len() as int;
        assert(whole.skip(c0) =~= t1 + rest);
        assert(t1 + rest =~= e1 + (t2 + rest));
        lemma_hdr_run1_complete(v, t2 + rest, f);
        lemma_skip_skip(whole, c0, e1.len() as int);
        lemma_concat_split(e1, t2 + rest);
        let c1 = c0 + e1.len() as int;
        assert(whole.skip(c1) =~= t2 + rest);
        assert(t2 + rest =~= e2 + (t3 + rest));
        lemma_hdr_run2_complete(v, t3 + rest, f);
        lemma_skip_skip(whole, c1, e2.len() as int);
        lemma_concat_split(e2, t3 + rest);
        let c2 = c1 + e2.len() as int;
        assert(whole.skip(c2) =~= t3 + rest);
        assert(t3 + rest =~= e3 + (t4 + rest));
        lemma_hdr_run3_complete(v, t4 + rest, f);
        lemma_skip_skip(whole, c2, e3.len() as int);
        lemma_concat_split(e3, t4 + rest);
        let c3 = c2 + e3.len() as int;
        assert(whole.skip(c3) =~= t4 + rest);
        lemma_hdr_run4_complete(v, rest, f);
        let c4 = c3 + e4.len() as int;
        assert(Self::venc(v, f).len() == c4);
        assert(HeaderV {
            magic: v.magic,
            version: v.version,
            format: v.format,
            compression: v.compression,
            encrypted: v.encrypted,
            checksum: v.checksum,
            timestamp: v.timestamp,
            entity_count: v.entity_count,
            component_count: v.component_count,
            archetype_count: v.archetype_count,
            data_offset: v.data_offset,
            data_size: v.data_size,
            metadata_offset: v.metadata_offset,
            metadata_size: v.metadata_size,
        } =~= v);
    }

    fn wire_ok(&self, f: PackFormat) -> (r: bool) {
        proof {
            broadcast use vstd::array::group_array_axioms;

        }
        true
    }

    fn wire_write(&self, f: PackFormat, out: &mut Vec<u8>) {
        write_struct_hdr(14, f, out);
        write_hdr_run1(self, f, out);
        write_hdr_run2(self, f, out);
        write_hdr_run3(self, f, out);
        write_hdr_run4(self, f, out);
        proof {
            assert(out@ =~= old(out)@ + Self::venc(self.deep_view(), f));
        }
    }

    #[verifier::rlimit(100)]
    #[verifier::spinoff_prover]
    fn wire_read(b: &[u8], pos: usize, f: PackFormat) -> (r: Option<(SnapshotHeader, usize)>) {
        let p0 = match read_struct_hdr(b, pos, 14, f) {
            None => {
                return None;
            },
            Some(p) => p,
        };
        proof {
            lemma_skip_skip(b@, pos as int, p0 - pos as int);
        }
        let (r1, p1) = match read_hdr_run1(b, p0, f) {
            None => {
                return None;
            },
            Some(x) => x,
        };
        proof {
            lemma_skip_skip(b@, pos as int, p1 - pos as int);
        }
        let (r2, p2) = match read_hdr_run2(b, p1, f) {
            None => {
                return None;
            },
            Some(x) => x,
        };
        proof {
            lemma_skip_skip(b@, pos as int, p2 - pos as int);
        }
        let (r3, p3) = match read_hdr_run3(b, p2, f) {
            None => {
                return None;
            },
            Some(x) => x,
        };
        proof {
            lemma_skip_skip(b@, pos as int, p3 - pos as int);
        }
        let (r4, p4) = match read_hdr_run4(b, p3, f) {
            None => {
                return None;
            },
            Some(x) => x,
        };
        let h = SnapshotHeader {
            magic: r1.0,
            version: r1.1,
            format: r1.2,
            compression: r1.3,
            encrypted: r2.0,
            checksum: r2.1,
            timestamp: r2.2,
            entity_count: r3.0,
            component_count: r3.1,
            archetype_count: r3.2,
            data_offset: r3.3,
            data_size: r4.0,
            metadata_offset: r4.1,
            metadata_size: r4.2,
        };
        Some((h, p4))
    }
}

impl Wire for PackedSnapshot {
    open spec fn venc(v: SnapshotV, f: PackFormat) -> Seq<u8> {
        enc_struct_hdr(3, f) + <SnapshotHeader as Wire>::venc(v.header, f) + <Vec<
            ComponentArchetype,
        > as Wire>::venc(v.archetypes, f) + <Vec<EntityMetadataEntry> as Wire>::venc(
            v.entity_metadata,
            f,
        )
    }

    open spec fn vok(v: SnapshotV, f: PackFormat) -> bool {
        &&& <SnapshotHeader as Wire>::vok(v.header, f)
        &&& <Vec<ComponentArchetype> as Wire>::vok(v.archetypes, f)
        &&& <Vec<EntityMetadataEntry> as Wire>::vok(v.entity_metadata, f)
    }

    open spec fn vdec(b: Seq<u8>, f: PackFormat) -> Option<(SnapshotV, int)> {
        match dec_struct_hdr(b, 3, f) {
            None => None,
            Some(c0) => match <SnapshotHeader as Wire>::vdec(b.skip(c0), f) {
                None => None,
                Some((h, d1)) => match <Vec<ComponentArchetype> as Wire>::vdec(b.skip(c0 + d1), f) {
                    None => None,
                    Some((archetypes, d2)) => match <Vec<EntityMetadataEntry> as Wire>::vdec(
                        b.skip(c0 + d1 + d2),
                        f,
                    ) {
                        None => None,
                        Some((em, d3)) => Some(
                            (
                                SnapshotV { header: h, archetypes: archetypes, entity_metadata: em },
                                c0 + d1 + d2 + d3,
                            ),
                        ),
                    },
                },
            },
        }
    }

    proof fn lemma_vdec_bounds(b: Seq<u8>, f: PackFormat) {
        match dec_struct_hdr(b, 3, f) {
            None => {},
            Some(c0) => {
                <SnapshotHeader as Wire>::lemma_vdec_bounds(b.skip(c0), f);
                match <SnapshotHeader as Wire>::vdec(b.skip(c0), f) {
                    None => {},
                    Some((h, d1)) => {
                        <Vec<ComponentArchetype> as Wire>::lemma_vdec_bounds(b.skip(c0 + d1), f);
                        match <Vec<ComponentArchetype> as Wire>::vdec(b.skip(c0 + d1), f) {
                            None => {},
                            Some((archetypes, d2)) => {
                                <Vec<EntityMetadataEntry> as Wire>::lemma_vdec_bounds(
                                    b.skip(c0 + d1 + d2),
                                    f,
                                );
                            },
                        }
                    },
                }
            },
        }
    }

    #[verifier::rlimit(100)]
    #[verifier::spinoff_prover]
    proof fn lemma_complete(v: SnapshotV, rest: Seq<u8>, f: PackFormat) {
        let hdr = enc_struct_hdr(3, f);
        let e1 = <SnapshotHeader as Wire>::venc(v.header, f);
        let e2 = <Vec<ComponentArchetype> as Wire>::venc(v.archetypes, f);
        let e3 = <Vec<EntityMetadataEntry> as Wire>::venc(v.entity_metadata, f);
        let whole = Self::venc(v, f) + rest;
        assert(whole =~= hdr + (e1 + e2 + e3 + rest));
        lemma_struct_hdr_complete(3, e1 + e2 + e3 + rest, f);
        lemma_concat_split(hdr, e1 + e2 + e3 + rest);
        assert(whole.skip(hdr.len() as int) =~= e1 + (e2 + e3 + rest));
        <SnapshotHeader as Wire>::lemma_complete(v.header, e2 + e3 + rest, f);
        lemma_skip_skip(whole, hdr.len() as int, e1.len() as int);
        lemma_concat_split(e1, e2 + e3 + rest);
        assert(whole.skip(hdr.len() + e1.len() as int) =~= e2 + (e3 + rest));
        <Vec<ComponentArchetype> as Wire>::lemma_complete(v.archetypes, e3 + rest, f);
        lemma_skip_skip(whole, hdr.len() + e1.len() as int, e2.len() as int);
        lemma_concat_split(e2, e3 + rest);
        assert(whole.skip(hdr.len() + e1.len() + e2.len() as int) =~= e3 + rest);
        <Vec<EntityMetadataEntry> as Wire>::lemma_complete(v.entity_metadata, rest, f);
        assert(SnapshotV {
            header: v.header,
            archetypes: v.archetypes,
            entity_metadata: v.entity_metadata,
        } =~= v);
        assert(Self::venc(v, f).len() == hdr.len() + e1.len() + e2.len() + e3.len());
    }

    fn wire_ok(&self, f: PackFormat) -> bool {
        self.header.wire_ok(f) && self.archetypes.wire_ok(f) && self.entity_metadata.wire_ok(f)
    }

    fn wire_write(&self, f: PackFormat, out: &mut Vec<u8>) {
        write_struct_hdr(3, f, out);
        self.header.wire_write(f, out);
        self.archetypes.wire_write(f, out);
        self.entity_metadata.wire_write(f, out);
        proof {
            assert(out@ =~= old(out)@ + Self::venc(self.deep_view(), f));
        }
    }

    #[verifier::rlimit(100)]
    #[verifier::spinoff_prover]
    fn wire_read(b: &[u8], pos: usize, f: PackFormat) -> (r: Option<(PackedSnapshot, usize)>) {
        match read_struct_hdr(b, pos, 3, f) {
            None => None,
            Some(p0) => {
                proof {
                    lemma_skip_skip(b@, pos as int, p0 - pos as int);
                }
                match <SnapshotHeader as Wire>::wire_read(b, p0, f) {
                    None => None,
                    Some((h, p1)) => {
                        proof {
                            lemma_skip_skip(b@, pos as int, p1 - pos as int);
                        }
                        match <Vec<ComponentArchetype> as Wire>::wire_read(b, p1, f) {
                            None => None,
                            Some((archetypes, p2)) => {
                                proof {
                                    lemma_skip_skip(b@, pos as int, p2 - pos as int);
                                }
                                match <Vec<EntityMetadataEntry> as Wire>::wire_read(b, p2, f) {
                                    None => None,
                                    Some((em, p3)) => {
                                        let r = PackedSnapshot {
                                            header: h,
                                            archetypes: archetypes,
                                            entity_metadata: em,
                                        };
                                        Some((r, p3))
                                    },
                                }
                            },
                        }
                    },
                }
            },
        }
    }
}


/// The Bincode encoding of a well-formed header is exactly 117 bytes:
/// 8 magic, 4 version, 4 format, 4 compression, 1 flag, 32 checksum,
/// 8 timestamp and 7 eight-byte counts, with no framing.
pub proof fn lemma_header_bincode_len(v: HeaderV)
    requires
        v.magic.len() == 8,
        v.checksum.len() == 32,
    ensures
        <SnapshotHeader as Wire>::venc(v, PackFormat::Bincode).len() == 117,
{
    reveal(enc_hdr_run1);
    reveal(enc_hdr_run2);
    reveal(enc_hdr_run3);
    reveal(enc_hdr_run4);
    vstd::bytes::lemma_auto_spec_u16_to_from_le_bytes();
    vstd::bytes::lemma_auto_spec_u32_to_from_le_bytes();
    vstd::bytes::lemma_auto_spec_u64_to_from_le_bytes();
    let f = PackFormat::Bincode;
    assert(enc_struct_hdr(14, f).len() == 0);
    assert(enc_hdr_run1(v, f).len() == 20);
    assert(enc_hdr_run2(v, f).len() == 41);
    assert(enc_hdr_run3(v, f).len() == 32);
    assert(enc_hdr_run4(v, f).len() == 24);
}

} // verus!
