//! Wire implementations for the container's model types: how a snapshot
//! body and its header travel as bytes in either format.

use vstd::prelude::*;

use crate::format::{
    ArchetypeV, ComponentArchetype, ComponentData, ComponentDataV, CompressionType,
    EntityMetadata, EntityMetadataEntry, EntityMetadataEntryV, EntityMetadataV, FieldArray,
    FieldArrayV, FieldType, HeaderV, PackFormat, SnapshotHeader, SnapshotV, PackedSnapshot, SoaV,
    StructOfArraysData,
};
use crate::wire::{
    dec_bin, dec_enum_tag, dec_struct_hdr, dec_variant_hdr, enc_bin, enc_enum_tag, enc_struct_hdr, enc_variant_hdr,
    lemma_bin_complete, lemma_concat_split, lemma_enum_tag_complete, lemma_skip_skip, lemma_struct_hdr_complete,
    lemma_variant_hdr_complete, read_bin32, read_bin8, read_enum_tag, read_struct_hdr,
    read_variant_hdr, write_bin, write_enum_tag,
    write_struct_hdr, write_variant_hdr, Wire,
};

verus! {

// ------------------------------------------------------------------
// Unit enums
// ------------------------------------------------------------------
/// The wire tag of a field kind: its declaration position.
pub open spec fn field_type_tag(v: FieldType) -> u32 {
    match v {
        FieldType::Bool => 0,
        FieldType::I8 => 1,
        FieldType::I16 => 2,
        FieldType::I32 => 3,
        FieldType::I64 => 4,
        FieldType::U8 => 5,
        FieldType::U16 => 6,
        FieldType::U32 => 7,
        FieldType::U64 => 8,
        FieldType::F32 => 9,
        FieldType::F64 => 10,
        FieldType::Str => 11,
        FieldType::Bytes => 12,
    }
}

/// The field kind of a wire tag.
pub open spec fn field_type_of_tag(t: u32) -> Option<FieldType> {
    if t == 0 {
        Some(FieldType::Bool)
    } else if t == 1 {
        Some(FieldType::I8)
    } else if t == 2 {
        Some(FieldType::I16)
    } else if t == 3 {
        Some(FieldType::I32)
    } else if t == 4 {
        Some(FieldType::I64)
    } else if t == 5 {
        Some(FieldType::U8)
    } else if t == 6 {
        Some(FieldType::U16)
    } else if t == 7 {
        Some(FieldType::U32)
    } else if t == 8 {
        Some(FieldType::U64)
    } else if t == 9 {
        Some(FieldType::F32)
    } else if t == 10 {
        Some(FieldType::F64)
    } else if t == 11 {
        Some(FieldType::Str)
    } else if t == 12 {
        Some(FieldType::Bytes)
    } else {
        None
    }
}

impl FieldType {
    /// The wire tag of this field kind.
    pub fn tag(&self) -> (t: u32)
        ensures
            t == field_type_tag(*self),
    {
        match self {
            FieldType::Bool => 0,
            FieldType::I8 => 1,
            FieldType::I16 => 2,
            FieldType::I32 => 3,
            FieldType::I64 => 4,
            FieldType::U8 => 5,
            FieldType::U16 => 6,
            FieldType::U32 => 7,
            FieldType::U64 => 8,
            FieldType::F32 => 9,
            FieldType::F64 => 10,
            FieldType::Str => 11,
            FieldType::Bytes => 12,
        }
    }

    /// The field kind of a wire tag.
    pub fn of_tag(t: u32) -> (r: Option<FieldType>)
        ensures
            r == field_type_of_tag(t),
    {
        if t == 0 {
            Some(FieldType::Bool)
        } else if t == 1 {
            Some(FieldType::I8)
        } else if t == 2 {
            Some(FieldType::I16)
        } else if t == 3 {
            Some(FieldType::I32)
        } else if t == 4 {
            Some(FieldType::I64)
        } else if t == 5 {
            Some(FieldType::U8)
        } else if t == 6 {
            Some(FieldType::U16)
        } else if t == 7 {
            Some(FieldType::U32)
        } else if t == 8 {
            Some(FieldType::U64)
        } else if t == 9 {
            Some(FieldType::F32)
        } else if t == 10 {
            Some(FieldType::F64)
        } else if t == 11 {
            Some(FieldType::Str)
        } else if t == 12 {
            Some(FieldType::Bytes)
        } else {
            None
        }
    }
}

impl Wire for FieldType {
    open spec fn venc(v: FieldType, f: PackFormat) -> Seq<u8> {
        enc_enum_tag(field_type_tag(v), f)
    }

    open spec fn vok(v: FieldType, f: PackFormat) -> bool {
        true
    }

    open spec fn vdec(b: Seq<u8>, f: PackFormat) -> Option<(FieldType, int)> {
        match dec_enum_tag(b, f) {
            Some((t, c)) => match field_type_of_tag(t) {
                Some(v) => Some((v, c)),
                None => None,
            },
            None => None,
        }
    }

    proof fn lemma_vdec_bounds(b: Seq<u8>, f: PackFormat) {
    }

    proof fn lemma_complete(v: FieldType, rest: Seq<u8>, f: PackFormat) {
        lemma_enum_tag_complete(field_type_tag(v), rest, f);
    }

    fn wire_ok(&self, f: PackFormat) -> bool {
        true
    }

    fn wire_write(&self, f: PackFormat, out: &mut Vec<u8>) {
        write_enum_tag(self.tag(), f, out);
    }

    fn wire_read(b: &[u8], pos: usize, f: PackFormat) -> Option<(FieldType, usize)> {
        match read_enum_tag(b, pos, f) {
            Some((t, p)) => match FieldType::of_tag(t) {
                Some(v) => Some((v, p)),
                None => None,
            },
            None => None,
        }
    }
}

/// The wire tag of a body format: its declaration position.
pub open spec fn pack_format_tag(v: PackFormat) -> u32 {
    match v {
        PackFormat::Bincode => 0,
        PackFormat::MessagePack => 1,
        PackFormat::Custom => 2,
    }
}

/// The body format of a wire tag.
pub open spec fn pack_format_of_tag(t: u32) -> Option<PackFormat> {
    if t == 0 {
        Some(PackFormat::Bincode)
    } else if t == 1 {
        Some(PackFormat::MessagePack)
    } else if t == 2 {
        Some(PackFormat::Custom)
    } else {
        None
    }
}

impl PackFormat {
    /// The wire tag of this body format.
    pub fn tag(&self) -> (t: u32)
        ensures
            t == pack_format_tag(*self),
    {
        match self {
            PackFormat::Bincode => 0,
            PackFormat::MessagePack => 1,
            PackFormat::Custom => 2,
        }
    }

    /// The body format of a wire tag.
    pub fn of_tag(t: u32) -> (r: Option<PackFormat>)
        ensures
            r == pack_format_of_tag(t),
    {
        if t == 0 {
            Some(PackFormat::Bincode)
        } else if t == 1 {
            Some(PackFormat::MessagePack)
        } else if t == 2 {
            Some(PackFormat::Custom)
        } else {
            None
        }
    }
}

impl Wire for PackFormat {
    open spec fn venc(v: PackFormat, f: PackFormat) -> Seq<u8> {
        enc_enum_tag(pack_format_tag(v), f)
    }

    open spec fn vok(v: PackFormat, f: PackFormat) -> bool {
        true
    }

    open spec fn vdec(b: Seq<u8>, f: PackFormat) -> Option<(PackFormat, int)> {
        match dec_enum_tag(b, f) {
            Some((t, c)) => match pack_format_of_tag(t) {
                Some(v) => Some((v, c)),
                None => None,
            },
            None => None,
        }
    }

    proof fn lemma_vdec_bounds(b: Seq<u8>, f: PackFormat) {
    }

    proof fn lemma_complete(v: PackFormat, rest: Seq<u8>, f: PackFormat) {
        lemma_enum_tag_complete(pack_format_tag(v), rest, f);
    }

    fn wire_ok(&self, f: PackFormat) -> bool {
        true
    }

    fn wire_write(&self, f: PackFormat, out: &mut Vec<u8>) {
        write_enum_tag(self.tag(), f, out);
    }

    fn wire_read(b: &[u8], pos: usize, f: PackFormat) -> Option<(PackFormat, usize)> {
        match read_enum_tag(b, pos, f) {
            Some((t, p)) => match PackFormat::of_tag(t) {
                Some(v) => Some((v, p)),
                None => None,
            },
            None => None,
        }
    }
}

/// The wire tag of a compression family: its declaration position.
pub open spec fn compression_type_tag(v: CompressionType) -> u32 {
    match v {
        CompressionType::Uncompressed => 0,
        CompressionType::Zstd => 1,
        CompressionType::Lz4 => 2,
    }
}

/// The compression family of a wire tag.
pub open spec fn compression_type_of_tag(t: u32) -> Option<CompressionType> {
    if t == 0 {
        Some(CompressionType::Uncompressed)
    } else if t == 1 {
        Some(CompressionType::Zstd)
    } else if t == 2 {
        Some(CompressionType::Lz4)
    } else {
        None
    }
}

impl CompressionType {
    /// The wire tag of this compression family.
    pub fn tag(&self) -> (t: u32)
        ensures
            t == compression_type_tag(*self),
    {
        match self {
            CompressionType::Uncompressed => 0,
            CompressionType::Zstd => 1,
            CompressionType::Lz4 => 2,
        }
    }

    /// The compression family of a wire tag.
    pub fn of_tag(t: u32) -> (r: Option<CompressionType>)
        ensures
            r == compression_type_of_tag(t),
    {
        if t == 0 {
            Some(CompressionType::Uncompressed)
        } else if t == 1 {
            Some(CompressionType::Zstd)
        } else if t == 2 {
            Some(CompressionType::Lz4)
        } else {
            None
        }
    }
}

impl Wire for CompressionType {
    open spec fn venc(v: CompressionType, f: PackFormat) -> Seq<u8> {
        enc_enum_tag(compression_type_tag(v), f)
    }

    open spec fn vok(v: CompressionType, f: PackFormat) -> bool {
        true
    }

    open spec fn vdec(b: Seq<u8>, f: PackFormat) -> Option<(CompressionType, int)> {
        match dec_enum_tag(b, f) {
            Some((t, c)) => match compression_type_of_tag(t) {
                Some(v) => Some((v, c)),
                None => None,
            },
            None => None,
        }
    }

    proof fn lemma_vdec_bounds(b: Seq<u8>, f: PackFormat) {
    }

    proof fn lemma_complete(v: CompressionType, rest: Seq<u8>, f: PackFormat) {
        lemma_enum_tag_complete(compression_type_tag(v), rest, f);
    }

    fn wire_ok(&self, f: PackFormat) -> bool {
        true
    }

    fn wire_write(&self, f: PackFormat, out: &mut Vec<u8>) {
        write_enum_tag(self.tag(), f, out);
    }

    fn wire_read(b: &[u8], pos: usize, f: PackFormat) -> Option<(CompressionType, usize)> {
        match read_enum_tag(b, pos, f) {
            Some((t, p)) => match CompressionType::of_tag(t) {
                Some(v) => Some((v, p)),
                None => None,
            },
            None => None,
        }
    }
}

// ------------------------------------------------------------------
// Field columns
// ------------------------------------------------------------------
/// The wire tag of a field column: the tag of its field kind.
pub open spec fn field_array_tag(v: FieldArrayV) -> u32 {
    field_type_tag(v.spec_kind())
}

/// The payload bytes of a field column: its element vector.
pub open spec fn field_array_payload(v: FieldArrayV, f: PackFormat) -> Seq<u8> {
    match v {
        FieldArrayV::Bool(s) => <Vec<bool> as Wire>::venc(s, f),
        FieldArrayV::I8(s) => <Vec<i8> as Wire>::venc(s, f),
        FieldArrayV::I16(s) => <Vec<i16> as Wire>::venc(s, f),
        FieldArrayV::I32(s) => <Vec<i32> as Wire>::venc(s, f),
        FieldArrayV::I64(s) => <Vec<i64> as Wire>::venc(s, f),
        FieldArrayV::U8(s) => <Vec<u8> as Wire>::venc(s, f),
        FieldArrayV::U16(s) => <Vec<u16> as Wire>::venc(s, f),
        FieldArrayV::U32(s) => <Vec<u32> as Wire>::venc(s, f),
        FieldArrayV::U64(s) => <Vec<u64> as Wire>::venc(s, f),
        FieldArrayV::F32(s) => <Vec<u32> as Wire>::venc(s, f),
        FieldArrayV::F64(s) => <Vec<u64> as Wire>::venc(s, f),
        FieldArrayV::Str(s) => <Vec<String> as Wire>::venc(s, f),
        FieldArrayV::Bytes(s) => <Vec<Vec<u8>> as Wire>::venc(s, f),
    }
}

/// Whether a field column's payload fits the format's limits.
pub open spec fn field_array_payload_ok(v: FieldArrayV, f: PackFormat) -> bool {
    match v {
        FieldArrayV::Bool(s) => <Vec<bool> as Wire>::vok(s, f),
        FieldArrayV::I8(s) => <Vec<i8> as Wire>::vok(s, f),
        FieldArrayV::I16(s) => <Vec<i16> as Wire>::vok(s, f),
        FieldArrayV::I32(s) => <Vec<i32> as Wire>::vok(s, f),
        FieldArrayV::I64(s) => <Vec<i64> as Wire>::vok(s, f),
        FieldArrayV::U8(s) => <Vec<u8> as Wire>::vok(s, f),
        FieldArrayV::U16(s) => <Vec<u16> as Wire>::vok(s, f),
        FieldArrayV::U32(s) => <Vec<u32> as Wire>::vok(s, f),
        FieldArrayV::U64(s) => <Vec<u64> as Wire>::vok(s, f),
        FieldArrayV::F32(s) => <Vec<u32> as Wire>::vok(s, f),
        FieldArrayV::F64(s) => <Vec<u64> as Wire>::vok(s, f),
        FieldArrayV::Str(s) => <Vec<String> as Wire>::vok(s, f),
        FieldArrayV::Bytes(s) => <Vec<Vec<u8>> as Wire>::vok(s, f),
    }
}

/// Decodes a field column's payload for the column kind of tag `t`.
#[verifier::opaque]
pub open spec fn field_array_dec_payload(b: Seq<u8>, t: u32, f: PackFormat) -> Option<
    (FieldArrayV, int),
> {
    if t == 0 {
        match <Vec<bool> as Wire>::vdec(b, f) {
            Some(q) => Some((FieldArrayV::Bool(q.0), q.1)),
            None => None,
        }
    } else if t == 1 {
        match <Vec<i8> as Wire>::vdec(b, f) {
            Some(q) => Some((FieldArrayV::I8(q.0), q.1)),
            None => None,
        }
    } else if t == 2 {
        match <Vec<i16> as Wire>::vdec(b, f) {
            Some(q) => Some((FieldArrayV::I16(q.0), q.1)),
            None => None,
        }
    } else if t == 3 {
        match <Vec<i32> as Wire>::vdec(b, f) {
            Some(q) => Some((FieldArrayV::I32(q.0), q.1)),
            None => None,
        }
    } else if t == 4 {
        match <Vec<i64> as Wire>::vdec(b, f) {
            Some(q) => Some((FieldArrayV::I64(q.0), q.1)),
            None => None,
        }
    } else if t == 5 {
        match <Vec<u8> as Wire>::vdec(b, f) {
            Some(q) => Some((FieldArrayV::U8(q.0), q.1)),
            None => None,
        }
    } else if t == 6 {
        match <Vec<u16> as Wire>::vdec(b, f) {
            Some(q) => Some((FieldArrayV::U16(q.0), q.1)),
            None => None,
        }
    } else if t == 7 {
        match <Vec<u32> as Wire>::vdec(b, f) {
            Some(q) => Some((FieldArrayV::U32(q.0), q.1)),
            None => None,
        }
    } else if t == 8 {
        match <Vec<u64> as Wire>::vdec(b, f) {
            Some(q) => Some((FieldArrayV::U64(q.0), q.1)),
            None => None,
        }
    } else if t == 9 {
        match <Vec<u32> as Wire>::vdec(b, f) {
            Some(q) => Some((FieldArrayV::F32(q.0), q.1)),
            None => None,
        }
    } else if t == 10 {
        match <Vec<u64> as Wire>::vdec(b, f) {
            Some(q) => Some((FieldArrayV::F64(q.0), q.1)),
            None => None,
        }
    } else if t == 11 {
        match <Vec<String> as Wire>::vdec(b, f) {
            Some(q) => Some((FieldArrayV::Str(q.0), q.1)),
            None => None,
        }
    } else if t == 12 {
        match <Vec<Vec<u8>> as Wire>::vdec(b, f) {
            Some(q) => Some((FieldArrayV::Bytes(q.0), q.1)),
            None => None,
        }
    } else {
        None
    }
}

/// Decodes one value of this type; opaque outside its own proofs.
#[verifier::opaque]
pub open spec fn dec_field_array(b: Seq<u8>, f: PackFormat) -> Option<(FieldArrayV, int)> {
        match dec_variant_hdr(b, f) {
            Some((t, c)) => match field_array_dec_payload(b.skip(c), t, f) {
                Some(q) => Some((q.0, c + q.1)),
                None => None,
            },
            None => None,
        }
    }

impl Wire for FieldArray {
    open spec fn venc(v: FieldArrayV, f: PackFormat) -> Seq<u8> {
        enc_variant_hdr(field_array_tag(v), f) + field_array_payload(v, f)
    }

    open spec fn vok(v: FieldArrayV, f: PackFormat) -> bool {
        field_array_payload_ok(v, f)
    }

    open spec fn vdec(b: Seq<u8>, f: PackFormat) -> Option<(FieldArrayV, int)> {
        dec_field_array(b, f)
    }

    proof fn lemma_vdec_bounds(b: Seq<u8>, f: PackFormat) {
        reveal(dec_field_array);
        reveal(field_array_dec_payload);
        match dec_variant_hdr(b, f) {
            Some((t, c)) => {
                let s = b.skip(c);
                if t == 0 {
                    <Vec<bool> as Wire>::lemma_vdec_bounds(s, f);
                } else if t == 1 {
                    <Vec<i8> as Wire>::lemma_vdec_bounds(s, f);
                } else if t == 2 {
                    <Vec<i16> as Wire>::lemma_vdec_bounds(s, f);
                } else if t == 3 {
                    <Vec<i32> as Wire>::lemma_vdec_bounds(s, f);
                } else if t == 4 {
                    <Vec<i64> as Wire>::lemma_vdec_bounds(s, f);
                } else if t == 5 {
                    <Vec<u8> as Wire>::lemma_vdec_bounds(s, f);
                } else if t == 6 {
                    <Vec<u16> as Wire>::lemma_vdec_bounds(s, f);
                } else if t == 7 {
                    <Vec<u32> as Wire>::lemma_vdec_bounds(s, f);
                } else if t == 8 {
                    <Vec<u64> as Wire>::lemma_vdec_bounds(s, f);
                } else if t == 9 {
                    <Vec<u32> as Wire>::lemma_vdec_bounds(s, f);
                } else if t == 10 {
                    <Vec<u64> as Wire>::lemma_vdec_bounds(s, f);
                } else if t == 11 {
                    <Vec<String> as Wire>::lemma_vdec_bounds(s, f);
                } else if t == 12 {
                    <Vec<Vec<u8>> as Wire>::lemma_vdec_bounds(s, f);
                }
            },
            None => {},
        }
    }

    proof fn lemma_complete(v: FieldArrayV, rest: Seq<u8>, f: PackFormat) {
        reveal(dec_field_array);
        reveal(field_array_dec_payload);
        let t = field_array_tag(v);
        let hdr = enc_variant_hdr(t, f);
        let pay = field_array_payload(v, f);
        let whole = Self::venc(v, f) + rest;
        assert(whole =~= hdr + (pay + rest));
        lemma_variant_hdr_complete(t, pay + rest, f);
        lemma_concat_split(hdr, pay + rest);
        assert(whole.skip(hdr.len() as int) =~= pay + rest);
        match v {
            FieldArrayV::Bool(s) => <Vec<bool> as Wire>::lemma_complete(s, rest, f),
            FieldArrayV::I8(s) => <Vec<i8> as Wire>::lemma_complete(s, rest, f),
            FieldArrayV::I16(s) => <Vec<i16> as Wire>::lemma_complete(s, rest, f),
            FieldArrayV::I32(s) => <Vec<i32> as Wire>::lemma_complete(s, rest, f),
            FieldArrayV::I64(s) => <Vec<i64> as Wire>::lemma_complete(s, rest, f),
            FieldArrayV::U8(s) => <Vec<u8> as Wire>::lemma_complete(s, rest, f),
            FieldArrayV::U16(s) => <Vec<u16> as Wire>::lemma_complete(s, rest, f),
            FieldArrayV::U32(s) => <Vec<u32> as Wire>::lemma_complete(s, rest, f),
            FieldArrayV::U64(s) => <Vec<u64> as Wire>::lemma_complete(s, rest, f),
            FieldArrayV::F32(s) => <Vec<u32> as Wire>::lemma_complete(s, rest, f),
            FieldArrayV::F64(s) => <Vec<u64> as Wire>::lemma_complete(s, rest, f),
            FieldArrayV::Str(s) => <Vec<String> as Wire>::lemma_complete(s, rest, f),
            FieldArrayV::Bytes(s) => <Vec<Vec<u8>> as Wire>::lemma_complete(s, rest, f),
        }
    }

    fn wire_ok(&self, f: PackFormat) -> bool {
        match self {
            FieldArray::Bool(s) => s.wire_ok(f),
            FieldArray::I8(s) => s.wire_ok(f),
            FieldArray::I16(s) => s.wire_ok(f),
            FieldArray::I32(s) => s.wire_ok(f),
            FieldArray::I64(s) => s.wire_ok(f),
            FieldArray::U8(s) => s.wire_ok(f),
            FieldArray::U16(s) => s.wire_ok(f),
            FieldArray::U32(s) => s.wire_ok(f),
            FieldArray::U64(s) => s.wire_ok(f),
            FieldArray::F32(s) => s.wire_ok(f),
            FieldArray::F64(s) => s.wire_ok(f),
            FieldArray::Str(s) => s.wire_ok(f),
            FieldArray::Bytes(s) => s.wire_ok(f),
        }
    }

    fn wire_write(&self, f: PackFormat, out: &mut Vec<u8>) {
        match self {
            FieldArray::Bool(s) => {
                write_variant_hdr(0, f, out);
                s.wire_write(f, out);
            },
            FieldArray::I8(s) => {
                write_variant_hdr(1, f, out);
                s.wire_write(f, out);
            },
            FieldArray::I16(s) => {
                write_variant_hdr(2, f, out);
                s.wire_write(f, out);
            },
            FieldArray::I32(s) => {
                write_variant_hdr(3, f, out);
                s.wire_write(f, out);
            },
            FieldArray::I64(s) => {
                write_variant_hdr(4, f, out);
                s.wire_write(f, out);
            },
            FieldArray::U8(s) => {
                write_variant_hdr(5, f, out);
                s.wire_write(f, out);
            },
            FieldArray::U16(s) => {
                write_variant_hdr(6, f, out);
                s.wire_write(f, out);
            },
            FieldArray::U32(s) => {
                write_variant_hdr(7, f, out);
                s.wire_write(f, out);
            },
            FieldArray::U64(s) => {
                write_variant_hdr(8, f, out);
                s.wire_write(f, out);
            },
            FieldArray::F32(s) => {
                write_variant_hdr(9, f, out);
                s.wire_write(f, out);
            },
            FieldArray::F64(s) => {
                write_variant_hdr(10, f, out);
                s.wire_write(f, out);
            },
            FieldArray::Str(s) => {
                write_variant_hdr(11, f, out);
                s.wire_write(f, out);
            },
            FieldArray::Bytes(s) => {
                write_variant_hdr(12, f, out);
                s.wire_write(f, out);
            },
        }
        proof {
            assert(out@ =~= old(out)@ + Self::venc(self.deep_view(), f));
        }
    }

    fn wire_read(b: &[u8], pos: usize, f: PackFormat) -> (r: Option<(FieldArray, usize)>) {
        proof {
            reveal(dec_field_array);
            reveal(field_array_dec_payload);
        reveal(field_array_dec_payload);
        }
        match read_variant_hdr(b, pos, f) {
            None => None,
            Some((t, p1)) => {
                proof {
                    lemma_skip_skip(b@, pos as int, p1 - pos as int);
                }
                if t == 0 {
                    match <Vec<bool> as Wire>::wire_read(b, p1, f) {
                        Some((s, p2)) => Some((FieldArray::Bool(s), p2)),
                        None => None,
                    }
                } else if t == 1 {
                    match <Vec<i8> as Wire>::wire_read(b, p1, f) {
                        Some((s, p2)) => Some((FieldArray::I8(s), p2)),
                        None => None,
                    }
                } else if t == 2 {
                    match <Vec<i16> as Wire>::wire_read(b, p1, f) {
                        Some((s, p2)) => Some((FieldArray::I16(s), p2)),
                        None => None,
                    }
                } else if t == 3 {
                    match <Vec<i32> as Wire>::wire_read(b, p1, f) {
                        Some((s, p2)) => Some((FieldArray::I32(s), p2)),
                        None => None,
                    }
                } else if t == 4 {
                    match <Vec<i64> as Wire>::wire_read(b, p1, f) {
                        Some((s, p2)) => Some((FieldArray::I64(s), p2)),
                        None => None,
                    }
                } else if t == 5 {
                    match <Vec<u8> as Wire>::wire_read(b, p1, f) {
                        Some((s, p2)) => Some((FieldArray::U8(s), p2)),
                        None => None,
                    }
                } else if t == 6 {
                    match <Vec<u16> as Wire>::wire_read(b, p1, f) {
                        Some((s, p2)) => Some((FieldArray::U16(s), p2)),
                        None => None,
                    }
                } else if t == 7 {
                    match <Vec<u32> as Wire>::wire_read(b, p1, f) {
                        Some((s, p2)) => Some((FieldArray::U32(s), p2)),
                        None => None,
                    }
                } else if t == 8 {
                    match <Vec<u64> as Wire>::wire_read(b, p1, f) {
                        Some((s, p2)) => Some((FieldArray::U64(s), p2)),
                        None => None,
                    }
                } else if t == 9 {
                    match <Vec<u32> as Wire>::wire_read(b, p1, f) {
                        Some((s, p2)) => Some((FieldArray::F32(s), p2)),
                        None => None,
                    }
                } else if t == 10 {
                    match <Vec<u64> as Wire>::wire_read(b, p1, f) {
                        Some((s, p2)) => Some((FieldArray::F64(s), p2)),
                        None => None,
                    }
                } else if t == 11 {
                    match <Vec<String> as Wire>::wire_read(b, p1, f) {
                        Some((s, p2)) => Some((FieldArray::Str(s), p2)),
                        None => None,
                    }
                } else if t == 12 {
                    match <Vec<Vec<u8>> as Wire>::wire_read(b, p1, f) {
                        Some((s, p2)) => Some((FieldArray::Bytes(s), p2)),
                        None => None,
                    }
                } else {
                    None
                }
            },
        }
    }
}


// ------------------------------------------------------------------
// Columnar data
// ------------------------------------------------------------------
/// Decodes one value of this type; opaque outside its own proofs.
#[verifier::opaque]
pub open spec fn dec_soa(b: Seq<u8>, f: PackFormat) -> Option<(SoaV, int)> {
        match dec_struct_hdr(b, 3, f) {
            None => None,
            Some(c0) => match <Vec<String> as Wire>::vdec(b.skip(c0), f) {
                None => None,
                Some((names, d1)) => match <Vec<FieldType> as Wire>::vdec(b.skip(c0 + d1), f) {
                    None => None,
                    Some((types, d2)) => match <Vec<FieldArray> as Wire>::vdec(
                        b.skip(c0 + d1 + d2),
                        f,
                    ) {
                        None => None,
                        Some((data, d3)) => Some(
                            (
                                SoaV { field_names: names, field_types: types, field_data: data },
                                c0 + d1 + d2 + d3,
                            ),
                        ),
                    },
                },
            },
        }
    }

impl Wire for StructOfArraysData {
    open spec fn venc(v: SoaV, f: PackFormat) -> Seq<u8> {
        enc_struct_hdr(3, f) + <Vec<String> as Wire>::venc(v.field_names, f) + <Vec<
            FieldType,
        > as Wire>::venc(v.field_types, f) + <Vec<FieldArray> as Wire>::venc(v.field_data, f)
    }

    open spec fn vok(v: SoaV, f: PackFormat) -> bool {
        &&& <Vec<String> as Wire>::vok(v.field_names, f)
        &&& <Vec<FieldType> as Wire>::vok(v.field_types, f)
        &&& <Vec<FieldArray> as Wire>::vok(v.field_data, f)
    }

    open spec fn vdec(b: Seq<u8>, f: PackFormat) -> Option<(SoaV, int)> {
        dec_soa(b, f)
    }

    proof fn lemma_vdec_bounds(b: Seq<u8>, f: PackFormat) {
        reveal(dec_soa);
        match dec_struct_hdr(b, 3, f) {
            None => {},
            Some(c0) => {
                <Vec<String> as Wire>::lemma_vdec_bounds(b.skip(c0), f);
                match <Vec<String> as Wire>::vdec(b.skip(c0), f) {
                    None => {},
                    Some((names, d1)) => {
                        <Vec<FieldType> as Wire>::lemma_vdec_bounds(b.skip(c0 + d1), f);
                        match <Vec<FieldType> as Wire>::vdec(b.skip(c0 + d1), f) {
                            None => {},
                            Some((types, d2)) => {
                                <Vec<FieldArray> as Wire>::lemma_vdec_bounds(
                                    b.skip(c0 + d1 + d2),
                                    f,
                                );
                            },
                        }
                    },
                }
            },
        }
    }

    #[verifier::rlimit(100)]
    #[verifier::spinoff_prover]
    proof fn lemma_complete(v: SoaV, rest: Seq<u8>, f: PackFormat) {
        reveal(dec_soa);
        let hdr = enc_struct_hdr(3, f);
        let e1 = <Vec<String> as Wire>::venc(v.field_names, f);
        let e2 = <Vec<FieldType> as Wire>::venc(v.field_types, f);
        let e3 = <Vec<FieldArray> as Wire>::venc(v.field_data, f);
        let whole = Self::venc(v, f) + rest;
        assert(whole =~= hdr + (e1 + e2 + e3 + rest));
        lemma_struct_hdr_complete(3, e1 + e2 + e3 + rest, f);
        lemma_concat_split(hdr, e1 + e2 + e3 + rest);
        assert(whole.skip(hdr.len() as int) =~= e1 + (e2 + e3 + rest));
        <Vec<String> as Wire>::lemma_complete(v.field_names, e2 + e3 + rest, f);
        lemma_skip_skip(whole, hdr.len() as int, e1.len() as int);
        lemma_concat_split(e1, e2 + e3 + rest);
        assert(whole.skip(hdr.len() + e1.len() as int) =~= e2 + (e3 + rest));
        <Vec<FieldType> as Wire>::lemma_complete(v.field_types, e3 + rest, f);
        lemma_skip_skip(whole, hdr.len() + e1.len() as int, e2.len() as int);
        lemma_concat_split(e2, e3 + rest);
        assert(whole.skip(hdr.len() + e1.len() + e2.len() as int) =~= e3 + rest);
        <Vec<FieldArray> as Wire>::lemma_complete(v.field_data, rest, f);
        assert(SoaV {
            field_names: v.field_names,
            field_types: v.field_types,
            field_data: v.field_data,
        } =~= v);
        assert(Self::venc(v, f).len() == hdr.len() + e1.len() + e2.len() + e3.len());
    }

    fn wire_ok(&self, f: PackFormat) -> bool {
        self.field_names.wire_ok(f) && self.field_types.wire_ok(f) && self.field_data.wire_ok(f)
    }

    fn wire_write(&self, f: PackFormat, out: &mut Vec<u8>) {
        write_struct_hdr(3, f, out);
        self.field_names.wire_write(f, out);
        self.field_types.wire_write(f, out);
        self.field_data.wire_write(f, out);
        proof {
            assert(out@ =~= old(out)@ + Self::venc(self.deep_view(), f));
        }
    }

    #[verifier::rlimit(100)]
    #[verifier::spinoff_prover]
    fn wire_read(b: &[u8], pos: usize, f: PackFormat) -> (r: Option<(StructOfArraysData, usize)>) {
        proof {
            reveal(dec_soa);
        }
        match read_struct_hdr(b, pos, 3, f) {
            None => None,
            Some(p0) => {
                proof {
                    lemma_skip_skip(b@, pos as int, p0 - pos as int);
                }
                match <Vec<String> as Wire>::wire_read(b, p0, f) {
                    None => None,
                    Some((names, p1)) => {
                        proof {
                            lemma_skip_skip(b@, pos as int, p1 - pos as int);
                        }
                        match <Vec<FieldType> as Wire>::wire_read(b, p1, f) {
                            None => None,
                            Some((types, p2)) => {
                                proof {
                                    lemma_skip_skip(b@, pos as int, p2 - pos as int);
                                }
                                match <Vec<FieldArray> as Wire>::wire_read(b, p2, f) {
                                    None => None,
                                    Some((data, p3)) => {
                                        let r = StructOfArraysData {
                                            field_names: names,
                                            field_types: types,
                                            field_data: data,
                                        };
                                        Some((r, p3))
                                    },
                                }
                            },
                        }
                    },
                }
            },
        }
    }
}

// ------------------------------------------------------------------
// Component data
// ------------------------------------------------------------------
/// The wire tag of a component-data variant: its declaration position.
pub open spec fn component_data_tag(v: ComponentDataV) -> u32 {
    match v {
        ComponentDataV::StructOfArrays(_) => 0,
        ComponentDataV::Blob(_) => 1,
    }
}

/// Decodes one value of this type; opaque outside its own proofs.
#[verifier::opaque]
pub open spec fn dec_component_data(b: Seq<u8>, f: PackFormat) -> Option<(ComponentDataV, int)> {
        match dec_variant_hdr(b, f) {
            Some((t, c)) => {
                if t == 0 {
                    match <StructOfArraysData as Wire>::vdec(b.skip(c), f) {
                        Some(q) => Some((ComponentDataV::StructOfArrays(q.0), c + q.1)),
                        None => None,
                    }
                } else if t == 1 {
                    match <Vec<u8> as Wire>::vdec(b.skip(c), f) {
                        Some(q) => Some((ComponentDataV::Blob(q.0), c + q.1)),
                        None => None,
                    }
                } else {
                    None
                }
            },
            None => None,
        }
    }

impl Wire for ComponentData {
    open spec fn venc(v: ComponentDataV, f: PackFormat) -> Seq<u8> {
        enc_variant_hdr(component_data_tag(v), f) + match v {
            ComponentDataV::StructOfArrays(s) => <StructOfArraysData as Wire>::venc(s, f),
            ComponentDataV::Blob(s) => <Vec<u8> as Wire>::venc(s, f),
        }
    }

    open spec fn vok(v: ComponentDataV, f: PackFormat) -> bool {
        match v {
            ComponentDataV::StructOfArrays(s) => <StructOfArraysData as Wire>::vok(s, f),
            ComponentDataV::Blob(s) => <Vec<u8> as Wire>::vok(s, f),
        }
    }

    open spec fn vdec(b: Seq<u8>, f: PackFormat) -> Option<(ComponentDataV, int)> {
        dec_component_data(b, f)
    }

    proof fn lemma_vdec_bounds(b: Seq<u8>, f: PackFormat) {
        reveal(dec_component_data);
        match dec_variant_hdr(b, f) {
            Some((t, c)) => {
                if t == 0 {
                    <StructOfArraysData as Wire>::lemma_vdec_bounds(b.skip(c), f);
                } else if t == 1 {
                    <Vec<u8> as Wire>::lemma_vdec_bounds(b.skip(c), f);
                }
            },
            None => {},
        }
    }

    proof fn lemma_complete(v: ComponentDataV, rest: Seq<u8>, f: PackFormat) {
        reveal(dec_component_data);
        let t = component_data_tag(v);
        let hdr = enc_variant_hdr(t, f);
        let pay = match v {
            ComponentDataV::StructOfArrays(s) => <StructOfArraysData as Wire>::venc(s, f),
            ComponentDataV::Blob(s) => <Vec<u8> as Wire>::venc(s, f),
        };
        let whole = Self::venc(v, f) + rest;
        assert(whole =~= hdr + (pay + rest));
        lemma_variant_hdr_complete(t, pay + rest, f);
        lemma_concat_split(hdr, pay + rest);
        assert(whole.skip(hdr.len() as int) =~= pay + rest);
        match v {
            ComponentDataV::StructOfArrays(s) => <StructOfArraysData as Wire>::lemma_complete(
                s,
                rest,
                f,
            ),
            ComponentDataV::Blob(s) => <Vec<u8> as Wire>::lemma_complete(s, rest, f),
        }
    }

    fn wire_ok(&self, f: PackFormat) -> bool {
        match self {
            ComponentData::StructOfArrays(s) => s.wire_ok(f),
            ComponentData::Blob(s) => s.wire_ok(f),
        }
    }

    fn wire_write(&self, f: PackFormat, out: &mut Vec<u8>) {
        match self {
            ComponentData::StructOfArrays(s) => {
                write_variant_hdr(0, f, out);
                s.wire_write(f, out);
            },
            ComponentData::Blob(s) => {
                write_variant_hdr(1, f, out);
                s.wire_write(f, out);
            },
        }
        proof {
            assert(out@ =~= old(out)@ + Self::venc(self.deep_view(), f));
        }
    }

    fn wire_read(b: &[u8], pos: usize, f: PackFormat) -> (r: Option<(ComponentData, usize)>) {
        proof {
            reveal(dec_component_data);
        }
        match read_variant_hdr(b, pos, f) {
            None => None,
            Some((t, p1)) => {
                proof {
                    lemma_skip_skip(b@, pos as int, p1 - pos as int);
                }
                if t == 0 {
                    match <StructOfArraysData as Wire>::wire_read(b, p1, f) {
                        Some((s, p2)) => Some((ComponentData::StructOfArrays(s), p2)),
                        None => None,
                    }
                } else if t == 1 {
                    match <Vec<u8> as Wire>::wire_read(b, p1, f) {
                        Some((s, p2)) => Some((ComponentData::Blob(s), p2)),
                        None => None,
                    }
                } else {
                    None
                }
            },
        }
    }
}

// ------------------------------------------------------------------
// Archetypes
// ------------------------------------------------------------------
/// Decodes one value of this type; opaque outside its own proofs.
#[verifier::opaque]
pub open spec fn dec_archetype(b: Seq<u8>, f: PackFormat) -> Option<(ArchetypeV, int)> {
        match dec_struct_hdr(b, 3, f) {
            None => None,
            Some(c0) => match <String as Wire>::vdec(b.skip(c0), f) {
                None => None,
                Some((cid, d1)) => match <Vec<u32> as Wire>::vdec(b.skip(c0 + d1), f) {
                    None => None,
                    Some((ids, d2)) => match <ComponentData as Wire>::vdec(b.skip(c0 + d1 + d2), f) {
                        None => None,
                        Some((data, d3)) => Some(
                            (
                                ArchetypeV { component_id: cid, entity_ids: ids, data: data },
                                c0 + d1 + d2 + d3,
                            ),
                        ),
                    },
                },
            },
        }
    }

impl Wire for ComponentArchetype {
    open spec fn venc(v: ArchetypeV, f: PackFormat) -> Seq<u8> {
        enc_struct_hdr(3, f) + <String as Wire>::venc(v.component_id, f) + <Vec<
            u32,
        > as Wire>::venc(v.entity_ids, f) + <ComponentData as Wire>::venc(v.data, f)
    }

    open spec fn vok(v: ArchetypeV, f: PackFormat) -> bool {
        &&& <String as Wire>::vok(v.component_id, f)
        &&& <Vec<u32> as Wire>::vok(v.entity_ids, f)
        &&& <ComponentData as Wire>::vok(v.data, f)
    }

    open spec fn vdec(b: Seq<u8>, f: PackFormat) -> Option<(ArchetypeV, int)> {
        dec_archetype(b, f)
    }

    proof fn lemma_vdec_bounds(b: Seq<u8>, f: PackFormat) {
        reveal(dec_archetype);
        match dec_struct_hdr(b, 3, f) {
            None => {},
            Some(c0) => {
                <String as Wire>::lemma_vdec_bounds(b.skip(c0), f);
                match <String as Wire>::vdec(b.skip(c0), f) {
                    None => {},
                    Some((cid, d1)) => {
                        <Vec<u32> as Wire>::lemma_vdec_bounds(b.skip(c0 + d1), f);
                        match <Vec<u32> as Wire>::vdec(b.skip(c0 + d1), f) {
                            None => {},
                            Some((ids, d2)) => {
                                <ComponentData as Wire>::lemma_vdec_bounds(b.skip(c0 + d1 + d2), f);
                            },
                        }
                    },
                }
            },
        }
    }

    #[verifier::rlimit(100)]
    #[verifier::spinoff_prover]
    proof fn lemma_complete(v: ArchetypeV, rest: Seq<u8>, f: PackFormat) {
        reveal(dec_archetype);
        let hdr = enc_struct_hdr(3, f);
        let e1 = <String as Wire>::venc(v.component_id, f);
        let e2 = <Vec<u32> as Wire>::venc(v.entity_ids, f);
        let e3 = <ComponentData as Wire>::venc(v.data, f);
        let whole = Self::venc(v, f) + rest;
        assert(whole =~= hdr + (e1 + e2 + e3 + rest));
        lemma_struct_hdr_complete(3, e1 + e2 + e3 + rest, f);
        lemma_concat_split(hdr, e1 + e2 + e3 + rest);
        assert(whole.skip(hdr.len() as int) =~= e1 + (e2 + e3 + rest));
        <String as Wire>::lemma_complete(v.component_id, e2 + e3 + rest, f);
        lemma_skip_skip(whole, hdr.len() as int, e1.len() as int);
        lemma_concat_split(e1, e2 + e3 + rest);
        assert(whole.skip(hdr.len() + e1.len() as int) =~= e2 + (e3 + rest));
        <Vec<u32> as Wire>::lemma_complete(v.entity_ids, e3 + rest, f);
        lemma_skip_skip(whole, hdr.len() + e1.len() as int, e2.len() as int);
        lemma_concat_split(e2, e3 + rest);
        assert(whole.skip(hdr.len() + e1.len() + e2.len() as int) =~= e3 + rest);
        <ComponentData as Wire>::lemma_complete(v.data, rest, f);
        assert(ArchetypeV {
            component_id: v.component_id,
            entity_ids: v.entity_ids,
            data: v.data,
        } =~= v);
        assert(Self::venc(v, f).len() == hdr.len() + e1.len() + e2.len() + e3.len());
    }

    fn wire_ok(&self, f: PackFormat) -> bool {
        self.component_id.wire_ok(f) && self.entity_ids.wire_ok(f) && self.data.wire_ok(f)
    }

    fn wire_write(&self, f: PackFormat, out: &mut Vec<u8>) {
        write_struct_hdr(3, f, out);
        self.component_id.wire_write(f, out);
        self.entity_ids.wire_write(f, out);
        self.data.wire_write(f, out);
        proof {
            assert(out@ =~= old(out)@ + Self::venc(self.deep_view(), f));
        }
    }

    #[verifier::rlimit(100)]
    #[verifier::spinoff_prover]
    fn wire_read(b: &[u8], pos: usize, f: PackFormat) -> (r: Option<(ComponentArchetype, usize)>) {
        proof {
            reveal(dec_archetype);
        }
        match read_struct_hdr(b, pos, 3, f) {
            None => None,
            Some(p0) => {
                proof {
                    lemma_skip_skip(b@, pos as int, p0 - pos as int);
                }
                match <String as Wire>::wire_read(b, p0, f) {
                    None => None,
                    Some((cid, p1)) => {
                        proof {
                            lemma_skip_skip(b@, pos as int, p1 - pos as int);
                        }
                        match <Vec<u32> as Wire>::wire_read(b, p1, f) {
                            None => None,
                            Some((ids, p2)) => {
                                proof {
                                    lemma_skip_skip(b@, pos as int, p2 - pos as int);
                                }
                                match <ComponentData as Wire>::wire_read(b, p2, f) {
                                    None => None,
                                    Some((data, p3)) => {
                                        let r = ComponentArchetype {
                                            component_id: cid,
                                            entity_ids: ids,
                                            data: data,
                                        };
                                        Some((r, p3))
                                    },
                                }
                            },
                        }
                    },
                }
            },
        }
    }
}

// ------------------------------------------------------------------
// Entity metadata
// ------------------------------------------------------------------
/// Decodes one value of this type; opaque outside its own proofs.
#[verifier::opaque]
pub open spec fn dec_entity_metadata(b: Seq<u8>, f: PackFormat) -> Option<(EntityMetadataV, int)> {
        match dec_struct_hdr(b, 3, f) {
            None => None,
            Some(c0) => match <i64 as Wire>::vdec(b.skip(c0), f) {
                None => None,
                Some((ca, d1)) => match <i64 as Wire>::vdec(b.skip(c0 + d1), f) {
                    None => None,
                    Some((ma, d2)) => match <Vec<String> as Wire>::vdec(b.skip(c0 + d1 + d2), f) {
                        None => None,
                        Some((tags, d3)) => Some(
                            (
                                EntityMetadataV { created_at: ca, modified_at: ma, tags: tags },
                                c0 + d1 + d2 + d3,
                            ),
                        ),
                    },
                },
            },
        }
    }

impl Wire for EntityMetadata {
    open spec fn venc(v: EntityMetadataV, f: PackFormat) -> Seq<u8> {
        enc_struct_hdr(3, f) + <i64 as Wire>::venc(v.created_at, f) + <i64 as Wire>::venc(
            v.modified_at,
            f,
        ) + <Vec<String> as Wire>::venc(v.tags, f)
    }

    open spec fn vok(v: EntityMetadataV, f: PackFormat) -> bool {
        <Vec<String> as Wire>::vok(v.tags, f)
    }

    open spec fn vdec(b: Seq<u8>, f: PackFormat) -> Option<(EntityMetadataV, int)> {
        dec_entity_metadata(b, f)
    }

    proof fn lemma_vdec_bounds(b: Seq<u8>, f: PackFormat) {
        reveal(dec_entity_metadata);
        match dec_struct_hdr(b, 3, f) {
            None => {},
            Some(c0) => {
                <i64 as Wire>::lemma_vdec_bounds(b.skip(c0), f);
                match <i64 as Wire>::vdec(b.skip(c0), f) {
                    None => {},
                    Some((ca, d1)) => {
                        <i64 as Wire>::lemma_vdec_bounds(b.skip(c0 + d1), f);
                        match <i64 as Wire>::vdec(b.skip(c0 + d1), f) {
                            None => {},
                            Some((ma, d2)) => {
                                <Vec<String> as Wire>::lemma_vdec_bounds(b.skip(c0 + d1 + d2), f);
                            },
                        }
                    },
                }
            },
        }
    }

    #[verifier::rlimit(100)]
    #[verifier::spinoff_prover]
    proof fn lemma_complete(v: EntityMetadataV, rest: Seq<u8>, f: PackFormat) {
        reveal(dec_entity_metadata);
        let hdr = enc_struct_hdr(3, f);
        let e1 = <i64 as Wire>::venc(v.created_at, f);
        let e2 = <i64 as Wire>::venc(v.modified_at, f);
        let e3 = <Vec<String> as Wire>::venc(v.tags, f);
        let whole = Self::venc(v, f) + rest;
        assert(whole =~= hdr + (e1 + e2 + e3 + rest));
        lemma_struct_hdr_complete(3, e1 + e2 + e3 + rest, f);
        lemma_concat_split(hdr, e1 + e2 + e3 + rest);
        assert(whole.skip(hdr.len() as int) =~= e1 + (e2 + e3 + rest));
        <i64 as Wire>::lemma_complete(v.created_at, e2 + e3 + rest, f);
        lemma_skip_skip(whole, hdr.len() as int, e1.len() as int);
        lemma_concat_split(e1, e2 + e3 + rest);
        assert(whole.skip(hdr.len() + e1.len() as int) =~= e2 + (e3 + rest));
        <i64 as Wire>::lemma_complete(v.modified_at, e3 + rest, f);
        lemma_skip_skip(whole, hdr.len() + e1.len() as int, e2.len() as int);
        lemma_concat_split(e2, e3 + rest);
        assert(whole.skip(hdr.len() + e1.len() + e2.len() as int) =~= e3 + rest);
        <Vec<String> as Wire>::lemma_complete(v.tags, rest, f);
        assert(EntityMetadataV {
            created_at: v.created_at,
            modified_at: v.modified_at,
            tags: v.tags,
        } =~= v);
        assert(Self::venc(v, f).len() == hdr.len() + e1.len() + e2.len() + e3.len());
    }

    fn wire_ok(&self, f: PackFormat) -> bool {
        self.tags.wire_ok(f)
    }

    fn wire_write(&self, f: PackFormat, out: &mut Vec<u8>) {
        write_struct_hdr(3, f, out);
        self.created_at.wire_write(f, out);
        self.modified_at.wire_write(f, out);
        self.tags.wire_write(f, out);
        proof {
            assert(out@ =~= old(out)@ + Self::venc(self.deep_view(), f));
        }
    }

    #[verifier::rlimit(100)]
    #[verifier::spinoff_prover]
    fn wire_read(b: &[u8], pos: usize, f: PackFormat) -> (r: Option<(EntityMetadata, usize)>) {
        proof {
            reveal(dec_entity_metadata);
        }
        match read_struct_hdr(b, pos, 3, f) {
            None => None,
            Some(p0) => {
                proof {
                    lemma_skip_skip(b@, pos as int, p0 - pos as int);
                }
                match <i64 as Wire>::wire_read(b, p0, f) {
                    None => None,
                    Some((ca, p1)) => {
                        proof {
                            lemma_skip_skip(b@, pos as int, p1 - pos as int);
                        }
                        match <i64 as Wire>::wire_read(b, p1, f) {
                            None => None,
                            Some((ma, p2)) => {
                                proof {
                                    lemma_skip_skip(b@, pos as int, p2 - pos as int);
                                }
                                match <Vec<String> as Wire>::wire_read(b, p2, f) {
                                    None => None,
                                    Some((tags, p3)) => {
                                        let r = EntityMetadata {
                                            created_at: ca,
                                            modified_at: ma,
                                            tags: tags,
                                        };
                                        Some((r, p3))
                                    },
                                }
                            },
                        }
                    },
                }
            },
        }
    }
}

/// Decodes one value of this type; opaque outside its own proofs.
#[verifier::opaque]
pub open spec fn dec_entity_entry(b: Seq<u8>, f: PackFormat) -> Option<(EntityMetadataEntryV, int)> {
        match dec_struct_hdr(b, 2, f) {
            None => None,
            Some(c0) => match <u32 as Wire>::vdec(b.skip(c0), f) {
                None => None,
                Some((id, d1)) => match <EntityMetadata as Wire>::vdec(b.skip(c0 + d1), f) {
                    None => None,
                    Some((m, d2)) => Some(
                        (EntityMetadataEntryV { entity_id: id, metadata: m }, c0 + d1 + d2),
                    ),
                },
            },
        }
    }

impl Wire for EntityMetadataEntry {
    open spec fn venc(v: EntityMetadataEntryV, f: PackFormat) -> Seq<u8> {
        enc_struct_hdr(2, f) + <u32 as Wire>::venc(v.entity_id, f) + <EntityMetadata as Wire>::venc(
            v.metadata,
            f,
        )
    }

    open spec fn vok(v: EntityMetadataEntryV, f: PackFormat) -> bool {
        <EntityMetadata as Wire>::vok(v.metadata, f)
    }

    open spec fn vdec(b: Seq<u8>, f: PackFormat) -> Option<(EntityMetadataEntryV, int)> {
        dec_entity_entry(b, f)
    }

    proof fn lemma_vdec_bounds(b: Seq<u8>, f: PackFormat) {
        reveal(dec_entity_entry);
        match dec_struct_hdr(b, 2, f) {
            None => {},
            Some(c0) => {
                <u32 as Wire>::lemma_vdec_bounds(b.skip(c0), f);
                match <u32 as Wire>::vdec(b.skip(c0), f) {
                    None => {},
                    Some((id, d1)) => {
                        <EntityMetadata as Wire>::lemma_vdec_bounds(b.skip(c0 + d1), f);
                    },
                }
            },
        }
    }

    #[verifier::rlimit(100)]
    #[verifier::spinoff_prover]
    proof fn lemma_complete(v: EntityMetadataEntryV, rest: Seq<u8>, f: PackFormat) {
        reveal(dec_entity_entry);
        let hdr = enc_struct_hdr(2, f);
        let e1 = <u32 as Wire>::venc(v.entity_id, f);
        let e2 = <EntityMetadata as Wire>::venc(v.metadata, f);
        let whole = Self::venc(v, f) + rest;
        assert(whole =~= hdr + (e1 + e2 + rest));
        lemma_struct_hdr_complete(2, e1 + e2 + rest, f);
        lemma_concat_split(hdr, e1 + e2 + rest);
        assert(whole.skip(hdr.len() as int) =~= e1 + (e2 + rest));
        <u32 as Wire>::lemma_complete(v.entity_id, e2 + rest, f);
        lemma_skip_skip(whole, hdr.len() as int, e1.len() as int);
        lemma_concat_split(e1, e2 + rest);
        assert(whole.skip(hdr.len() + e1.len() as int) =~= e2 + rest);
        <EntityMetadata as Wire>::lemma_complete(v.metadata, rest, f);
        assert(EntityMetadataEntryV { entity_id: v.entity_id, metadata: v.metadata } =~= v);
        assert(Self::venc(v, f).len() == hdr.len() + e1.len() + e2.len());
    }

    fn wire_ok(&self, f: PackFormat) -> bool {
        self.metadata.wire_ok(f)
    }

    fn wire_write(&self, f: PackFormat, out: &mut Vec<u8>) {
        write_struct_hdr(2, f, out);
        self.entity_id.wire_write(f, out);
        self.metadata.wire_write(f, out);
        proof {
            assert(out@ =~= old(out)@ + Self::venc(self.deep_view(), f));
        }
    }

    #[verifier::rlimit(100)]
    #[verifier::spinoff_prover]
    fn wire_read(b: &[u8], pos: usize, f: PackFormat) -> (r: Option<(EntityMetadataEntry, usize)>) {
        proof {
            reveal(dec_entity_entry);
        }
        match read_struct_hdr(b, pos, 2, f) {
            None => None,
            Some(p0) => {
                proof {
                    lemma_skip_skip(b@, pos as int, p0 - pos as int);
                }
                match <u32 as Wire>::wire_read(b, p0, f) {
                    None => None,
                    Some((id, p1)) => {
                        proof {
                            lemma_skip_skip(b@, pos as int, p1 - pos as int);
                        }
                        match <EntityMetadata as Wire>::wire_read(b, p1, f) {
                            None => None,
                            Some((m, p2)) => {
                                let r = EntityMetadataEntry { entity_id: id, metadata: m };
                                Some((r, p2))
                            },
                        }
                    },
                }
            },
        }
    }
}


} // verus!
