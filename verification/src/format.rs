//! The container data model: header, columnar body types, and their
//! mathematical views.

use vstd::prelude::*;

use crate::clock::current_unix_timestamp;
use crate::error::PackError;
use crate::text::{dec_digits, u32_to_dec_string};

verus! {

/// The eight magic bytes that open every container: `TX2PACK\0`.
pub open spec fn spec_magic() -> Seq<u8> {
    seq![0x54u8, 0x58u8, 0x32u8, 0x50u8, 0x41u8, 0x43u8, 0x4bu8, 0x00u8]
}

/// The current container format version.
pub const FORMAT_VERSION: u32 = 1;

/// Returns the magic bytes as an array.
pub fn magic_number() -> (m: [u8; 8])
    ensures
        m@ =~= spec_magic(),
{
    let m: [u8; 8] = [0x54u8, 0x58u8, 0x32u8, 0x50u8, 0x41u8, 0x43u8, 0x4bu8, 0x00u8];
    proof {
        broadcast use vstd::array::group_array_axioms;

    }
    m
}

/// The serialization format of the container body.
#[derive(Debug, Clone, Copy, PartialEq, Eq, Structural)]
pub enum PackFormat {
    /// Compact native binary: fixed-width little-endian integers and
    /// 64-bit length-prefixed sequences.
    Bincode,
    /// Self-describing structured binary.
    MessagePack,
    /// Reserved; writing or reading it always fails.
    Custom,
}

/// The compression family recorded in the header. The write-time level is
/// not recorded; readers do not need it.
#[derive(Debug, Clone, Copy, PartialEq, Eq, Structural)]
pub enum CompressionType {
    Uncompressed,
    Zstd,
    Lz4,
}

impl View for PackFormat {
    type V = PackFormat;

    open spec fn view(&self) -> PackFormat {
        *self
    }
}

impl DeepView for PackFormat {
    type V = PackFormat;

    open spec fn deep_view(&self) -> PackFormat {
        *self
    }
}

impl View for CompressionType {
    type V = CompressionType;

    open spec fn view(&self) -> CompressionType {
        *self
    }
}

impl DeepView for CompressionType {
    type V = CompressionType;

    open spec fn deep_view(&self) -> CompressionType {
        *self
    }
}

/// The fixed-layout container header.
#[derive(Debug, Clone, Copy, PartialEq)]
pub struct SnapshotHeader {
    pub magic: [u8; 8],
    pub version: u32,
    pub format: PackFormat,
    pub compression: CompressionType,
    pub encrypted: bool,
    pub checksum: [u8; 32],
    pub timestamp: i64,
    pub entity_count: u64,
    pub component_count: u64,
    pub archetype_count: u64,
    pub data_offset: u64,
    pub data_size: u64,
    pub metadata_offset: u64,
    pub metadata_size: u64,
}

/// Mathematical view of a [`SnapshotHeader`].
#[verifier::ext_equal]
pub ghost struct HeaderV {
    pub magic: Seq<u8>,
    pub version: u32,
    pub format: PackFormat,
    pub compression: CompressionType,
    pub encrypted: bool,
    pub checksum: Seq<u8>,
    pub timestamp: i64,
    pub entity_count: u64,
    pub component_count: u64,
    pub archetype_count: u64,
    pub data_offset: u64,
    pub data_size: u64,
    pub metadata_offset: u64,
    pub metadata_size: u64,
}

impl View for SnapshotHeader {
    type V = HeaderV;

    open spec fn view(&self) -> HeaderV {
        HeaderV {
            magic: self.magic@,
            version: self.version,
            format: self.format,
            compression: self.compression,
            encrypted: self.encrypted,
            checksum: self.checksum@,
            timestamp: self.timestamp,
            entity_count: self.entity_count,
            component_count: self.component_count,
            archetype_count: self.archetype_count,
            data_offset: self.data_offset,
            data_size: self.data_size,
            metadata_offset: self.metadata_offset,
            metadata_size: self.metadata_size,
        }
    }
}

impl DeepView for SnapshotHeader {
    type V = HeaderV;

    open spec fn deep_view(&self) -> HeaderV {
        self.view()
    }
}

/// A header whose magic bytes are the container magic.
pub open spec fn magic_ok(h: HeaderV) -> bool {
    h.magic == spec_magic()
}

/// A header that passes [`SnapshotHeader::validate`]: right magic bytes and
/// the current format version.
pub open spec fn header_valid(h: HeaderV) -> bool {
    magic_ok(h) && h.version == FORMAT_VERSION
}

impl SnapshotHeader {
    /// A fresh header: current magic and version, Bincode format, Zstd
    /// compression, no encryption, zeroed checksum and counts, and the
    /// current wall-clock time as its timestamp.
    pub fn new() -> (h: SnapshotHeader)
        ensures
            h@.magic == spec_magic(),
            h@.version == FORMAT_VERSION,
            h@.format == PackFormat::Bincode,
            h@.compression == CompressionType::Zstd,
            h@.encrypted == false,
            h@.checksum =~= Seq::new(32, |i: int| 0u8),
            h@.entity_count == 0 && h@.component_count == 0 && h@.archetype_count == 0,
            h@.data_offset == 0 && h@.data_size == 0,
            h@.metadata_offset == 0 && h@.metadata_size == 0,
            header_valid(h@),
    {
        let h = SnapshotHeader {
            magic: magic_number(),
            version: FORMAT_VERSION,
            format: PackFormat::Bincode,
            compression: CompressionType::Zstd,
            encrypted: false,
            checksum: [0u8; 32],
            timestamp: current_unix_timestamp(),
            entity_count: 0,
            component_count: 0,
            archetype_count: 0,
            data_offset: 0,
            data_size: 0,
            metadata_offset: 0,
            metadata_size: 0,
        };
        proof {
            broadcast use vstd::array::group_array_axioms;

            assert(h@.checksum =~= Seq::new(32, |i: int| 0u8));
        }
        h
    }

    /// Checks magic bytes and version, in that order: a wrong magic is
    /// `InvalidFormat`, a wrong version is `VersionMismatch` carrying both
    /// versions in decimal.
    pub fn validate(&self) -> (r: Result<(), PackError>)
        ensures
            r is Ok <==> header_valid(self@),
            !magic_ok(self@) ==> (r matches Err(e) && e is InvalidFormat),
            magic_ok(self@) && self@.version != FORMAT_VERSION ==> (r matches Err(e) && (e matches
                PackError::VersionMismatch { expected, actual } && expected@ == dec_digits(
                FORMAT_VERSION as nat,
            ) && actual@ == dec_digits(self@.version as nat))),
    {
        let magic = magic_number();
        let mut i: usize = 0;
        let mut same = true;
        while i < 8
            invariant
                i <= 8,
                same <==> self.magic@.subrange(0, i as int) =~= spec_magic().subrange(0, i as int),
                magic@ =~= spec_magic(),
            decreases 8 - i,
        {
            proof {
                broadcast use vstd::array::group_array_axioms;

            }
            if self.magic[i] != magic[i] {
                same = false;
            }
            proof {
                if same {
                    assert(self.magic@.subrange(0, i + 1) =~= spec_magic().subrange(0, i + 1));
                } else {
                    assert(!(self.magic@.subrange(0, i + 1) =~= spec_magic().subrange(
                        0,
                        i + 1,
                    ))) by {
                        if self.magic@.subrange(0, i + 1) =~= spec_magic().subrange(0, i + 1) {
                            assert(forall|j: int|
                                0 <= j < i + 1 ==> self.magic@[j] == spec_magic()[j]) by {
                                assert(forall|j: int|
                                    0 <= j < i + 1 ==> self.magic@.subrange(0, i + 1)[j]
                                        == self.magic@[j]);
                            }
                            assert(self.magic@.subrange(0, i as int) =~= spec_magic().subrange(
                                0,
                                i as int,
                            ));
                        }
                    }
                }
            }
            i += 1;
        }
        proof {
            assert(self.magic@.subrange(0, 8) =~= self.magic@);
            assert(spec_magic().subrange(0, 8) =~= spec_magic());
        }
        if !same {
            return Err(PackError::InvalidFormat("invalid magic number".to_owned()));
        }
        if self.version != FORMAT_VERSION {
            return Err(
                PackError::VersionMismatch {
                    expected: u32_to_dec_string(FORMAT_VERSION),
                    actual: u32_to_dec_string(self.version),
                },
            );
        }
        Ok(())
    }
}

/// The closed set of primitive field kinds a columnar field can hold.
/// The wire tag of each variant is its declaration position.
#[derive(Debug, Clone, Copy, PartialEq, Eq, Structural)]
pub enum FieldType {
    Bool,
    I8,
    I16,
    I32,
    I64,
    U8,
    U16,
    U32,
    U64,
    F32,
    F64,
    Str,
    Bytes,
}

impl View for FieldType {
    type V = FieldType;

    open spec fn view(&self) -> FieldType {
        *self
    }
}

impl DeepView for FieldType {
    type V = FieldType;

    open spec fn deep_view(&self) -> FieldType {
        *self
    }
}

/// One column of an archetype: an ordered sequence of values of a single
/// primitive kind. The `F32` and `F64` variants carry each value's IEEE-754
/// bit pattern, which is exactly what travels on the wire.
#[derive(Debug, PartialEq)]
pub enum FieldArray {
    Bool(Vec<bool>),
    I8(Vec<i8>),
    I16(Vec<i16>),
    I32(Vec<i32>),
    I64(Vec<i64>),
    U8(Vec<u8>),
    U16(Vec<u16>),
    U32(Vec<u32>),
    U64(Vec<u64>),
    F32(Vec<u32>),
    F64(Vec<u64>),
    Str(Vec<String>),
    Bytes(Vec<Vec<u8>>),
}

/// Mathematical view of a [`FieldArray`].
#[verifier::ext_equal]
pub ghost enum FieldArrayV {
    Bool(Seq<bool>),
    I8(Seq<i8>),
    I16(Seq<i16>),
    I32(Seq<i32>),
    I64(Seq<i64>),
    U8(Seq<u8>),
    U16(Seq<u16>),
    U32(Seq<u32>),
    U64(Seq<u64>),
    F32(Seq<u32>),
    F64(Seq<u64>),
    Str(Seq<Seq<char>>),
    Bytes(Seq<Seq<u8>>),
}

impl View for FieldArray {
    type V = FieldArrayV;

    open spec fn view(&self) -> FieldArrayV {
        match self {
            FieldArray::Bool(v) => FieldArrayV::Bool(v.deep_view()),
            FieldArray::I8(v) => FieldArrayV::I8(v.deep_view()),
            FieldArray::I16(v) => FieldArrayV::I16(v.deep_view()),
            FieldArray::I32(v) => FieldArrayV::I32(v.deep_view()),
            FieldArray::I64(v) => FieldArrayV::I64(v.deep_view()),
            FieldArray::U8(v) => FieldArrayV::U8(v.deep_view()),
            FieldArray::U16(v) => FieldArrayV::U16(v.deep_view()),
            FieldArray::U32(v) => FieldArrayV::U32(v.deep_view()),
            FieldArray::U64(v) => FieldArrayV::U64(v.deep_view()),
            FieldArray::F32(v) => FieldArrayV::F32(v.deep_view()),
            FieldArray::F64(v) => FieldArrayV::F64(v.deep_view()),
            FieldArray::Str(v) => FieldArrayV::Str(v.deep_view()),
            FieldArray::Bytes(v) => FieldArrayV::Bytes(v.deep_view()),
        }
    }
}

impl DeepView for FieldArray {
    type V = FieldArrayV;

    open spec fn deep_view(&self) -> FieldArrayV {
        self.view()
    }
}

impl FieldArrayV {
    /// The number of rows the column holds.
    pub open spec fn spec_len(self) -> nat {
        match self {
            FieldArrayV::Bool(v) => v.len(),
            FieldArrayV::I8(v) => v.len(),
            FieldArrayV::I16(v) => v.len(),
            FieldArrayV::I32(v) => v.len(),
            FieldArrayV::I64(v) => v.len(),
            FieldArrayV::U8(v) => v.len(),
            FieldArrayV::U16(v) => v.len(),
            FieldArrayV::U32(v) => v.len(),
            FieldArrayV::U64(v) => v.len(),
            FieldArrayV::F32(v) => v.len(),
            FieldArrayV::F64(v) => v.len(),
            FieldArrayV::Str(v) => v.len(),
            FieldArrayV::Bytes(v) => v.len(),
        }
    }

    /// The field kind whose tag matches this column's variant.
    pub open spec fn spec_kind(self) -> FieldType {
        match self {
            FieldArrayV::Bool(_) => FieldType::Bool,
            FieldArrayV::I8(_) => FieldType::I8,
            FieldArrayV::I16(_) => FieldType::I16,
            FieldArrayV::I32(_) => FieldType::I32,
            FieldArrayV::I64(_) => FieldType::I64,
            FieldArrayV::U8(_) => FieldType::U8,
            FieldArrayV::U16(_) => FieldType::U16,
            FieldArrayV::U32(_) => FieldType::U32,
            FieldArrayV::U64(_) => FieldType::U64,
            FieldArrayV::F32(_) => FieldType::F32,
            FieldArrayV::F64(_) => FieldType::F64,
            FieldArrayV::Str(_) => FieldType::Str,
            FieldArrayV::Bytes(_) => FieldType::Bytes,
        }
    }
}

impl FieldArray {
    /// The number of rows the column holds.
    pub fn len(&self) -> (n: usize)
        ensures
            n == self@.spec_len(),
    {
        match self {
            FieldArray::Bool(v) => v.len(),
            FieldArray::I8(v) => v.len(),
            FieldArray::I16(v) => v.len(),
            FieldArray::I32(v) => v.len(),
            FieldArray::I64(v) => v.len(),
            FieldArray::U8(v) => v.len(),
            FieldArray::U16(v) => v.len(),
            FieldArray::U32(v) => v.len(),
            FieldArray::U64(v) => v.len(),
            FieldArray::F32(v) => v.len(),
            FieldArray::F64(v) => v.len(),
            FieldArray::Str(v) => v.len(),
            FieldArray::Bytes(v) => v.len(),
        }
    }

    /// Whether the column holds no rows.
    pub fn is_empty(&self) -> (b: bool)
        ensures
            b == (self@.spec_len() == 0),
    {
        self.len() == 0
    }
}

/// Columnar storage for one component kind: three parallel sequences of
/// field names, field kinds, and field columns.
#[derive(Debug, PartialEq)]
pub struct StructOfArraysData {
    pub field_names: Vec<String>,
    pub field_types: Vec<FieldType>,
    pub field_data: Vec<FieldArray>,
}

/// Mathematical view of a [`StructOfArraysData`].
#[verifier::ext_equal]
pub ghost struct SoaV {
    pub field_names: Seq<Seq<char>>,
    pub field_types: Seq<FieldType>,
    pub field_data: Seq<FieldArrayV>,
}

impl View for StructOfArraysData {
    type V = SoaV;

    open spec fn view(&self) -> SoaV {
        SoaV {
            field_names: self.field_names.deep_view(),
            field_types: self.field_types.deep_view(),
            field_data: self.field_data.deep_view(),
        }
    }
}

impl DeepView for StructOfArraysData {
    type V = SoaV;

    open spec fn deep_view(&self) -> SoaV {
        self.view()
    }
}

impl SoaV {
    /// Well-formed columnar data: the three sequences run in parallel, every
    /// column's variant matches its declared kind, names are distinct, and
    /// every column has the same row count.
    pub open spec fn wf(self) -> bool {
        &&& self.field_names.len() == self.field_types.len()
        &&& self.field_types.len() == self.field_data.len()
        &&& forall|i: int|
            0 <= i < self.field_data.len() ==> (#[trigger] self.field_data[i]).spec_kind()
                == self.field_types[i]
        &&& forall|i: int, j: int|
            0 <= i < j < self.field_names.len() ==> self.field_names[i] != self.field_names[j]
        &&& forall|i: int|
            0 <= i < self.field_data.len() ==> (#[trigger] self.field_data[i]).spec_len()
                == self.row_count()
    }

    /// The row count of the columnar data: the length of its first column,
    /// or zero if it has none.
    pub open spec fn row_count(self) -> nat {
        if self.field_data.len() == 0 {
            0
        } else {
            self.field_data[0].spec_len()
        }
    }
}

/// The data carried by one archetype: columnar storage, or an opaque blob
/// as an escape hatch for custom encodings.
#[derive(Debug, PartialEq)]
pub enum ComponentData {
    StructOfArrays(StructOfArraysData),
    Blob(Vec<u8>),
}

/// Mathematical view of a [`ComponentData`].
#[verifier::ext_equal]
pub ghost enum ComponentDataV {
    StructOfArrays(SoaV),
    Blob(Seq<u8>),
}

impl View for ComponentData {
    type V = ComponentDataV;

    open spec fn view(&self) -> ComponentDataV {
        match self {
            ComponentData::StructOfArrays(s) => ComponentDataV::StructOfArrays(s.deep_view()),
            ComponentData::Blob(b) => ComponentDataV::Blob(b.deep_view()),
        }
    }
}

impl DeepView for ComponentData {
    type V = ComponentDataV;

    open spec fn deep_view(&self) -> ComponentDataV {
        self.view()
    }
}

/// The set of entities bearing one component kind, with that component's
/// data in columnar form.
#[derive(Debug, PartialEq)]
pub struct ComponentArchetype {
    pub component_id: String,
    pub entity_ids: Vec<u32>,
    pub data: ComponentData,
}

/// Mathematical view of a [`ComponentArchetype`].
#[verifier::ext_equal]
pub ghost struct ArchetypeV {
    pub component_id: Seq<char>,
    pub entity_ids: Seq<u32>,
    pub data: ComponentDataV,
}

impl View for ComponentArchetype {
    type V = ArchetypeV;

    open spec fn view(&self) -> ArchetypeV {
        ArchetypeV {
            component_id: self.component_id@,
            entity_ids: self.entity_ids.deep_view(),
            data: self.data.deep_view(),
        }
    }
}

impl DeepView for ComponentArchetype {
    type V = ArchetypeV;

    open spec fn deep_view(&self) -> ArchetypeV {
        self.view()
    }
}

impl ArchetypeV {
    /// Well-formed archetype: no duplicate entity ids, and columnar data,
    /// if present, is well formed with one row per entity.
    pub open spec fn wf(self) -> bool {
        &&& forall|i: int, j: int|
            0 <= i < j < self.entity_ids.len() ==> self.entity_ids[i] != self.entity_ids[j]
        &&& match self.data {
            ComponentDataV::StructOfArrays(s) => s.wf() && s.row_count() == self.entity_ids.len(),
            ComponentDataV::Blob(_) => true,
        }
    }
}

/// Per-entity sidecar data kept inside the snapshot body.
#[derive(Debug, PartialEq)]
pub struct EntityMetadata {
    pub created_at: i64,
    pub modified_at: i64,
    pub tags: Vec<String>,
}

/// Mathematical view of an [`EntityMetadata`].
#[verifier::ext_equal]
pub ghost struct EntityMetadataV {
    pub created_at: i64,
    pub modified_at: i64,
    pub tags: Seq<Seq<char>>,
}

impl View for EntityMetadata {
    type V = EntityMetadataV;

    open spec fn view(&self) -> EntityMetadataV {
        EntityMetadataV {
            created_at: self.created_at,
            modified_at: self.modified_at,
            tags: self.tags.deep_view(),
        }
    }
}

impl DeepView for EntityMetadata {
    type V = EntityMetadataV;

    open spec fn deep_view(&self) -> EntityMetadataV {
        self.view()
    }
}

/// One `(entity id, metadata)` entry of a snapshot's entity-metadata
/// mapping. Entries with distinct ids form the mapping.
#[derive(Debug, PartialEq)]
pub struct EntityMetadataEntry {
    pub entity_id: u32,
    pub metadata: EntityMetadata,
}

/// Mathematical view of an [`EntityMetadataEntry`].
#[verifier::ext_equal]
pub ghost struct EntityMetadataEntryV {
    pub entity_id: u32,
    pub metadata: EntityMetadataV,
}

impl View for EntityMetadataEntry {
    type V = EntityMetadataEntryV;

    open spec fn view(&self) -> EntityMetadataEntryV {
        EntityMetadataEntryV { entity_id: self.entity_id, metadata: self.metadata.deep_view() }
    }
}

impl DeepView for EntityMetadataEntry {
    type V = EntityMetadataEntryV;

    open spec fn deep_view(&self) -> EntityMetadataEntryV {
        self.view()
    }
}

/// A whole snapshot as it travels through the codec: a header, the
/// archetypes, and the per-entity metadata mapping.
#[derive(Debug, PartialEq)]
pub struct PackedSnapshot {
    pub header: SnapshotHeader,
    pub archetypes: Vec<ComponentArchetype>,
    pub entity_metadata: Vec<EntityMetadataEntry>,
}

/// Mathematical view of a [`PackedSnapshot`].
#[verifier::ext_equal]
pub ghost struct SnapshotV {
    pub header: HeaderV,
    pub archetypes: Seq<ArchetypeV>,
    pub entity_metadata: Seq<EntityMetadataEntryV>,
}

impl View for PackedSnapshot {
    type V = SnapshotV;

    open spec fn view(&self) -> SnapshotV {
        SnapshotV {
            header: self.header@,
            archetypes: self.archetypes.deep_view(),
            entity_metadata: self.entity_metadata.deep_view(),
        }
    }
}

impl DeepView for PackedSnapshot {
    type V = SnapshotV;

    open spec fn deep_view(&self) -> SnapshotV {
        self.view()
    }
}

impl SnapshotV {
    /// Well-formed snapshot: archetype component ids are distinct, each
    /// archetype is well formed, and entity-metadata keys are distinct.
    pub open spec fn wf(self) -> bool {
        &&& forall|i: int, j: int|
            0 <= i < j < self.archetypes.len() ==> self.archetypes[i].component_id
                != self.archetypes[j].component_id
        &&& forall|i: int| 0 <= i < self.archetypes.len() ==> (#[trigger] self.archetypes[i]).wf()
        &&& forall|i: int, j: int|
            0 <= i < j < self.entity_metadata.len() ==> self.entity_metadata[i].entity_id
                != self.entity_metadata[j].entity_id
    }
}

impl PackedSnapshot {
    /// A fresh, empty snapshot under a fresh header.
    pub fn new() -> (s: PackedSnapshot)
        ensures
            header_valid(s@.header),
            s@.header.format == PackFormat::Bincode,
            s@.archetypes =~= Seq::<ArchetypeV>::empty(),
            s@.entity_metadata =~= Seq::<EntityMetadataEntryV>::empty(),
            s@.wf(),
    {
        let s = PackedSnapshot {
            header: SnapshotHeader::new(),
            archetypes: Vec::new(),
            entity_metadata: Vec::new(),
        };
        s
    }
}

// ------------------------------------------------------------------
// Cloning
// ------------------------------------------------------------------
/// Copies a vector of strings, keeping its view.
fn clone_string_vec(v: &Vec<String>) -> (r: Vec<String>)
    ensures
        r.deep_view() == v.deep_view(),
{
    let mut r: Vec<String> = Vec::new();
    let n = v.len();
    let mut i: usize = 0;
    while i < n
        invariant
            i <= n,
            n == v@.len(),
            r@.len() == i,
            forall|k: int| 0 <= k < i ==> #[trigger] r@[k].deep_view() == v@[k].deep_view(),
        decreases n - i,
    {
        let c = v[i].clone();
        proof {
            assert(v.deep_view()[i as int] == v@[i as int].deep_view());
            assert(c.deep_view() == v@[i as int].deep_view());
        }
        r.push(c);
        i += 1;
    }
    proof {
        assert(r.deep_view() =~= v.deep_view());
    }
    r
}

/// Copies a vector of byte vectors, keeping its view.
fn clone_bytes_vec(v: &Vec<Vec<u8>>) -> (r: Vec<Vec<u8>>)
    ensures
        r.deep_view() == v.deep_view(),
{
    let mut r: Vec<Vec<u8>> = Vec::new();
    let n = v.len();
    let mut i: usize = 0;
    while i < n
        invariant
            i <= n,
            n == v@.len(),
            r@.len() == i,
            forall|k: int| 0 <= k < i ==> #[trigger] r@[k].deep_view() == v@[k].deep_view(),
        decreases n - i,
    {
        let c = vstd::slice::slice_to_vec(v[i].as_slice());
        proof {
            assert(v.deep_view()[i as int] == v@[i as int].deep_view());
            assert(c.deep_view() =~= v@[i as int].deep_view());
        }
        r.push(c);
        i += 1;
    }
    proof {
        assert(r.deep_view() =~= v.deep_view());
    }
    r
}

impl Clone for FieldArray {
    /// A copy with the same view.
    fn clone(&self) -> (r: Self)
        ensures
            r@ == self@,
    {
        let r = match self {
            FieldArray::Bool(v) => FieldArray::Bool(vstd::slice::slice_to_vec(v.as_slice())),
            FieldArray::I8(v) => FieldArray::I8(vstd::slice::slice_to_vec(v.as_slice())),
            FieldArray::I16(v) => FieldArray::I16(vstd::slice::slice_to_vec(v.as_slice())),
            FieldArray::I32(v) => FieldArray::I32(vstd::slice::slice_to_vec(v.as_slice())),
            FieldArray::I64(v) => FieldArray::I64(vstd::slice::slice_to_vec(v.as_slice())),
            FieldArray::U8(v) => FieldArray::U8(vstd::slice::slice_to_vec(v.as_slice())),
            FieldArray::U16(v) => FieldArray::U16(vstd::slice::slice_to_vec(v.as_slice())),
            FieldArray::U32(v) => FieldArray::U32(vstd::slice::slice_to_vec(v.as_slice())),
            FieldArray::U64(v) => FieldArray::U64(vstd::slice::slice_to_vec(v.as_slice())),
            FieldArray::F32(v) => FieldArray::F32(vstd::slice::slice_to_vec(v.as_slice())),
            FieldArray::F64(v) => FieldArray::F64(vstd::slice::slice_to_vec(v.as_slice())),
            FieldArray::Str(v) => FieldArray::Str(clone_string_vec(v)),
            FieldArray::Bytes(v) => FieldArray::Bytes(clone_bytes_vec(v)),
        };
        proof {
            assert(r@ =~= self@);
        }
        r
    }
}

/// Copies a vector of field columns, keeping its view.
fn clone_field_array_vec(v: &Vec<FieldArray>) -> (r: Vec<FieldArray>)
    ensures
        r.deep_view() == v.deep_view(),
{
    let mut r: Vec<FieldArray> = Vec::new();
    let n = v.len();
    let mut i: usize = 0;
    while i < n
        invariant
            i <= n,
            n == v@.len(),
            r@.len() == i,
            forall|k: int| 0 <= k < i ==> #[trigger] r@[k].deep_view() == v@[k].deep_view(),
        decreases n - i,
    {
        let c = v[i].clone();
        proof {
            assert(v.deep_view()[i as int] == v@[i as int].deep_view());
            assert(c.deep_view() == v@[i as int].deep_view());
        }
        r.push(c);
        i += 1;
    }
    proof {
        assert(r.deep_view() =~= v.deep_view());
    }
    r
}

impl Clone for StructOfArraysData {
    /// A copy with the same view.
    fn clone(&self) -> (r: Self)
        ensures
            r@ == self@,
    {
        let r = StructOfArraysData {
            field_names: clone_string_vec(&self.field_names),
            field_types: vstd::slice::slice_to_vec(self.field_types.as_slice()),
            field_data: clone_field_array_vec(&self.field_data),
        };
        proof {
            assert(r@ =~= self@);
        }
        r
    }
}

impl Clone for ComponentData {
    /// A copy with the same view.
    fn clone(&self) -> (r: Self)
        ensures
            r@ == self@,
    {
        let r = match self {
            ComponentData::StructOfArrays(s) => ComponentData::StructOfArrays(s.clone()),
            ComponentData::Blob(b) => ComponentData::Blob(vstd::slice::slice_to_vec(b.as_slice())),
        };
        proof {
            assert(r@ =~= self@);
        }
        r
    }
}

impl Clone for ComponentArchetype {
    /// A copy with the same view.
    fn clone(&self) -> (r: Self)
        ensures
            r@ == self@,
    {
        let r = ComponentArchetype {
            component_id: self.component_id.clone(),
            entity_ids: vstd::slice::slice_to_vec(self.entity_ids.as_slice()),
            data: self.data.clone(),
        };
        proof {
            assert(r@ =~= self@);
        }
        r
    }
}

impl Clone for EntityMetadata {
    /// A copy with the same view.
    fn clone(&self) -> (r: Self)
        ensures
            r@ == self@,
    {
        let r = EntityMetadata {
            created_at: self.created_at,
            modified_at: self.modified_at,
            tags: clone_string_vec(&self.tags),
        };
        proof {
            assert(r@ =~= self@);
        }
        r
    }
}

impl Clone for EntityMetadataEntry {
    /// A copy with the same view.
    fn clone(&self) -> (r: Self)
        ensures
            r@ == self@,
    {
        let r = EntityMetadataEntry { entity_id: self.entity_id, metadata: self.metadata.clone() };
        proof {
            assert(r@ =~= self@);
        }
        r
    }
}

impl Clone for PackedSnapshot {
    /// A copy with the same view.
    fn clone(&self) -> (r: Self)
        ensures
            r@ == self@,
    {
        let mut archetypes: Vec<ComponentArchetype> = Vec::new();
        let n = self.archetypes.len();
        let mut i: usize = 0;
        while i < n
            invariant
                i <= n,
                n == self.archetypes@.len(),
                archetypes@.len() == i,
                forall|k: int| 0 <= k < i ==> #[trigger] archetypes@[k].deep_view()
                    == self.archetypes@[k].deep_view(),
            decreases n - i,
        {
            let c = self.archetypes[i].clone();
            proof {
                assert(self.archetypes.deep_view()[i as int] == self.archetypes@[i as int].deep_view());
                assert(c.deep_view() == self.archetypes@[i as int].deep_view());
            }
            archetypes.push(c);
            i += 1;
        }
        let mut entity_metadata: Vec<EntityMetadataEntry> = Vec::new();
        let m = self.entity_metadata.len();
        let mut j: usize = 0;
        while j < m
            invariant
                j <= m,
                m == self.entity_metadata@.len(),
                entity_metadata@.len() == j,
                forall|k: int| 0 <= k < j ==> #[trigger] entity_metadata@[k].deep_view()
                    == self.entity_metadata@[k].deep_view(),
            decreases m - j,
        {
            let c = self.entity_metadata[j].clone();
            proof {
                assert(self.entity_metadata.deep_view()[j as int] == self.entity_metadata@[j as int].deep_view());
                assert(c.deep_view() == self.entity_metadata@[j as int].deep_view());
            }
            entity_metadata.push(c);
            j += 1;
        }
        let r = PackedSnapshot { header: self.header, archetypes: archetypes, entity_metadata: entity_metadata };
        proof {
            assert(archetypes.deep_view() =~= self.archetypes.deep_view());
            assert(entity_metadata.deep_view() =~= self.entity_metadata.deep_view());
            assert(r@ =~= self@);
        }
        r
    }
}

// ------------------------------------------------------------------
// Packing an upstream world state
// ------------------------------------------------------------------
/// An entity of the upstream world model as the packer reads it: its id
/// and the component kinds it bears.
#[derive(Debug, PartialEq)]
pub struct WorldEntity {
    pub id: u32,
    pub components: Vec<String>,
}

/// Mathematical view of a [`WorldEntity`].
#[verifier::ext_equal]
pub ghost struct WorldEntityV {
    pub id: u32,
    pub components: Seq<Seq<char>>,
}

impl View for WorldEntity {
    type V = WorldEntityV;

    open spec fn view(&self) -> WorldEntityV {
        WorldEntityV { id: self.id, components: self.components.deep_view() }
    }
}

impl DeepView for WorldEntity {
    type V = WorldEntityV;

    open spec fn deep_view(&self) -> WorldEntityV {
        self.view()
    }
}

/// An upstream world state as the packer reads it: a timestamp and the
/// entities with their component kinds.
#[derive(Debug, PartialEq)]
pub struct WorldSnapshot {
    pub timestamp: u64,
    pub entities: Vec<WorldEntity>,
}

/// Mathematical view of a [`WorldSnapshot`].
#[verifier::ext_equal]
pub ghost struct WorldSnapshotV {
    pub timestamp: u64,
    pub entities: Seq<WorldEntityV>,
}

impl View for WorldSnapshot {
    type V = WorldSnapshotV;

    open spec fn view(&self) -> WorldSnapshotV {
        WorldSnapshotV { timestamp: self.timestamp, entities: self.entities.deep_view() }
    }
}

impl DeepView for WorldSnapshot {
    type V = WorldSnapshotV;

    open spec fn deep_view(&self) -> WorldSnapshotV {
        self.view()
    }
}

/// Whether an entity bears the component kind `cid`.
pub open spec fn bears(e: WorldEntityV, cid: Seq<char>) -> bool {
    e.components.contains(cid)
}

/// The ids of the entities bearing `cid`, in entity order.
pub open spec fn bearer_ids(entities: Seq<WorldEntityV>, cid: Seq<char>) -> Seq<u32> {
    entities.filter(|e: WorldEntityV| e.components.contains(cid)).map_values(
        |e: WorldEntityV| e.id,
    )
}

/// Whether some archetype in the sequence carries the component kind
/// `cid`.
pub open spec fn has_archetype_for(archetypes: Seq<ArchetypeV>, cid: Seq<char>) -> bool {
    exists|k: int|
        0 <= k < archetypes.len() && (#[trigger] archetypes[k]).component_id == cid
}

/// Whether some entity bears the component kind `cid`.
pub open spec fn kind_occurs(entities: Seq<WorldEntityV>, cid: Seq<char>) -> bool {
    exists|a: int, b: int|
        0 <= a < entities.len() && 0 <= b < entities[a].components.len() && cid == (
        #[trigger] entities[a].components[b])
}

/// Extending the scanned entities by one extends each bearer list by that
/// entity's id exactly when it bears the component.
pub proof fn lemma_bearer_ids_step(entities: Seq<WorldEntityV>, i: int, cid: Seq<char>)
    requires
        0 <= i < entities.len(),
    ensures
        bears(entities[i], cid) ==> bearer_ids(entities.take(i + 1), cid) == bearer_ids(
            entities.take(i),
            cid,
        ).push(entities[i].id),
        !bears(entities[i], cid) ==> bearer_ids(entities.take(i + 1), cid) == bearer_ids(
            entities.take(i),
            cid,
        ),
{
    reveal(Seq::filter);
    let t1 = entities.take(i + 1);
    assert(t1.drop_last() =~= entities.take(i));
    assert(t1.last() == entities[i]);
    let pred = |e: WorldEntityV| e.components.contains(cid);
    if pred(entities[i]) {
        assert(t1.filter(pred) == entities.take(i).filter(pred).push(entities[i]));
        assert(t1.filter(pred).map_values(|e: WorldEntityV| e.id) =~= entities.take(i).filter(
            pred,
        ).map_values(|e: WorldEntityV| e.id).push(entities[i].id));
    } else {
        assert(t1.filter(pred) == entities.take(i).filter(pred));
    }
}

/// Whether a vector of strings holds `s`.
fn contains_str(v: &Vec<String>, s: &str) -> (r: bool)
    ensures
        r == v.deep_view().contains(s@),
{
    let n = v.len();
    let mut i: usize = 0;
    while i < n
        invariant
            i <= n,
            n == v@.len(),
            forall|j: int| 0 <= j < i ==> v.deep_view()[j] != s@,
        decreases n - i,
    {
        proof {
            assert(v.deep_view()[i as int] == v@[i as int]@);
        }
        if crate::text::str_eq(v[i].as_str(), s) {
            proof {
                assert(v.deep_view()[i as int] == s@);
            }
            return true;
        }
        i += 1;
    }
    proof {
        if v.deep_view().contains(s@) {
            let j = choose|j: int| 0 <= j < v.deep_view().len() && v.deep_view()[j] == s@;
            assert(false);
        }
    }
    false
}

impl PackedSnapshot {
    /// Packs an upstream world state into columnar form: one archetype per
    /// component kind borne by at least one entity, listing the bearers'
    /// ids in entity order, with the data left as an empty blob for the
    /// component systems to fill. The header carries the world timestamp
    /// and the entity and archetype counts.
    #[verifier::rlimit(100)]
    #[verifier::spinoff_prover]
    pub fn from_world_snapshot(snapshot: WorldSnapshot) -> (p: PackedSnapshot)
        ensures
            p@.header.timestamp == snapshot@.timestamp as i64,
            p@.header.entity_count == snapshot@.entities.len(),
            p@.header.component_count == p@.archetypes.len(),
            p@.header.archetype_count == p@.archetypes.len(),
            p@.entity_metadata =~= Seq::<EntityMetadataEntryV>::empty(),
            header_valid(p@.header),
            forall|a: int, b: int|
                0 <= a < b < p@.archetypes.len() ==> p@.archetypes[a].component_id
                    != p@.archetypes[b].component_id,
            forall|k: int|
                0 <= k < p@.archetypes.len() ==> (#[trigger] p@.archetypes[k]).entity_ids
                    == bearer_ids(snapshot@.entities, p@.archetypes[k].component_id)
                    && p@.archetypes[k].entity_ids.len() > 0 && p@.archetypes[k].data
                    == ComponentDataV::Blob(Seq::<u8>::empty()),
            forall|a: int, b: int|
                0 <= a < snapshot@.entities.len() && 0 <= b < snapshot@.entities[a].components.len()
                    ==> has_archetype_for(
                    p@.archetypes,
                    #[trigger] snapshot@.entities[a].components[b],
                ),
    {
        let ghost entities = snapshot.entities.deep_view();
        let mut packed = PackedSnapshot::new();
        packed.header.timestamp = snapshot.timestamp as i64;
        let n = snapshot.entities.len();

        let mut kinds: Vec<String> = Vec::new();
        let mut i: usize = 0;
        while i < n
            invariant
                i <= n,
                n == snapshot.entities@.len(),
                entities == snapshot.entities.deep_view(),
                forall|a: int, b: int|
                    0 <= a < b < kinds@.len() ==> kinds.deep_view()[a] != kinds.deep_view()[b],
                forall|k: int|
                    0 <= k < kinds@.len() ==> kind_occurs(
                        entities,
                        #[trigger] kinds.deep_view()[k],
                    ),
                forall|a: int, b: int|
                    0 <= a < i && 0 <= b < entities[a].components.len()
                        ==> kinds.deep_view().contains(#[trigger] entities[a].components[b]),
            decreases n - i,
        {
            let m = snapshot.entities[i].components.len();
            let mut j: usize = 0;
            while j < m
                invariant
                    i < n,
                    j <= m,
                    n == snapshot.entities@.len(),
                    m == snapshot.entities@[i as int].components@.len(),
                    entities == snapshot.entities.deep_view(),
                    forall|a: int, b: int|
                        0 <= a < b < kinds@.len() ==> kinds.deep_view()[a] != kinds.deep_view()[b],
                    forall|k: int|
                        0 <= k < kinds@.len() ==> kind_occurs(
                            entities,
                            #[trigger] kinds.deep_view()[k],
                        ),
                    forall|a: int, b: int|
                        0 <= a < i && 0 <= b < entities[a].components.len()
                            ==> kinds.deep_view().contains(#[trigger] entities[a].components[b]),
                    forall|b: int|
                        0 <= b < j ==> kinds.deep_view().contains(
                            #[trigger] entities[i as int].components[b],
                        ),
                decreases m - j,
            {
                proof {
                    assert(entities[i as int].components[j as int]
                        == snapshot.entities@[i as int].components@[j as int]@);
                }
                if !contains_str(&kinds, snapshot.entities[i].components[j].as_str()) {
                    let ghost prev = kinds.deep_view();
                    kinds.push(snapshot.entities[i].components[j].clone());
                    proof {
                        assert(kinds.deep_view() =~= prev.push(
                            entities[i as int].components[j as int],
                        ));
                        assert forall|a: int, b: int|
                            0 <= a < i && 0 <= b < entities[a].components.len() implies kinds
                            .deep_view().contains(#[trigger] entities[a].components[b]) by {
                            let k0 = choose|k0: int|
                                0 <= k0 < prev.len() && prev[k0] == entities[a].components[b];
                            assert(kinds.deep_view()[k0] == entities[a].components[b]);
                        }
                        assert forall|b: int| 0 <= b < j + 1 implies kinds.deep_view().contains(
                            #[trigger] entities[i as int].components[b],
                        ) by {
                            if b < j {
                                let k0 = choose|k0: int|
                                    0 <= k0 < prev.len() && prev[k0] == entities[i as int].components[b];
                                assert(kinds.deep_view()[k0] == entities[i as int].components[b]);
                            } else {
                                assert(kinds.deep_view()[prev.len() as int] == entities[i as int].components[b]);
                            }
                        }
                        assert forall|k2: int|
                            0 <= k2 < kinds@.len() implies kind_occurs(
                            entities,
                            #[trigger] kinds.deep_view()[k2],
                        ) by {
                            if k2 < prev.len() {
                                assert(kinds.deep_view()[k2] == prev[k2]);
                            } else {
                                assert(kinds.deep_view()[k2] == entities[i as int].components[j as int]);
                                assert(kind_occurs(entities, entities[i as int].components[j as int]));
                            }
                        }
                    }
                } else {
                    proof {
                        assert forall|b: int| 0 <= b < j + 1 implies kinds.deep_view().contains(
                            #[trigger] entities[i as int].components[b],
                        ) by {}
                    }
                }
                j += 1;
            }
            proof {
                assert forall|a: int, b: int|
                    0 <= a < i + 1 && 0 <= b < entities[a].components.len() implies kinds
                    .deep_view().contains(#[trigger] entities[a].components[b]) by {}
            }
            i += 1;
        }

        let mut archetypes: Vec<ComponentArchetype> = Vec::new();
        let kn = kinds.len();
        let mut k: usize = 0;
        while k < kn
            invariant
                k <= kn,
                kn == kinds@.len(),
                n == snapshot.entities@.len(),
                entities == snapshot.entities.deep_view(),
                forall|a: int, b: int|
                    0 <= a < b < kinds@.len() ==> kinds.deep_view()[a] != kinds.deep_view()[b],
                forall|q: int|
                    0 <= q < kinds@.len() ==> kind_occurs(
                        entities,
                        #[trigger] kinds.deep_view()[q],
                    ),
                archetypes@.len() == k,
                forall|q: int|
                    0 <= q < k ==> (#[trigger] archetypes.deep_view()[q]).component_id
                        == kinds.deep_view()[q],
                forall|q: int|
                    0 <= q < k ==> (#[trigger] archetypes.deep_view()[q]).entity_ids == bearer_ids(
                        entities,
                        kinds.deep_view()[q],
                    ) && archetypes.deep_view()[q].entity_ids.len() > 0
                        && archetypes.deep_view()[q].data == ComponentDataV::Blob(
                        Seq::<u8>::empty(),
                    ),
            decreases kn - k,
        {
            let cid = kinds[k].clone();
            let mut ids: Vec<u32> = Vec::new();
            let mut i2: usize = 0;
            proof {
                assert(cid@ == kinds.deep_view()[k as int]);
                assert(bearer_ids(entities.take(0), cid@) =~= Seq::<u32>::empty()) by {
                    reveal(Seq::filter);
                    assert(entities.take(0) =~= Seq::<WorldEntityV>::empty());
                }
            }
            while i2 < n
                invariant
                    i2 <= n,
                    n == snapshot.entities@.len(),
                    entities == snapshot.entities.deep_view(),
                    ids@ == bearer_ids(entities.take(i2 as int), cid@),
                decreases n - i2,
            {
                proof {
                    assert(entities[i2 as int].components
                        == snapshot.entities@[i2 as int].components.deep_view());
                    assert(entities[i2 as int].id == snapshot.entities@[i2 as int].id);
                    lemma_bearer_ids_step(entities, i2 as int, cid@);
                }
                if contains_str(&snapshot.entities[i2].components, cid.as_str()) {
                    ids.push(snapshot.entities[i2].id);
                    proof {
                        assert(ids@ =~= bearer_ids(entities.take(i2 as int + 1), cid@));
                    }
                } else {
                    proof {
                        assert(ids@ =~= bearer_ids(entities.take(i2 as int + 1), cid@));
                    }
                }
                i2 += 1;
            }
            proof {
                assert(entities.take(n as int) =~= entities);
                broadcast use vstd::seq_lib::group_filter_ensures;

                assert(kind_occurs(entities, cid@));
                let w = choose|a: int, b: int|
                    0 <= a < entities.len() && 0 <= b < entities[a].components.len() && cid@ == (
                    #[trigger] entities[a].components[b]);
                assert(bears(entities[w.0], cid@));
                assert(entities.filter(|e: WorldEntityV| e.components.contains(cid@)).contains(
                    entities[w.0],
                ));
                assert(ids@.len() > 0);
            }
            let ghost prev_arch = archetypes.deep_view();
            let arch = ComponentArchetype {
                component_id: cid,
                entity_ids: ids,
                data: ComponentData::Blob(Vec::new()),
            };
            archetypes.push(arch);
            proof {
                assert(archetypes.deep_view() =~= prev_arch.push(arch@));
            }
            k += 1;
        }

        packed.header.entity_count = n as u64;
        let archetype_count = archetypes.len();
        packed.header.component_count = archetype_count as u64;
        packed.header.archetype_count = archetype_count as u64;
        let ghost archv = archetypes.deep_view();
        let ghost kindsv = kinds.deep_view();
        proof {
            assert(archv.len() == kindsv.len());
        }
        packed.archetypes = archetypes;
        proof {
            assert(packed@.archetypes == archv);
            assert forall|a: int, b: int|
                0 <= a < snapshot@.entities.len() && 0 <= b
                    < snapshot@.entities[a].components.len() implies has_archetype_for(
                packed@.archetypes,
                #[trigger] snapshot@.entities[a].components[b],
            ) by {
                assert(kindsv.contains(entities[a].components[b]));
                let q = choose|q: int|
                    0 <= q < kindsv.len() && kindsv[q] == entities[a].components[b];
                assert(archv[q].component_id == kindsv[q]);
                assert(packed@.archetypes[q].component_id == entities[a].components[b]);
            }
        }
        packed
    }
}

} // verus!
