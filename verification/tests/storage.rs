use sha2::Digest;
use tx2pack::format::{
    ComponentArchetype, ComponentData, FieldArray, FieldType, PackFormat, StructOfArraysData,
};
use tx2pack::wire::Wire;
use tx2pack::SnapshotHeader;
use tx2pack::{
    CompressionCodec, EncryptionKey, PackError, PackedSnapshot, SnapshotReader, SnapshotWriter,
};

#[test]
fn test_write_read_snapshot() {
    let snapshot = PackedSnapshot::new();

    let writer = SnapshotWriter::new();
    let bytes = writer.write_to_bytes(&snapshot).unwrap();

    let reader = SnapshotReader::new();
    let loaded = reader.read_from_bytes(&bytes).unwrap();

    assert_eq!(snapshot.header.version, loaded.header.version);
}

#[test]
fn test_encrypted_snapshot() {
    let snapshot = PackedSnapshot::new();
    let key = EncryptionKey::generate();

    let writer = SnapshotWriter::new().with_encryption(key.clone());
    let bytes = writer.write_to_bytes(&snapshot).unwrap();

    let reader = SnapshotReader::new().with_encryption(key);
    let loaded = reader.read_from_bytes(&bytes).unwrap();

    assert_eq!(snapshot.header.version, loaded.header.version);
}

fn position_snapshot() -> PackedSnapshot {
    let n = 1000u32;
    let entity_ids: Vec<u32> = (0..n).collect();
    let x: Vec<u32> = (0..n).map(|i| (1.5f32 * i as f32).to_bits()).collect();
    let y: Vec<u32> = (0..n).map(|i| (2.5f32 * i as f32).to_bits()).collect();
    let z: Vec<u32> = (0..n).map(|i| (3.5f32 * i as f32).to_bits()).collect();
    let soa = StructOfArraysData {
        field_names: vec!["x".to_owned(), "y".to_owned(), "z".to_owned()],
        field_types: vec![FieldType::F32, FieldType::F32, FieldType::F32],
        field_data: vec![FieldArray::F32(x), FieldArray::F32(y), FieldArray::F32(z)],
    };
    let archetype = ComponentArchetype {
        component_id: "Position".to_owned(),
        entity_ids,
        data: ComponentData::StructOfArrays(soa),
    };
    let mut snapshot = PackedSnapshot::new();
    snapshot.header.entity_count = n as u64;
    snapshot.header.component_count = 1;
    snapshot.header.archetype_count = 1;
    snapshot.archetypes.push(archetype);
    snapshot
}

#[test]
fn test_soa_roundtrip_zstd() {
    let snapshot = position_snapshot();
    let writer = SnapshotWriter::new().with_compression(CompressionCodec::zstd_default());
    let bytes = writer.write_to_bytes(&snapshot).unwrap();

    let reader = SnapshotReader::new();
    let loaded = reader.read_from_bytes(&bytes).unwrap();

    assert_eq!(loaded.header.version, 1);
    assert_eq!(loaded.header.archetype_count, 1);
    assert_eq!(loaded.header.entity_count, 1000);
    assert_eq!(loaded.archetypes.len(), 1);
    let arch = &loaded.archetypes[0];
    assert_eq!(arch.component_id, "Position");
    match &arch.data {
        ComponentData::StructOfArrays(soa) => {
            for (f, factor) in [(0usize, 1.5f32), (1, 2.5), (2, 3.5)] {
                match &soa.field_data[f] {
                    FieldArray::F32(bits) => {
                        for i in 0..1000usize {
                            assert_eq!(bits[i], (factor * i as f32).to_bits());
                        }
                    },
                    other => panic!("unexpected column: {:?}", other),
                }
            }
        },
        other => panic!("unexpected data: {:?}", other),
    }
    assert_eq!(loaded, snapshot);
}

#[test]
fn test_checksum_tampering() {
    let snapshot = position_snapshot();
    let writer = SnapshotWriter::new().with_compression(CompressionCodec::zstd_default());
    let mut bytes = writer.write_to_bytes(&snapshot).unwrap();

    let last = bytes.len() - 1;
    bytes[last] ^= 0xff;

    let reader = SnapshotReader::new();
    let r = reader.read_from_bytes(&bytes);
    assert!(matches!(r, Err(PackError::ChecksumMismatch)));
}

#[test]
fn test_wrong_key_read() {
    let snapshot = position_snapshot();
    let k1 = EncryptionKey::generate();
    let k2 = EncryptionKey::generate();

    let writer = SnapshotWriter::new().with_encryption(k1);
    let bytes = writer.write_to_bytes(&snapshot).unwrap();

    let reader = SnapshotReader::new().with_encryption(k2);
    let r = reader.read_from_bytes(&bytes);
    assert!(matches!(r, Err(PackError::Decryption(_))));
}

#[test]
fn test_missing_key_read() {
    let snapshot = PackedSnapshot::new();
    let key = EncryptionKey::generate();
    let writer = SnapshotWriter::new().with_encryption(key);
    let bytes = writer.write_to_bytes(&snapshot).unwrap();

    let reader = SnapshotReader::new();
    let r = reader.read_from_bytes(&bytes);
    assert!(matches!(r, Err(PackError::Decryption(_))));
}

#[test]
fn test_magic_tampering() {
    let snapshot = PackedSnapshot::new();
    let writer = SnapshotWriter::new();
    let mut bytes = writer.write_to_bytes(&snapshot).unwrap();

    bytes[0] = 0;

    let reader = SnapshotReader::new();
    let r = reader.read_from_bytes(&bytes);
    assert!(matches!(r, Err(PackError::InvalidFormat(_))));
}

#[test]
fn test_version_tampering() {
    let snapshot = PackedSnapshot::new();
    let writer = SnapshotWriter::new();
    let mut bytes = writer.write_to_bytes(&snapshot).unwrap();

    bytes[8] = 0;
    bytes[9] = 0;
    bytes[10] = 0;
    bytes[11] = 0;

    let reader = SnapshotReader::new();
    match reader.read_from_bytes(&bytes) {
        Err(PackError::VersionMismatch { expected, actual }) => {
            assert_eq!(expected, "1");
            assert_eq!(actual, "0");
        },
        other => panic!("unexpected outcome: {:?}", other.map(|_| ())),
    }
}

#[test]
fn test_format_compression_matrix() {
    for format in [PackFormat::Bincode, PackFormat::MessagePack] {
        for codec in [
            CompressionCodec::none(),
            CompressionCodec::zstd_default(),
            CompressionCodec::Lz4,
        ] {
            let mut snapshot = PackedSnapshot::new();
            snapshot.header.format = format;
            let writer = SnapshotWriter::new().with_compression(codec);
            let bytes = writer.write_to_bytes(&snapshot).unwrap();
            let reader = SnapshotReader::new();
            let loaded = reader.read_from_bytes(&bytes).unwrap();
            assert_eq!(loaded, snapshot);
        }
    }
}

#[test]
fn test_custom_format_rejected() {
    let mut snapshot = PackedSnapshot::new();
    snapshot.header.format = PackFormat::Custom;
    let writer = SnapshotWriter::new();
    let r = writer.write_to_bytes(&snapshot);
    assert!(matches!(r, Err(PackError::Serialization(_))));
}

#[test]
fn test_rewrite_same_config_decodes_equal() {
    let snapshot = position_snapshot();
    let key = EncryptionKey::generate();
    let writer = SnapshotWriter::new().with_encryption(key.clone());
    let b1 = writer.write_to_bytes(&snapshot).unwrap();
    let b2 = writer.write_to_bytes(&snapshot).unwrap();

    let reader = SnapshotReader::new().with_encryption(key);
    let s1 = reader.read_from_bytes(&b1).unwrap();
    let s2 = reader.read_from_bytes(&b2).unwrap();
    assert_eq!(s1, s2);
}

#[test]
fn test_header_describes_container() {
    let snapshot = position_snapshot();
    let writer = SnapshotWriter::new();
    let bytes = writer.write_to_bytes(&snapshot).unwrap();

    let (hdr, hlen) = <SnapshotHeader as Wire>::wire_read(&bytes, 0, PackFormat::Bincode).unwrap();
    assert_eq!(hlen, 117);
    assert_eq!(hdr.data_offset, 117);
    assert_eq!(hdr.data_size as usize, bytes.len() - 117);
    let digest: [u8; 32] = sha2::Sha256::digest(&bytes[117..]).into();
    assert_eq!(hdr.checksum, digest);
}
