//! Snapshot-packaging engine for an entity/component world model.
//!
//! A world state is packed into a columnar, self-describing binary container:
//! a fixed-layout header followed by a payload that is the serialized body,
//! compressed and optionally sealed with authenticated encryption. On top of
//! the codec sit checkpoint management and two replay surfaces (a step-through
//! cursor and a time-indexed nearest-neighbour seek).

pub mod body;
pub mod checkpoint;
pub mod clock;
pub mod compression;
pub mod encryption;
pub mod container;
pub mod error;
pub mod format;
pub mod metadata;
pub mod replay;
pub mod storage;
pub mod text;
pub mod wire;

pub use checkpoint::{Checkpoint, CheckpointLedger};
pub use compression::{compress, decompress, CompressionCodec};
pub use encryption::{decrypt_snapshot, encrypt_snapshot, EncryptionKey};
pub use error::PackError;
pub use format::{
    ComponentArchetype, ComponentData, CompressionType, EntityMetadata, EntityMetadataEntry,
    FieldArray, FieldType, PackFormat, PackedSnapshot, SnapshotHeader, StructOfArraysData,
    WorldEntity, WorldSnapshot,
};
pub use metadata::SnapshotMetadata;
pub use replay::{ReplayEngine, TimeTravel};
pub use storage::{SnapshotReader, SnapshotWriter};
