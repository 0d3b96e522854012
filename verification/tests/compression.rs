use tx2pack::format::CompressionType;
use tx2pack::{compress, decompress, CompressionCodec};

#[test]
fn test_zstd_compression() {
    let data = b"Hello, World! This is a test of ZSTD compression.".repeat(100);

    let compressed = compress(&data, CompressionCodec::zstd_default()).unwrap();
    assert!(compressed.len() < data.len());

    let decompressed = decompress(&compressed, CompressionType::Zstd).unwrap();
    assert_eq!(data, decompressed);
}

#[test]
fn test_lz4_compression() {
    let data = b"Hello, World! This is a test of LZ4 compression.".repeat(100);

    let compressed = compress(&data, CompressionCodec::Lz4).unwrap();
    assert!(compressed.len() < data.len());

    let decompressed = decompress(&compressed, CompressionType::Lz4).unwrap();
    assert_eq!(data, decompressed);
}

#[test]
fn test_no_compression() {
    let data = b"Hello, World!";

    let compressed = compress(data, CompressionCodec::none()).unwrap();
    assert_eq!(data, compressed.as_slice());

    let decompressed = decompress(&compressed, CompressionType::Uncompressed).unwrap();
    assert_eq!(data, decompressed.as_slice());
}

#[test]
fn test_zstd_levels_roundtrip() {
    let data = b"abcabcabc-0123456789".repeat(37);
    for codec in [
        CompressionCodec::zstd_fast(),
        CompressionCodec::zstd_default(),
        CompressionCodec::zstd_best(),
    ] {
        let compressed = compress(&data, codec).unwrap();
        let decompressed = decompress(&compressed, CompressionType::Zstd).unwrap();
        assert_eq!(data, decompressed);
    }
}

#[test]
fn test_empty_roundtrip() {
    let data: [u8; 0] = [];
    for (codec, family) in [
        (CompressionCodec::none(), CompressionType::Uncompressed),
        (CompressionCodec::zstd_default(), CompressionType::Zstd),
        (CompressionCodec::Lz4, CompressionType::Lz4),
    ] {
        let compressed = compress(&data, codec).unwrap();
        let decompressed = decompress(&compressed, family).unwrap();
        assert!(decompressed.is_empty());
    }
}

#[test]
fn test_decompress_garbage_fails() {
    let garbage = [0x01u8, 0x02, 0x03, 0x04, 0x05];
    let r = decompress(&garbage, CompressionType::Zstd);
    assert!(matches!(r, Err(tx2pack::PackError::Decompression(_))));
}
