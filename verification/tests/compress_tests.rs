use haske_core::compress::{
    brotli_compress, brotli_decompress, gzip_compress, gzip_decompress, zstd_compress,
    zstd_decompress,
};

fn sample() -> Vec<u8> {
    let mut data = Vec::new();
    for i in 0..4000u32 {
        data.push((i % 7) as u8);
        data.push((i % 13) as u8);
    }
    data
}

#[test]
fn gzip_roundtrip() {
    let data = sample();
    let packed = gzip_compress(&data, None);
    assert!(packed.len() < data.len());
    assert_eq!(gzip_decompress(&packed), Ok(data));
}

#[test]
fn gzip_roundtrip_with_level() {
    let data = sample();
    let packed = gzip_compress(&data, Some(9));
    assert_eq!(gzip_decompress(&packed), Ok(data));
}

#[test]
fn gzip_rejects_garbage() {
    assert!(gzip_decompress(&[1, 2, 3, 4]).is_err());
}

#[test]
fn zstd_roundtrip() {
    let data = sample();
    let packed = zstd_compress(&data, None).unwrap();
    assert_eq!(zstd_decompress(&packed), Ok(data));
}

#[test]
fn zstd_rejects_garbage() {
    assert!(zstd_decompress(&[9, 9, 9, 9]).is_err());
}

#[test]
fn brotli_roundtrip() {
    let data = sample();
    let packed = brotli_compress(&data, None);
    assert_eq!(brotli_decompress(&packed), Ok(data));
}

#[test]
fn empty_payloads_roundtrip() {
    assert_eq!(gzip_decompress(&gzip_compress(&[], None)), Ok(Vec::new()));
    assert_eq!(
        zstd_decompress(&zstd_compress(&[], None).unwrap()),
        Ok(Vec::new())
    );
    assert_eq!(brotli_decompress(&brotli_compress(&[], None)), Ok(Vec::new()));
}
