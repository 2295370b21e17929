use shell_exec::zipfile::{
    ZipEntry, extract_entry, find_eocd, parse_central_directory, read_u16_le, read_u32_le,
    write_u16_le, write_u32_le,
};

fn push_bytes(out: &mut Vec<u8>, bytes: &[u8]) {
    for b in bytes {
        out.push(*b);
    }
}

/// Builds a one-entry archive with the store method, mirroring the layout an
/// archive writer produces.
fn build_store_archive(name: &str, data: &[u8]) -> Vec<u8> {
    let mut output: Vec<u8> = Vec::new();
    // local file header
    write_u32_le(&mut output, 0x04034b50);
    write_u16_le(&mut output, 20);
    write_u16_le(&mut output, 0);
    write_u16_le(&mut output, 0);
    write_u16_le(&mut output, 0);
    write_u16_le(&mut output, 0);
    write_u32_le(&mut output, 0);
    write_u32_le(&mut output, data.len() as u32);
    write_u32_le(&mut output, data.len() as u32);
    write_u16_le(&mut output, name.len() as u16);
    write_u16_le(&mut output, 0);
    push_bytes(&mut output, name.as_bytes());
    push_bytes(&mut output, data);
    // central directory
    let cd_offset = output.len() as u32;
    write_u32_le(&mut output, 0x02014b50);
    write_u16_le(&mut output, 20);
    write_u16_le(&mut output, 20);
    write_u16_le(&mut output, 0);
    write_u16_le(&mut output, 0);
    write_u16_le(&mut output, 0);
    write_u16_le(&mut output, 0);
    write_u32_le(&mut output, 0);
    write_u32_le(&mut output, data.len() as u32);
    write_u32_le(&mut output, data.len() as u32);
    write_u16_le(&mut output, name.len() as u16);
    write_u16_le(&mut output, 0);
    write_u16_le(&mut output, 0);
    write_u16_le(&mut output, 0);
    write_u16_le(&mut output, 0);
    write_u32_le(&mut output, 0);
    write_u32_le(&mut output, 0);
    push_bytes(&mut output, name.as_bytes());
    let cd_size = output.len() as u32 - cd_offset;
    // end of central directory
    write_u32_le(&mut output, 0x06054b50);
    write_u16_le(&mut output, 0);
    write_u16_le(&mut output, 0);
    write_u16_le(&mut output, 1);
    write_u16_le(&mut output, 1);
    write_u32_le(&mut output, cd_size);
    write_u32_le(&mut output, cd_offset);
    write_u16_le(&mut output, 0);
    output
}

#[test]
fn little_endian_round_trip() {
    let mut out: Vec<u8> = Vec::new();
    write_u16_le(&mut out, 0x1234);
    write_u32_le(&mut out, 0xDEADBEEF);
    assert_eq!(out, vec![0x34, 0x12, 0xEF, 0xBE, 0xAD, 0xDE]);
    assert_eq!(read_u16_le(&out, 0), 0x1234);
    assert_eq!(read_u32_le(&out, 2), 0xDEADBEEF);
}

#[test]
fn eocd_is_found_at_the_end() {
    let archive = build_store_archive("hello.txt", b"hello zip\n");
    let pos = find_eocd(&archive).unwrap();
    assert_eq!(pos, archive.len() - 22);
    assert_eq!(find_eocd(b"not a zip"), None);
}

#[test]
fn central_directory_lists_the_entry() {
    let archive = build_store_archive("hello.txt", b"hello zip\n");
    let entries = parse_central_directory(&archive).unwrap();
    assert_eq!(entries.len(), 1);
    assert_eq!(entries[0].name, "hello.txt");
    assert_eq!(entries[0].method, 0);
    assert_eq!(entries[0].compressed_size, 10);
    assert_eq!(entries[0].uncompressed_size, 10);
    assert_eq!(entries[0].offset, 0);
    assert!(parse_central_directory(b"junk").is_err());
}

#[test]
fn extract_stored_entry() {
    let archive = build_store_archive("hello.txt", b"hello zip\n");
    let entries = parse_central_directory(&archive).unwrap();
    let data = extract_entry(&archive, &entries[0]).unwrap();
    assert_eq!(data, b"hello zip\n");
}

#[test]
fn extract_deflated_entry() {
    // compress a payload with the raw-deflate encoder, place it behind a
    // local header, and check that extraction restores the payload
    let payload = b"the quick brown fox jumps over the lazy dog";
    let mut encoder = flate2::write::DeflateEncoder::new(
        Vec::new(),
        flate2::Compression::default(),
    );
    std::io::Write::write_all(&mut encoder, payload).unwrap();
    let compressed = encoder.finish().unwrap();

    let mut data: Vec<u8> = Vec::new();
    write_u32_le(&mut data, 0x04034b50);
    write_u16_le(&mut data, 20);
    write_u16_le(&mut data, 0);
    write_u16_le(&mut data, 8);
    write_u16_le(&mut data, 0);
    write_u16_le(&mut data, 0);
    write_u32_le(&mut data, 0);
    write_u32_le(&mut data, compressed.len() as u32);
    write_u32_le(&mut data, payload.len() as u32);
    write_u16_le(&mut data, 1);
    write_u16_le(&mut data, 0);
    data.push(b'f');
    push_bytes(&mut data, &compressed);

    let entry = ZipEntry {
        name: "f".to_string(),
        method: 8,
        compressed_size: compressed.len() as u32,
        uncompressed_size: payload.len() as u32,
        offset: 0,
    };
    let out = extract_entry(&data, &entry).unwrap();
    assert_eq!(out, payload);
}

#[test]
fn extract_rejects_unknown_method() {
    let archive = build_store_archive("hello.txt", b"hi");
    let entry = ZipEntry {
        name: "hello.txt".to_string(),
        method: 99,
        compressed_size: 2,
        uncompressed_size: 2,
        offset: 0,
    };
    assert!(extract_entry(&archive, &entry).is_err());
}
