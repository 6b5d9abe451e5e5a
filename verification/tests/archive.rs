use std::io::Write;

use lroot::archive::{packing, payload, unpacked, Packing};

fn gzip(data: &[u8]) -> Vec<u8> {
    let mut e = flate2::write::GzEncoder::new(Vec::new(), flate2::Compression::default());
    e.write_all(data).unwrap();
    e.finish().unwrap()
}

#[test]
fn compression_shows_in_the_first_bytes() {
    assert!(packing(&[0x1f, 0x8b]) == Packing::Gzip);
    assert!(packing(&[0x1f]) == Packing::Plain);
    assert!(packing(&[0xfd, b'7', b'z', b'X', b'Z', 0]) == Packing::Xz);
    assert!(packing(&[0xfd, b'7', b'z', b'X']) == Packing::Plain);
    assert!(packing(b"") == Packing::Plain);
}

#[test]
fn gzip_archives_are_decompressed() {
    let data = b"usr/\0\0\0 some bytes of an archive".repeat(1000);
    let packed = gzip(&data);
    assert_ne!(packed, data);
    let p = unpacked(&packed).unwrap();
    assert!(p.whole);
    assert_eq!(p.bytes, data);
    let mut trailing = packed.clone();
    trailing.extend(b"behind the first member");
    assert_eq!(unpacked(&trailing).unwrap().bytes, data);
}

#[test]
fn damaged_archives_are_not_whole() {
    let mut packed = gzip(b"contents");
    let n = packed.len();
    assert!(!unpacked(&packed[..n - 1]).unwrap().whole);
    packed[n - 8] ^= 1;
    assert!(!unpacked(&packed).unwrap().whole);
    assert!(!unpacked(&[0x1f, 0x8b]).unwrap().whole);
}

#[test]
fn plain_archives_are_taken_as_they_are() {
    let p = unpacked(b"plain tar").unwrap();
    assert!(p.whole);
    assert_eq!(p.bytes, b"plain tar".to_vec());
}

#[test]
fn xz_archives_are_refused() {
    let xz = [0xfd, b'7', b'z', b'X', b'Z', 0];
    assert_eq!(
        unpacked(&xz).err().unwrap(),
        "xz-compressed tarballs not supported (need liblzma)"
    );
    assert!(payload(&xz, vec![1], true).is_err());
    let kept = payload(&[0x1f, 0x8b], vec![1, 2], false).unwrap();
    assert!(!kept.whole);
    assert_eq!(kept.bytes, vec![1, 2]);
}
