use lroot::variant::{
    dirs_beside, elf_interp, find_intercept, interp_header, interp_text, list_places, scan_table,
    trim_interp, variant_file, variant_name, variant_or_default, InterpTable, Probe, TableScan,
};

fn image(class: u8, entsize: u16, interp: &[u8]) -> Vec<u8> {
    let mut f = vec![0u8; 64];
    f[..4].copy_from_slice(&[0x7f, b'E', b'L', b'F']);
    f[4] = class;
    if class == 2 {
        f[32..40].copy_from_slice(&64u64.to_le_bytes());
        f[54..56].copy_from_slice(&entsize.to_le_bytes());
        f[56..58].copy_from_slice(&1u16.to_le_bytes());
    } else {
        f[28..32].copy_from_slice(&64u32.to_le_bytes());
        f[42..44].copy_from_slice(&entsize.to_le_bytes());
        f[44..46].copy_from_slice(&1u16.to_le_bytes());
    }
    let mut entry = vec![0u8; entsize as usize];
    let at = 64 + entsize as u64;
    if entsize >= 4 {
        entry[..4].copy_from_slice(&3u32.to_le_bytes());
    }
    if class == 2 && entsize >= 40 {
        entry[8..16].copy_from_slice(&at.to_le_bytes());
        entry[32..40].copy_from_slice(&(interp.len() as u64).to_le_bytes());
    } else if class != 2 && entsize >= 20 {
        entry[4..8].copy_from_slice(&(at as u32).to_le_bytes());
        entry[16..20].copy_from_slice(&(interp.len() as u32).to_le_bytes());
    }
    f.extend(entry);
    f.extend_from_slice(interp);
    f
}

#[test]
fn the_interpreter_decides_the_variant() {
    assert_eq!(variant_name(2, "/lib64/ld-linux-x86-64.so.2"), "64-glibc");
    assert_eq!(variant_name(1, "/lib/ld-linux.so.2"), "32-glibc");
    assert_eq!(variant_name(2, "/lib/ld-musl-aarch64.so.1"), "64-musl");
    assert_eq!(variant_name(1, "/lib/ld-musl-armhf.so.1"), "32-musl");
    assert_eq!(variant_name(9, ""), "64-glibc");
    assert_eq!(variant_or_default(None), "64-glibc");
    assert_eq!(variant_or_default(Some((1, "musl"))), "32-musl");
    assert_eq!(variant_file("64-musl"), "libintercept-64-musl.so");
}

#[test]
fn probing_finds_class_and_interpreter() {
    match elf_interp(&image(2, 56, b"/lib/ld-musl-x86_64.so.1\0")) {
        Probe::Program(class, interp) => {
            assert_eq!(class, 2);
            assert_eq!(interp, "/lib/ld-musl-x86_64.so.1");
        }
        _ => panic!("no program"),
    }
    match elf_interp(&image(1, 32, b"\0/lib/ld-linux.so.2\0\0")) {
        Probe::Program(class, interp) => {
            assert_eq!(class, 1);
            assert_eq!(interp, "/lib/ld-linux.so.2");
        }
        _ => panic!("no program"),
    }
}

#[test]
fn probing_rejects_what_it_cannot_read() {
    assert!(matches!(elf_interp(b"#!/bin/sh"), Probe::NoProgram));
    assert!(matches!(elf_interp(&[0; 64]), Probe::NoProgram));
    let whole = image(2, 56, b"/ld");
    assert!(matches!(elf_interp(&whole[..100]), Probe::NoProgram));
    assert!(matches!(elf_interp(&whole[..122]), Probe::NoProgram));
    assert!(matches!(elf_interp(&image(2, 39, b"/ld")), Probe::Malformed));
    assert!(matches!(elf_interp(&image(1, 19, b"/ld")), Probe::Malformed));
    assert!(matches!(elf_interp(&image(2, 0, b"/ld")), Probe::Malformed));
}

#[test]
fn a_program_without_entries_names_no_interpreter() {
    let mut f = image(2, 56, b"/ld");
    f[56] = 0;
    match elf_interp(&f) {
        Probe::Program(class, interp) => {
            assert_eq!(class, 2);
            assert_eq!(interp, "");
        }
        _ => panic!("no program"),
    }
    f[32..40].copy_from_slice(&u64::MAX.to_le_bytes());
    assert!(matches!(elf_interp(&f), Probe::NoProgram));
}

#[test]
fn headers_and_tables_are_read_apart() {
    let f = image(2, 56, b"/ld");
    let t = InterpTable { class: 2, offset: 64, entsize: 56, num: 1 };
    assert!(interp_header(&f[..64]) == Some(t));
    assert!(scan_table(t, &f[64..]) == TableScan::Interp(120, 3));
    assert!(scan_table(t, &f[64..100]) == TableScan::Truncated);
    assert!(scan_table(InterpTable { entsize: 3, ..t }, &f[64..]) == TableScan::Malformed);
    assert!(scan_table(t, &[0; 56]) == TableScan::NoInterp);
}

#[test]
fn interpreter_bytes_become_text() {
    assert_eq!(interp_text(b"/lib/ld.so\0"), "/lib/ld.so");
    assert_eq!(interp_text(&[0, b'/', 0xff, b'x', 0]), "/\u{fffd}x");
    assert_eq!(trim_interp("\0\0"), "");
    assert_eq!(trim_interp("a\0b\0"), "a\0b");
}

#[test]
fn libraries_are_looked_for_in_order() {
    let list = find_intercept("64-musl", Some("/data/usr"), Some("/opt/lroot/bin/lroot"));
    assert_eq!(
        list,
        vec![
            "/usr/lib/libintercept-64-musl.so",
            "/usr/local/lib/libintercept-64-musl.so",
            "/data/usr/lib/libintercept-64-musl.so",
            "/opt/lroot/bin/libintercept-64-musl.so",
            "/opt/lroot/libintercept-64-musl.so",
            "/usr/lib/libintercept.so",
            "/usr/local/lib/libintercept.so",
            "/data/usr/lib/libintercept.so",
            "/opt/lroot/bin/libintercept.so",
            "/opt/lroot/libintercept.so",
        ]
    );
    assert_eq!(list_places("x.so", None, &[]), vec!["/usr/lib/x.so", "/usr/local/lib/x.so"]);
}

#[test]
fn directories_beside_a_program_follow_its_parents() {
    assert_eq!(dirs_beside(None), Vec::<String>::new());
    assert_eq!(dirs_beside(Some("/usr/bin/lroot")), vec!["/usr/bin", "/usr"]);
    assert_eq!(dirs_beside(Some("/lroot")), vec!["/"]);
    assert_eq!(dirs_beside(Some("/")), Vec::<String>::new());
}
