use lroot::elf::{
    get_u16, get_u32, get_u64, probe, probe_header, probe_interp, probe_table, read_elf_info,
    ByteOrder, HeaderStep, ProgramTable, Progress, Stage, TableStep, EM_386, EM_AARCH64, EM_X86_64,
    HEADER_LEN,
};

fn put(image: &mut Vec<u8>, at: usize, bytes: &[u8]) {
    if image.len() < at + bytes.len() {
        image.resize(at + bytes.len(), 0);
    }
    image[at..at + bytes.len()].copy_from_slice(bytes);
}

fn elf64(machine: u16, entsize: u16, num: u16) -> Vec<u8> {
    let mut image = vec![0; HEADER_LEN];
    put(&mut image, 0, &[0x7f, b'E', b'L', b'F', 2]);
    put(&mut image, 18, &machine.to_le_bytes());
    put(&mut image, 32, &64u64.to_le_bytes());
    put(&mut image, 54, &entsize.to_le_bytes());
    put(&mut image, 56, &num.to_le_bytes());
    image
}

fn dynamic64(interp: &[u8]) -> Vec<u8> {
    let mut image = elf64(EM_X86_64, 56, 2);
    put(&mut image, 64, &1u32.to_le_bytes());
    put(&mut image, 120, &3u32.to_le_bytes());
    put(&mut image, 128, &200u64.to_le_bytes());
    put(&mut image, 152, &(interp.len() as u64).to_le_bytes());
    put(&mut image, 200, interp);
    image
}

#[test]
fn numbers_are_read_from_their_low_byte_up() {
    let s = [1, 2, 3, 4, 5, 6, 7, 8, 9];
    assert_eq!(get_u16(&s, 1), 0x0302);
    assert_eq!(get_u32(&s, 1), 0x05040302);
    assert_eq!(get_u64(&s, 1), 0x0908070605040302);
}

#[test]
fn a_dynamic_program_names_its_interpreter() {
    let info = read_elf_info(ByteOrder::Little, &dynamic64(b"/lib64/ld-linux-x86-64.so.2\0")).unwrap();
    assert_eq!(info.machine, EM_X86_64);
    assert!(!info.is_static);
    assert_eq!(info.interp, b"/lib64/ld-linux-x86-64.so.2".to_vec());
}

#[test]
fn a_program_without_interpreter_is_static() {
    let mut image = elf64(EM_AARCH64, 56, 1);
    put(&mut image, 64, &1u32.to_le_bytes());
    let info = read_elf_info(ByteOrder::Little, &image).unwrap();
    assert_eq!(info.machine, EM_AARCH64);
    assert!(info.is_static);
    assert!(info.interp.is_empty());
    let none = read_elf_info(ByteOrder::Little, &elf64(EM_X86_64, 56, 0)).unwrap();
    assert!(none.is_static);
    let short = read_elf_info(ByteOrder::Little, &elf64(EM_X86_64, 55, 3)).unwrap();
    assert!(short.is_static);
}

#[test]
fn files_that_are_no_elf_are_rejected() {
    assert!(read_elf_info(ByteOrder::Little, b"#!/bin/sh\n").is_none());
    assert!(read_elf_info(ByteOrder::Little, b"").is_none());
    let mut image = elf64(EM_X86_64, 56, 0);
    image[4] = 3;
    assert!(read_elf_info(ByteOrder::Little, &image).is_none());
    let cut = elf64(EM_X86_64, 56, 0)[..51].to_vec();
    assert!(read_elf_info(ByteOrder::Little, &cut).is_none());
    let kept = elf64(EM_X86_64, 56, 0)[..52].to_vec();
    assert!(read_elf_info(ByteOrder::Little, &kept).is_some());
}

#[test]
fn thirty_two_bit_programs_are_read_too() {
    let mut image = vec![0; HEADER_LEN];
    put(&mut image, 0, &[0x7f, b'E', b'L', b'F', 1]);
    put(&mut image, 18, &EM_386.to_le_bytes());
    put(&mut image, 28, &64u32.to_le_bytes());
    put(&mut image, 42, &32u16.to_le_bytes());
    put(&mut image, 44, &1u16.to_le_bytes());
    put(&mut image, 64, &3u32.to_le_bytes());
    put(&mut image, 68, &96u32.to_le_bytes());
    put(&mut image, 80, &19u32.to_le_bytes());
    put(&mut image, 96, b"/lib/ld-linux.so.2\0");
    let info = read_elf_info(ByteOrder::Little, &image).unwrap();
    assert_eq!(info.machine, EM_386);
    assert_eq!(info.interp, b"/lib/ld-linux.so.2".to_vec());
}

#[test]
fn an_interpreter_of_unreasonable_size_is_not_read() {
    let mut image = dynamic64(b"/x");
    put(&mut image, 152, &4096u64.to_le_bytes());
    let info = read_elf_info(ByteOrder::Little, &image).unwrap();
    assert!(!info.is_static);
    assert!(info.interp.is_empty());
    put(&mut image, 152, &0u64.to_le_bytes());
    assert!(read_elf_info(ByteOrder::Little, &image).unwrap().interp.is_empty());
}

#[test]
fn missing_parts_of_a_file_read_as_zeros() {
    let image = elf64(EM_X86_64, 56, 4);
    let info = read_elf_info(ByteOrder::Little, &image).unwrap();
    assert!(info.is_static);
    let mut far = dynamic64(b"/x");
    put(&mut far, 128, &u64::MAX.to_le_bytes());
    assert!(read_elf_info(ByteOrder::Little, &far).unwrap().interp.is_empty());
}

#[test]
fn steps_tell_what_is_wanted_next() {
    let image = dynamic64(b"/ld\0");
    let table = ProgramTable { machine: EM_X86_64, is_64: true, offset: 64, entsize: 56, num: 2 };
    assert!(probe_header(ByteOrder::Little, &image[..64], 64) == HeaderStep::Table(table));
    assert!(probe_header(ByteOrder::Little, &image[..64], 51) == HeaderStep::Reject);
    assert!(probe_header(ByteOrder::Little, &image[..64], -1) == HeaderStep::Reject);
    assert_eq!(table.byte_size(), 112);
    assert!(probe_table(ByteOrder::Little, table, &image[64..176]) == TableStep::Interp(200, 4));
    assert!(probe_table(ByteOrder::Little, table, &[0; 112]) == TableStep::Static);
    assert_eq!(probe_interp(b"/ld\0\0"), b"/ld".to_vec());
}

#[test]
fn a_big_endian_host_reads_some_fields_its_own_way() {
    let mut image = elf64(0, 56, 1);
    put(&mut image, 18, &[0, 62]);
    put(&mut image, 64, &3u32.to_le_bytes());
    put(&mut image, 72, &130u64.to_be_bytes());
    put(&mut image, 96, &3u64.to_be_bytes());
    put(&mut image, 130, b"/ld");
    let info = read_elf_info(ByteOrder::Big, &image).unwrap();
    assert_eq!(info.machine, 62);
    assert_eq!(info.interp, b"/ld".to_vec());
}

fn stages(image: &[u8]) -> Vec<(u64, usize)> {
    let mut stage = Stage::Header;
    let mut out = vec![];
    loop {
        let (offset, size) = stage.extent();
        out.push((offset, size));
        let from = offset as usize;
        let n = size.min(image.len().saturating_sub(from));
        let mut part = vec![0; size];
        part[..n].copy_from_slice(&image[from..from + n]);
        match probe(ByteOrder::Little, stage, &part, n as i64) {
            Progress::More(more) => stage = more,
            Progress::Known(info) => {
                let whole = read_elf_info(ByteOrder::Little, image);
                assert_eq!(info.is_some(), whole.is_some());
                if let (Some(a), Some(b)) = (info, whole) {
                    assert_eq!((a.machine, a.is_static, a.interp), (b.machine, b.is_static, b.interp));
                }
                return out;
            }
        }
    }
}

#[test]
fn a_file_is_read_part_by_part() {
    assert_eq!(stages(&dynamic64(b"/ld\0")), vec![(0, 64), (64, 112), (200, 4)]);
    assert_eq!(stages(&elf64(EM_AARCH64, 56, 1)), vec![(0, 64), (64, 56)]);
    assert_eq!(stages(&elf64(EM_AARCH64, 56, 0)), vec![(0, 64)]);
    assert_eq!(stages(b"#!/bin/sh\n"), vec![(0, 64)]);
}
