use embedinator::binary::BinaryWriter;
use embedinator::coff::{CoffWriter, RelocationType};
use embedinator::TargetType;

fn u16_at(b: &[u8], at: usize) -> u16 {
    u16::from_le_bytes([b[at], b[at + 1]])
}

fn u32_at(b: &[u8], at: usize) -> u32 {
    u32::from_le_bytes([b[at], b[at + 1], b[at + 2], b[at + 3]])
}

#[test]
fn relocation_type_by_target() {
    assert_eq!(RelocationType::Rva32.id(TargetType::I386), 0x0007);
    assert_eq!(RelocationType::Rva32.id(TargetType::X86_64), 0x0003);
    assert_eq!(RelocationType::Rva32.id(TargetType::Aarch64), 0x0002);
    assert_eq!(TargetType::I386.id(), 0x014C);
    assert_eq!(TargetType::X86_64.id(), 0x8664);
    assert_eq!(TargetType::Aarch64.id(), 0xAA64);
}

#[test]
fn alignment_counts_from_the_section() {
    let mut w = CoffWriter::new(TargetType::X86_64);
    assert_eq!(w.pos(), 60);
    // 60 is no multiple of eight, the section offset 0 is
    w.align_to(8);
    assert_eq!(w.pos(), 60);
    w.write_u8(1);
    w.align_to(8);
    assert_eq!(w.pos(), 68);
    w.align_to(8);
    assert_eq!(w.pos(), 68);
}

#[test]
fn one_resource_front_to_back() {
    let payload: Vec<u8> = vec![0xAA, 0xBB, 0xCC];
    let mut w = CoffWriter::new(TargetType::X86_64);
    let mut root = w.write_directory(1);
    let mut ids = root.subdirectory(&mut w, 24, 1);
    let mut langs = ids.subdirectory(&mut w, 1, 1);
    let mut entry = langs.data_entry(&mut w, 0x0409);
    entry.write_data(&mut w, &payload);
    w.start_relocations();
    entry.write_relocation(&mut w);
    root.finish();
    ids.finish();
    langs.finish();
    entry.finish();
    let b = w.finish_at(0x01020304);

    // file header
    assert_eq!(u16_at(&b, 0), 0x8664);
    assert_eq!(u16_at(&b, 2), 1);
    assert_eq!(u32_at(&b, 4), 0x01020304);
    assert_eq!(u32_at(&b, 12), 2);
    assert_eq!(u16_at(&b, 16), 0);
    assert_eq!(u16_at(&b, 18), 0x0100);
    // three directories of 24 bytes, the data entry, the payload padded to eight
    let section_size = 3 * 24 + 16 + 8;
    let symbols = u32_at(&b, 8) as usize;
    assert_eq!(symbols, 60 + section_size + 10);
    assert_eq!(b.len(), symbols + 36 + 4);
    // section header
    assert_eq!(&b[20..28], b".rsrc\0\0\0");
    assert_eq!(u32_at(&b, 28), 0);
    assert_eq!(u32_at(&b, 32), 0);
    assert_eq!(u32_at(&b, 36) as usize, section_size);
    assert_eq!(u32_at(&b, 40), 60);
    assert_eq!(u32_at(&b, 44) as usize, 60 + section_size);
    assert_eq!(u32_at(&b, 48), 0);
    assert_eq!(u16_at(&b, 52), 1);
    assert_eq!(u16_at(&b, 54), 0);
    assert_eq!(u32_at(&b, 56), 0xC000_0040);

    let s = &b[60..60 + section_size];
    // root: one entry, type 24, a directory at 24
    assert_eq!(u16_at(s, 14), 1);
    assert_eq!((u32_at(s, 16), u32_at(s, 20)), (24, 0x8000_0000 | 24));
    assert_eq!(u16_at(s, 24 + 14), 1);
    assert_eq!((u32_at(s, 40), u32_at(s, 44)), (1, 0x8000_0000 | 48));
    assert_eq!(u16_at(s, 48 + 14), 1);
    assert_eq!((u32_at(s, 64), u32_at(s, 68)), (0x0409, 72));
    // the data entry: the address, which the linker fills in, the size, code page, reserved
    assert_eq!(
        (u32_at(s, 72), u32_at(s, 76), u32_at(s, 80), u32_at(s, 84)),
        (0, 3, 0, 0)
    );
    assert_eq!(&s[88..96], &[0xAA, 0xBB, 0xCC, 0, 0, 0, 0, 0]);
    // the relocation: the place of the data entry, the symbol of the section
    let r = 60 + section_size;
    assert_eq!((u32_at(&b, r), u32_at(&b, r + 4), u16_at(&b, r + 8)), (72, 0, 0x0003));
    // the symbol of the section and its auxiliary record
    assert_eq!(&b[symbols..symbols + 8], b".rsrc\0\0\0");
    assert_eq!(u32_at(&b, symbols + 8), 0);
    assert_eq!(u16_at(&b, symbols + 12), 1);
    assert_eq!(u16_at(&b, symbols + 14), 0);
    assert_eq!((b[symbols + 16], b[symbols + 17]), (3, 1));
    assert_eq!(u32_at(&b, symbols + 18) as usize, section_size);
    assert_eq!(u16_at(&b, symbols + 22), 1);
    assert_eq!(&b[symbols + 24..symbols + 40], &[0u8; 16]);
}

#[test]
fn with_the_clock_only_the_timestamp_differs() {
    let build = || {
        let mut w = CoffWriter::new(TargetType::Aarch64);
        let root = w.write_directory(0);
        root.finish();
        w.start_relocations();
        w
    };
    let a = build().finish_at(0);
    let mut b = build().finish();
    b[4..8].copy_from_slice(&[0, 0, 0, 0]);
    assert_eq!(a, b);
    assert_eq!(a.len(), 60 + 16 + 36 + 4);
    assert_eq!(u16_at(&a, 0), 0xAA64);
}
