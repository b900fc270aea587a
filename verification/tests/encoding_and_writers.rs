use embedinator::binary::version::{FieldType, FieldValue, VersionWriter};
use embedinator::binary::{BinaryWritable, BinaryWriter, Buffer, ScopedSlice};
use embedinator::coff::timestamp_from;
use embedinator::coff2::writer::FileWriter;
use embedinator::coff2::{sort_relocations, symbol_name_of};
use embedinator::encoding::{append_zeros, overwrite, padding_for, u16_le, u32_le, utf16_units};
use embedinator::res::ResWriter;
use embedinator::strings::{key_less, StringTable};
use embedinator::{FileFlag, FileFlags, IconGroupEntry, Version, VersionInfo};

#[test]
fn little_endian_words() {
    assert_eq!(u16_le(0x1234), [0x34, 0x12]);
    assert_eq!(u32_le(0x1234_5678), [0x78, 0x56, 0x34, 0x12]);
    assert_eq!(u32_le(0xFEEF_04BD), [0xBD, 0x04, 0xEF, 0xFE]);
}

#[test]
fn bytes_overwritten_and_appended() {
    let mut v: Vec<u8> = vec![1, 2, 3, 4];
    overwrite(&mut v, 1, &[9, 8]);
    assert_eq!(v, vec![1, 9, 8, 4]);
    overwrite(&mut v, 4, &[]);
    append_zeros(&mut v, 3);
    assert_eq!(v, vec![1, 9, 8, 4, 0, 0, 0]);
    append_zeros(&mut v, 0);
    assert_eq!(v.len(), 7);
}

#[test]
fn padding_to_a_multiple() {
    assert_eq!(padding_for(0, 4), 0);
    assert_eq!(padding_for(1, 4), 3);
    assert_eq!(padding_for(4, 4), 0);
    assert_eq!(padding_for(13, 8), 3);
    assert_eq!(padding_for(7, 1), 0);
}

#[test]
fn utf16_of_texts() {
    assert_eq!(utf16_units(""), Vec::<u16>::new());
    assert_eq!(utf16_units("Az"), vec![0x41, 0x7A]);
    assert_eq!(utf16_units("é€"), vec![0xE9, 0x20AC]);
    // outside the basic plane: a surrogate pair
    assert_eq!(utf16_units("𝄞"), vec![0xD834, 0xDD1E]);
    assert_eq!(utf16_units("a😀b"), "a😀b".encode_utf16().collect::<Vec<u16>>());
    assert_eq!(utf16_units("\u{FFFF}\u{10000}\u{10FFFF}"), vec![0xFFFF, 0xD800, 0xDC00, 0xDBFF, 0xDFFF]);
}

#[test]
fn keys_in_byte_order() {
    assert!(key_less("A", "B"));
    assert!(!key_less("B", "A"));
    assert!(!key_less("A", "A"));
    assert!(key_less("", "A"));
    assert!(key_less("A", "AA"));
    assert!(key_less("Z", "a"));
    // as the bytes of the UTF-8 encodings order them
    assert!(key_less("z", "é"));
    assert_eq!(key_less("\u{FFFF}", "\u{10000}"), "\u{FFFF}" < "\u{10000}");
}

#[test]
fn string_table_keeps_keys_sorted_and_unique() {
    let mut t = StringTable::new();
    t.insert("b".to_string(), "1".to_string());
    t.insert("a".to_string(), "2".to_string());
    t.insert("c".to_string(), "3".to_string());
    t.insert("b".to_string(), "4".to_string());
    assert_eq!(t.len(), 3);
    let entries: Vec<(&str, &str)> =
        t.entries.iter().map(|e| (e.0.as_str(), e.1.as_str())).collect();
    assert_eq!(entries, vec![("a", "2"), ("b", "4"), ("c", "3")]);
}

#[test]
fn file_flags_word() {
    let mut f = FileFlags::new();
    assert_eq!(f.word(), 0);
    f.insert(FileFlag::Patched);
    f.insert(FileFlag::PrivateBuild);
    f.insert(FileFlag::Patched);
    assert!(f.contains(FileFlag::Patched));
    assert!(!f.contains(FileFlag::Debug));
    assert_eq!(f.word(), 0x0C);
    f.insert(FileFlag::Debug);
    f.insert(FileFlag::Prerelease);
    f.insert(FileFlag::SpecialBuild);
    assert_eq!(f.word(), 0x2F);
    assert_eq!(FileFlag::SpecialBuild.bit(), 0x20);
}

#[test]
fn version_swaps_its_words_in_pairs() {
    let mut w = ResWriter::default();
    Version::new(1, 2, 3, 4).write_to(&mut w);
    assert_eq!(w.finish(), vec![2, 0, 1, 0, 4, 0, 3, 0]);
}

#[test]
fn payloads_as_they_are() {
    let mut w = ResWriter::default();
    "né".to_string().write_to(&mut w);
    vec![1u8, 2].write_to(&mut w);
    [3u8, 4][..].write_to(&mut w);
    ().write_to(&mut w);
    assert_eq!(w.finish(), vec![b'n', 0xC3, 0xA9, 1, 2, 3, 4]);
}

#[test]
fn icon_group_of_two() {
    let entries = [
        IconGroupEntry { icon_id: 128, icon_size: 0x0102_0304 },
        IconGroupEntry { icon_id: 129, icon_size: 5 },
    ];
    let mut w = ResWriter::default();
    entries[..].write_to(&mut w);
    let expected: Vec<u8> = vec![
        0, 0, 1, 0, 2, 0, //
        0, 0, 0, 0, 1, 0, 32, 0, 4, 3, 2, 1, 128, 0, //
        0, 0, 0, 0, 1, 0, 32, 0, 5, 0, 0, 0, 129, 0,
    ];
    assert_eq!(w.finish(), expected);
}

#[test]
fn a_text_record() {
    let mut out = ResWriter::default();
    out.write_u8(9);
    {
        let mut w = VersionWriter::new(&mut out);
        assert_eq!(w.pos(), 0);
        // the origin is where the view was taken: no padding before the record
        w.write_field(FieldType::Text, "K", FieldValue::other(2), &[0x58, 0, 0, 0]);
        assert_eq!(w.pos(), 16);
        // the next record is padded from the origin
        w.write_u16(0xFFFF);
        w.write_field(FieldType::Binary, "", FieldValue::header(vec![1, 2, 3]), &[]);
        assert_eq!(w.pos(), 20 + 8 + 4);
    }
    let expected: Vec<u8> = vec![
        9, //
        16, 0, 2, 0, 1, 0, b'K', 0, 0, 0, 0, 0, 0x58, 0, 0, 0, //
        0xFF, 0xFF, 0, 0, //
        12, 0, 3, 0, 0, 0, 0, 0, 1, 2, 3, 0,
    ];
    assert_eq!(out.finish(), expected);
}

#[test]
fn a_record_without_value() {
    let mut out = ResWriter::default();
    VersionWriter::new(&mut out).write_field(FieldType::Text, "ab", FieldValue::none(), &[7, 7, 7, 7, 7]);
    let expected: Vec<u8> = vec![17, 0, 0, 0, 1, 0, b'a', 0, b'b', 0, 0, 0, 7, 7, 7, 7, 7];
    assert_eq!(out.finish(), expected);
    assert_eq!(FieldType::Binary.id(), 0);
    assert_eq!(FieldType::Text.id(), 1);
}

#[test]
fn utf16_text_is_terminated() {
    let mut out = ResWriter::default();
    VersionWriter::new(&mut out).write_utf16("hi");
    assert_eq!(out.finish(), vec![b'h', 0, b'i', 0, 0, 0]);
}

#[test]
fn version_payload_length() {
    let info = VersionInfo::default();
    assert_eq!(info.payload_len(), Some(220));
    let mut strings = StringTable::new();
    strings.insert("K".to_string(), "v".to_string());
    let info = VersionInfo { strings, ..VersionInfo::default() };
    // the record: 6 + 4 + 2 padding + 4 = 16
    assert_eq!(info.payload_len(), Some(236));
    let mut w = ResWriter::default();
    info.write_to(&mut w);
    assert_eq!(w.finish().len(), 236);
    // a value of 40000 units does not fit the 16 bits of a record length
    let mut strings = StringTable::new();
    strings.insert("K".to_string(), "x".repeat(40000));
    let info = VersionInfo { strings, ..VersionInfo::default() };
    assert_eq!(info.payload_len(), None);
    // the longest that fits: 220 + 16 + 2n <= 65535, padded to four
    let mut strings = StringTable::new();
    strings.insert("K".to_string(), "x".repeat(32648));
    let info = VersionInfo { strings, ..VersionInfo::default() };
    assert_eq!(info.payload_len(), Some(65532));
    let mut w = ResWriter::default();
    info.write_to(&mut w);
    let bytes = w.finish();
    assert_eq!(bytes.len(), 65532);
    assert_eq!(&bytes[0..2], &[0xFC, 0xFF]);
    let mut strings = StringTable::new();
    strings.insert("K".to_string(), "x".repeat(32651));
    let info = VersionInfo { strings, ..VersionInfo::default() };
    assert_eq!(info.payload_len(), None);
}

#[test]
fn file_writer_writes_where_the_cursor_stands() {
    let mut f = FileWriter::default();
    f.set_pos(4);
    f.write_u16(0x0201);
    assert_eq!(f.pos(), 6);
    assert_eq!(f.data, vec![0, 0, 0, 0, 1, 2]);
    f.mark_section_start();
    f.reserve(1);
    assert_eq!(f.current_offset(), 1);
    // what is reserved is stored as zero bytes
    assert_eq!(f.data, vec![0, 0, 0, 0, 1, 2, 0]);
    f.align_to(4);
    assert_eq!(f.pos(), 10);
    assert_eq!(f.data.len(), 10);
    f.write_u8(9);
    assert_eq!(f.data, vec![0, 0, 0, 0, 1, 2, 0, 0, 0, 0, 9]);
    f.write_bytes_at(1, &[7, 8]);
    assert_eq!(f.pos(), 11);
    f.set_pos(0);
    f.write_u8(6);
    assert_eq!(f.data, vec![6, 7, 8, 0, 1, 2, 0, 0, 0, 0, 9]);
    f.store(12, &[5]);
    assert_eq!(f.data, vec![6, 7, 8, 0, 1, 2, 0, 0, 0, 0, 9, 0, 5]);
    assert_eq!(f.pos(), 1);
}

#[test]
fn file_writer_reserves_zero_bytes() {
    let mut f = FileWriter::default();
    f.reserve(4);
    assert_eq!(f.pos(), 4);
    assert_eq!(f.data, vec![0, 0, 0, 0]);
    // bytes that are stored already stay as they are
    f.write_bytes_at(1, &[7, 8]);
    f.set_pos(0);
    f.reserve(3);
    assert_eq!(f.pos(), 3);
    assert_eq!(f.data, vec![0, 7, 8, 0]);
    f.reserve(0);
    assert_eq!(f.data.len(), 4);
}

#[test]
fn a_window_over_written_bytes() {
    let mut b = Buffer::new(2);
    b.write_bytes(&[1, 2, 3, 4, 5, 6, 7, 8]);
    {
        let mut s = ScopedSlice::new(&mut b, 3, 6);
        assert_eq!(s.pos(), 0);
        s.write_u16(0xBBAA);
        s.write_u32(0xFFEE_DDCC);
        assert_eq!(s.pos(), 6);
        s.finish();
    }
    assert_eq!(b.pos(), 10);
    assert_eq!(b.data, vec![0, 0, 1, 0xAA, 0xBB, 0xCC, 0xDD, 0xEE, 0xFF, 8]);
    // alignment counts from the origin
    b.align_to(8);
    assert_eq!(b.pos(), 10);
    b.write_u8(0);
    b.align_to(8);
    assert_eq!(b.pos(), 18);
}

#[test]
fn symbol_names() {
    assert_eq!(&symbol_name_of(0), b"$R000000");
    assert_eq!(&symbol_name_of(16), b"$R000010");
    assert_eq!(&symbol_name_of(0xABCDEF), b"$RABCDEF");
    assert_eq!(&symbol_name_of(0xFF_FFFF), b"$RFFFFFF");
    assert_eq!(&symbol_name_of(0x09A0B1), b"$R09A0B1");
}

#[test]
fn relocations_sorted_by_symbol() {
    let rs = vec![(10, 7), (20, 4), (30, 9), (40, 4), (50, 5)];
    assert_eq!(sort_relocations(&rs), vec![(20, 4), (40, 4), (50, 5), (10, 7), (30, 9)]);
    assert_eq!(sort_relocations(&Vec::new()), Vec::<(usize, usize)>::new());
}

#[test]
fn timestamp_of_a_clock_reading() {
    assert_eq!(timestamp_from(None), 0);
    assert_eq!(timestamp_from(Some(1_700_000_000)), 1_700_000_000);
    assert_eq!(timestamp_from(Some(0x1_0000_0005)), 5);
}
