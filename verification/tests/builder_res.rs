use embedinator::{FileFlag, FileType, Icon, ResourceBuilder, ResourceFileKind, Version};

fn png(extra: usize) -> Vec<u8> {
    let mut data: Vec<u8> = vec![137, 80, 78, 71, 13, 10, 26, 10, 0, 0, 0, 13, 73, 72, 68, 82];
    data.extend_from_slice(&[0, 0, 0, 16, 0, 0, 0, 16, 8, 6, 0, 0, 0]);
    data.extend(std::iter::repeat(0xAB).take(extra));
    data
}

struct Record {
    start: usize,
    header_size: usize,
    data_size: usize,
    ty: u16,
    name: u16,
    flags: u16,
    language: u16,
}

fn u16_at(b: &[u8], at: usize) -> u16 {
    u16::from_le_bytes([b[at], b[at + 1]])
}

fn u32_at(b: &[u8], at: usize) -> u32 {
    u32::from_le_bytes([b[at], b[at + 1], b[at + 2], b[at + 3]])
}

fn records(b: &[u8]) -> Vec<Record> {
    let mut out = Vec::new();
    let mut pos = 0;
    while pos < b.len() {
        let data_size = u32_at(b, pos) as usize;
        let header_size = u32_at(b, pos + 4) as usize;
        assert_eq!(u16_at(b, pos + 8), 0xFFFF);
        assert_eq!(u16_at(b, pos + 12), 0xFFFF);
        out.push(Record {
            start: pos,
            header_size,
            data_size,
            ty: u16_at(b, pos + 10),
            name: u16_at(b, pos + 14),
            flags: u16_at(b, pos + 20),
            language: u16_at(b, pos + 22),
        });
        pos += header_size + data_size;
        pos = (pos + 3) / 4 * 4;
    }
    assert_eq!(pos, b.len());
    out
}

#[test]
fn empty_build_has_sentinel_and_version() {
    let file = ResourceBuilder::default().compile_to_res();
    assert!(file.kind == ResourceFileKind::Res);
    let recs = records(&file.data);
    assert_eq!(recs.len(), 2);
    assert_eq!((recs[0].ty, recs[0].name, recs[0].data_size), (0, 0, 0));
    assert_eq!((recs[1].ty, recs[1].name), (0x10, 1));
    assert_eq!(file.data.len() % 4, 0);
    // VS_VERSION_INFO (92) + StringFileInfo (36 + StringTable 24) + VarFileInfo (68)
    assert_eq!(recs[1].data_size, 220);
    assert_eq!(file.data.len(), 32 + 32 + 220);
}

#[test]
fn records_are_aligned_and_consistent() {
    let file = ResourceBuilder::new()
        .set_file_version(Version::new(1, 2, 3, 4))
        .set_product_version(Version::new(1, 2, 3, 4))
        .add_string("ProductName", "X")
        .add_string("FileVersion", "1.2.3.4")
        .add_icon(1, Icon::from_png_bytes(png(5)))
        .add_icon(7, Icon::from_png_bytes(png(2)))
        .add_manifest("<assembly/>")
        .compile_to_res();
    let recs = records(&file.data);
    let kinds: Vec<(u16, u16)> = recs.iter().map(|r| (r.ty, r.name)).collect();
    assert_eq!(
        kinds,
        vec![(0, 0), (0x10, 1), (3, 128), (3, 129), (0xE, 1), (0xE, 7), (0x18, 1)]
    );
    for r in &recs {
        assert_eq!(r.start % 4, 0);
        assert_eq!(r.header_size, 32);
        assert_eq!(r.language, if r.ty == 0 { 0 } else { 0x0409 });
    }
    let flags: Vec<u16> = recs.iter().map(|r| r.flags).collect();
    assert_eq!(flags, vec![0, 0x30, 0x1010, 0x1010, 0x1030, 0x1030, 0x30]);
    assert_eq!(recs[2].data_size, 29 + 5);
    assert_eq!(recs[3].data_size, 29 + 2);
    assert_eq!(recs[4].data_size, 20);
    assert_eq!(recs[6].data_size, 11);
    // the manifest, as it is
    let m = &recs[6];
    assert_eq!(&file.data[m.start + 32..m.start + 43], b"<assembly/>");
    assert_eq!(file.data.len(), m.start + 32 + 12);
}

#[test]
fn icon_group_entry_layout() {
    let file = ResourceBuilder::new().add_icon(5, Icon::from_png_bytes(png(3))).compile_to_res();
    let recs = records(&file.data);
    let g = &recs[3];
    assert_eq!((g.ty, g.name), (0xE, 5));
    let payload = &file.data[g.start + 32..g.start + 32 + g.data_size];
    let expected: Vec<u8> = vec![
        0, 0, 1, 0, 1, 0, // reserved, type 1, one entry
        0, 0, 0, 0, 1, 0, 32, 0, 32, 0, 0, 0, 128, 0,
    ];
    assert_eq!(payload, &expected[..]);
}

#[test]
fn three_icons_get_internal_ids_from_128() {
    let file = ResourceBuilder::new()
        .add_icon(1, Icon::from_png_bytes(png(0)))
        .add_icon(2, Icon::from_png_bytes(png(0)))
        .add_icon(3, Icon::from_png_bytes(png(0)))
        .compile_to_res();
    let recs = records(&file.data);
    let icons: Vec<u16> = recs.iter().filter(|r| r.ty == 3).map(|r| r.name).collect();
    assert_eq!(icons, vec![128, 129, 130]);
    let groups: Vec<&Record> = recs.iter().filter(|r| r.ty == 0xE).collect();
    assert_eq!(groups.iter().map(|r| r.name).collect::<Vec<u16>>(), vec![1, 2, 3]);
    for (i, g) in groups.iter().enumerate() {
        let id_at = g.start + 32 + 6 + 12;
        assert_eq!(u16_at(&file.data, id_at), 128 + i as u16);
    }
}

#[test]
fn flags_and_file_type_reach_the_fixed_info() {
    let file = ResourceBuilder::new()
        .set_file_type(FileType::Dll)
        .add_file_flags(vec![FileFlag::Debug, FileFlag::SpecialBuild, FileFlag::Debug])
        .compile_to_res();
    // sentinel (32) + header (32) + record head (40): the fixed info
    let fixed = 32 + 32 + 40;
    assert_eq!(u32_at(&file.data, fixed), 0xFEEF04BD);
    assert_eq!(u32_at(&file.data, fixed + 24), 0x3F);
    assert_eq!(u32_at(&file.data, fixed + 28), 0x21);
    assert_eq!(u32_at(&file.data, fixed + 32), 0x0004_0004);
    assert_eq!(u32_at(&file.data, fixed + 36), 2);
}

#[test]
fn strings_come_out_in_key_order() {
    let a = ResourceBuilder::new()
        .add_string("ProductName", "X")
        .add_string("FileVersion", "1.2.3.4")
        .add_string("ProductName", "Y")
        .compile_to_res();
    let b = ResourceBuilder::new()
        .add_string("FileVersion", "1.2.3.4")
        .add_string("ProductName", "Y")
        .compile_to_res();
    assert!(a.data == b.data);
    let utf16 = |s: &str| -> Vec<u8> { s.encode_utf16().flat_map(|u| u.to_le_bytes()).collect() };
    let find = |needle: &[u8]| a.data.windows(needle.len()).position(|w| w == needle);
    let file_version = find(&utf16("FileVersion")).unwrap();
    let product_name = find(&utf16("ProductName")).unwrap();
    assert!(file_version < product_name);
    // the String record of FileVersion: wLength, wValueLength (8 units), wType (text)
    assert_eq!(u16_at(&a.data, file_version - 6), 6 + 24 + 2 + 16);
    assert_eq!(u16_at(&a.data, file_version - 4), 8);
    assert_eq!(u16_at(&a.data, file_version - 2), 1);
    assert_eq!(&a.data[file_version + 26..file_version + 42], &utf16("1.2.3.4\0")[..]);
}

#[test]
fn default_is_the_empty_builder() {
    let a = ResourceBuilder::default().compile_to_res();
    let b = ResourceBuilder::new().compile_to_res();
    assert!(a.data == b.data);
    assert_eq!(a.data.len(), 284);
    assert_eq!(&a.data[32..36], &[220, 0, 0, 0]);
    assert_eq!(&a.data[64..70], &[220, 0, 52, 0, 0, 0]);
}

#[test]
fn version_1_2_3_4_with_two_strings() {
    let file = ResourceBuilder::default()
        .set_file_version(Version::new(1, 2, 3, 4))
        .set_product_version(Version::new(1, 2, 3, 4))
        .add_string("ProductName", "X")
        .add_string("FileVersion", "1.2.3.4")
        .compile_to_res();
    let fixed: [u8; 52] = [
        0xBD, 0x04, 0xEF, 0xFE, 0, 0, 1, 0, 2, 0, 1, 0, 4, 0, 3, 0, 2, 0, 1, 0, 4, 0, 3, 0, 0x3F,
        0, 0, 0, 0, 0, 0, 0, 4, 0, 4, 0, 1, 0, 0, 0, 0, 0, 0, 0, 0, 0, 0, 0, 0, 0, 0, 0,
    ];
    assert_eq!(&file.data[104..156], &fixed[..]);
    assert_eq!(file.data.len(), 368);
}

#[test]
fn the_later_value_of_a_key_wins() {
    let b = ResourceBuilder::default().add_string("ProductName", "A").add_string("ProductName", "B");
    assert_eq!(b.version.strings.len(), 1);
    assert_eq!(b.version.strings.entries[0], ("ProductName".to_string(), "B".to_string()));
    assert!(b.version.file_version == Version::new(0, 0, 0, 0));
    assert!(b.icons.is_empty() && b.icon_groups.is_empty() && b.manifest.is_none());
}

#[test]
fn metadata_of_a_package() {
    let b = ResourceBuilder::from_metadata(Some(1), None, Some(3), "1.x.3", "tool", "");
    assert!(b.version.file_version == Version::new(1, 0, 3, 0));
    assert!(b.version.product_version == Version::new(1, 0, 3, 0));
    let entries: Vec<(&str, &str)> =
        b.version.strings.entries.iter().map(|e| (e.0.as_str(), e.1.as_str())).collect();
    assert_eq!(
        entries,
        vec![
            ("FileDescription", "tool"),
            ("FileVersion", "1.x.3"),
            ("ProductName", "tool"),
            ("ProductVersion", "1.x.3"),
        ]
    );
    let b = ResourceBuilder::from_metadata(None, Some(2), None, "0.2", "tool", "A tool");
    assert!(b.version.file_version == Version::new(0, 2, 0, 0));
    assert_eq!(b.version.strings.entries[0].1, "A tool");
}

#[test]
fn has_icon_tells_used_identifiers() {
    let b = ResourceBuilder::new().add_icon(9, Icon::from_png_bytes(png(0)));
    assert!(b.has_icon(9));
    assert!(!b.has_icon(128));
}

#[test]
fn png_check() {
    assert!(Icon::is_png(&png(0)));
    assert!(!Icon::is_png(&png(0)[..25]));
    let mut wrong_depth = png(0);
    wrong_depth[24] = 16;
    assert!(!Icon::is_png(&wrong_depth));
    let mut wrong_colour = png(0);
    wrong_colour[25] = 2;
    assert!(!Icon::is_png(&wrong_colour));
    let mut wrong_signature = png(0);
    wrong_signature[1] = 81;
    assert!(!Icon::is_png(&wrong_signature));
    let mut wrong_chunk = png(0);
    wrong_chunk[15] = 0;
    assert!(!Icon::is_png(&wrong_chunk));
}
