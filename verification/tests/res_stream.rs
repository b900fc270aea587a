use embedinator::binary::BinaryWriter;
use embedinator::res::ResWriter;
use embedinator::strings::StringTable;
use embedinator::{FileFlags, FileType, ResourceType, Version, VersionInfo};

fn find(haystack: &[u8], needle: &[u8]) -> Option<usize> {
    haystack.windows(needle.len()).position(|w| w == needle)
}

#[test]
fn sentinel_record_is_32_bytes() {
    let mut w = ResWriter::default();
    w.write_empty();
    let bytes = w.finish();
    let expected: Vec<u8> = vec![
        0, 0, 0, 0, 32, 0, 0, 0, 0xFF, 0xFF, 0, 0, 0xFF, 0xFF, 0, 0, 0, 0, 0, 0, 0, 0, 0, 0, 0, 0,
        0, 0, 0, 0, 0, 0,
    ];
    assert_eq!(bytes, expected);
}

#[test]
fn raw_payload_is_padded_to_four() {
    let mut w = ResWriter::default();
    let payload: Vec<u8> = vec![1, 2, 3, 4, 5];
    w.write_resource(ResourceType::Manifest, 1, &payload);
    let bytes = w.finish();
    assert_eq!(bytes.len(), 32 + 5 + 3);
    assert_eq!(&bytes[0..4], &[5, 0, 0, 0]);
    assert_eq!(&bytes[4..8], &[32, 0, 0, 0]);
    assert_eq!(&bytes[8..12], &[0xFF, 0xFF, 0x18, 0]);
    assert_eq!(&bytes[12..16], &[0xFF, 0xFF, 1, 0]);
    assert_eq!(&bytes[20..22], &[0x30, 0]);
    assert_eq!(&bytes[22..24], &[0x09, 0x04]);
    assert_eq!(&bytes[32..37], &[1, 2, 3, 4, 5]);
    assert_eq!(&bytes[37..40], &[0, 0, 0]);
}

#[test]
fn fixed_file_info_of_version_1_2_3_4() {
    let mut strings = StringTable::new();
    strings.insert("ProductName".to_string(), "X".to_string());
    strings.insert("FileVersion".to_string(), "1.2.3.4".to_string());
    let info = VersionInfo {
        file_version: Version::new(1, 2, 3, 4),
        product_version: Version::new(1, 2, 3, 4),
        file_type: FileType::Exe,
        flags: FileFlags::new(),
        strings,
    };
    let mut w = ResWriter::default();
    w.write_version(&info);
    let bytes = w.finish();
    let fixed: [u8; 52] = [
        0xBD, 0x04, 0xEF, 0xFE, 0x00, 0x00, 0x01, 0x00, 0x02, 0x00, 0x01, 0x00, 0x04, 0x00, 0x03,
        0x00, 0x02, 0x00, 0x01, 0x00, 0x04, 0x00, 0x03, 0x00, 0x3F, 0x00, 0x00, 0x00, 0x00, 0x00,
        0x00, 0x00, 0x04, 0x00, 0x04, 0x00, 0x01, 0x00, 0x00, 0x00, 0x00, 0x00, 0x00, 0x00, 0x00,
        0x00, 0x00, 0x00, 0x00, 0x00, 0x00, 0x00,
    ];
    // header (32) + wLength, wValueLength, wType (6) + "VS_VERSION_INFO\0" (32) + padding (2)
    assert_eq!(find(&bytes, &fixed), Some(32 + 40));
    assert_eq!(bytes.len() % 4, 0);
    // wValueLength of the root record
    assert_eq!(&bytes[34..36], &[52, 0]);
    // wLength of the root record is the payload size, which is already aligned or padded
    let w_length = u16::from_le_bytes([bytes[32], bytes[33]]) as usize;
    let data_size = u32::from_le_bytes([bytes[0], bytes[1], bytes[2], bytes[3]]) as usize;
    assert_eq!((w_length + 3) / 4 * 4, data_size);
    assert_eq!(bytes.len(), 32 + data_size);
}

#[test]
fn writer_positions() {
    let mut w = ResWriter::default();
    assert_eq!(w.pos(), 0);
    w.write_u8(7);
    w.write_u16(0x0102);
    w.write_u32(0x0A0B0C0D);
    assert_eq!(w.pos(), 7);
    w.align_to(4);
    assert_eq!(w.pos(), 8);
    w.align_to(4);
    assert_eq!(w.pos(), 8);
    w.reserve(3);
    w.write_bytes_at(1, &[0xEE, 0xEF]);
    assert_eq!(w.pos(), 11);
    assert_eq!(w.finish(), vec![7, 0xEE, 0xEF, 0x0D, 0x0C, 0x0B, 0x0A, 0, 0, 0, 0]);
}
