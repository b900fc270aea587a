use embedinator::coff2::CoffWriter2;
use embedinator::{Icon, ResourceBuilder, ResourceFileKind, ResourceType, TargetType};

fn png(extra: usize) -> Vec<u8> {
    let mut data: Vec<u8> = vec![137, 80, 78, 71, 13, 10, 26, 10, 0, 0, 0, 13, 73, 72, 68, 82];
    data.extend_from_slice(&[0, 0, 0, 16, 0, 0, 0, 16, 8, 6, 0, 0, 0]);
    data.extend(std::iter::repeat(0xEF).take(extra));
    data
}

#[test]
fn checked_compile_agrees_with_compile() {
    let build = || {
        ResourceBuilder::new()
            .add_string("ProductName", "X")
            .add_icon(3, Icon::from_png_bytes(png(4)))
            .add_manifest("<assembly/>")
    };
    assert!(build().fits_res());
    let res = build().try_compile_to_res().unwrap();
    assert!(res.kind == ResourceFileKind::Res);
    assert!(res.data == build().compile_to_res().data);
    let coff = build().try_compile_to_coff_at(TargetType::I386, 5).unwrap();
    assert!(coff.kind == ResourceFileKind::Coff);
    assert!(coff.data == build().compile_to_coff_at(TargetType::I386, 5).data);
    let mut clock = build().try_compile_to_coff(TargetType::I386).unwrap();
    clock.data[4..8].copy_from_slice(&[5, 0, 0, 0]);
    assert!(clock.data == coff.data);
}

#[test]
fn a_version_record_that_is_too_long_is_refused() {
    let b = ResourceBuilder::new().add_string("Comments", &"c".repeat(33000));
    assert!(!b.fits_res());
    assert!(b.try_compile_to_res().is_none());
    assert!(b.try_compile_to_coff_at(TargetType::X86_64, 0).is_none());
}

#[test]
fn a_payload_beyond_the_symbol_names_is_refused() {
    // the group of the icon would start at 16 MiB or behind: its offset
    // has no six-digit name
    let b = ResourceBuilder::new().add_icon(1, Icon::from_png_bytes(png(0x100_0000)));
    assert!(b.fits_res());
    assert!(b.try_compile_to_coff_at(TargetType::X86_64, 0).is_none());
    // the manifest comes last: it may be as long
    let b = ResourceBuilder::new().add_manifest(&"m".repeat(0x100_0000));
    let file = b.try_compile_to_coff_at(TargetType::X86_64, 0).unwrap();
    assert!(file.data.len() > 0x100_0000);
}

#[test]
fn writer_checks() {
    let mut w = CoffWriter2::new(TargetType::X86_64);
    assert!(w.can_add(0));
    assert!(w.can_add(0xFFFF_FFFF));
    assert!(w.can_finish());
    let payload: Vec<u8> = vec![0; 0xFF_FFF9];
    w.add_resource(ResourceType::Icon, 1, &payload);
    // the data end at 0xFFFFF9, the next payload goes to 0x1000000
    assert!(!w.can_add(0));
    assert!(w.can_finish());
}
