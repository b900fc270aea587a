use embedinator::coff2::CoffWriter2;
use embedinator::{
    Icon, IconGroupEntry, ResourceBuilder, ResourceFileKind, ResourceType, TargetType,
};

fn png(extra: usize) -> Vec<u8> {
    let mut data: Vec<u8> = vec![137, 80, 78, 71, 13, 10, 26, 10, 0, 0, 0, 13, 73, 72, 68, 82];
    data.extend_from_slice(&[0, 0, 0, 16, 0, 0, 0, 16, 8, 6, 0, 0, 0]);
    data.extend(std::iter::repeat(0xCD).take(extra));
    data
}

fn u16_at(b: &[u8], at: usize) -> u16 {
    u16::from_le_bytes([b[at], b[at + 1]])
}

fn u32_at(b: &[u8], at: usize) -> u32 {
    u32::from_le_bytes([b[at], b[at + 1], b[at + 2], b[at + 3]])
}

struct Section {
    name: Vec<u8>,
    size: usize,
    pointer: usize,
    relocations_pointer: usize,
    relocations: usize,
    characteristics: u32,
}

struct Symbol {
    name: Vec<u8>,
    value: u32,
    section: u16,
    class: u8,
    aux: u8,
}

struct Object {
    machine: u16,
    timestamp: u32,
    characteristics: u16,
    sections: Vec<Section>,
    symbols_pointer: usize,
    symbols: Vec<Symbol>,
    /// (type, id, language, offset of the data entry, size)
    leaves: Vec<(u32, u32, u32, usize, u32)>,
    /// (address, symbol, type)
    relocations: Vec<(u32, u32, u16)>,
}

fn parse(b: &[u8]) -> Object {
    let machine = u16_at(b, 0);
    let n_sections = u16_at(b, 2) as usize;
    let timestamp = u32_at(b, 4);
    let symbols_pointer = u32_at(b, 8) as usize;
    let n_symbols = u32_at(b, 12) as usize;
    assert_eq!(u16_at(b, 16), 0);
    let characteristics = u16_at(b, 18);
    let mut sections = Vec::new();
    for i in 0..n_sections {
        let at = 20 + 40 * i;
        assert_eq!(u32_at(b, at + 8), 0);
        assert_eq!(u32_at(b, at + 12), 0);
        assert_eq!(u32_at(b, at + 28), 0);
        assert_eq!(u16_at(b, at + 34), 0);
        sections.push(Section {
            name: b[at..at + 8].to_vec(),
            size: u32_at(b, at + 16) as usize,
            pointer: u32_at(b, at + 20) as usize,
            relocations_pointer: u32_at(b, at + 24) as usize,
            relocations: u16_at(b, at + 32) as usize,
            characteristics: u32_at(b, at + 36),
        });
    }
    let mut symbols = Vec::new();
    for i in 0..n_symbols {
        let at = symbols_pointer + 18 * i;
        symbols.push(Symbol {
            name: b[at..at + 8].to_vec(),
            value: u32_at(b, at + 8),
            section: u16_at(b, at + 12),
            class: b[at + 16],
            aux: b[at + 17],
        });
    }
    // the string table
    assert_eq!(b.len(), symbols_pointer + 18 * n_symbols + 4);
    assert_eq!(u32_at(b, b.len() - 4), 0);

    let base = sections[0].pointer;
    let section = &b[base..base + sections[0].size];
    let mut leaves = Vec::new();
    let dir = |at: usize| -> Vec<(u32, u32)> {
        assert_eq!(at % 4, 0);
        assert_eq!(u32_at(section, at), 0);
        assert_eq!(u32_at(section, at + 4), 0);
        assert_eq!(u32_at(section, at + 8), 0);
        assert_eq!(u16_at(section, at + 12), 0);
        let n = u16_at(section, at + 14) as usize;
        (0..n)
            .map(|i| (u32_at(section, at + 16 + 8 * i), u32_at(section, at + 20 + 8 * i)))
            .collect()
    };
    for (ty, t_off) in dir(0) {
        assert!(t_off & 0x8000_0000 != 0);
        for (id, i_off) in dir((t_off & 0x7FFF_FFFF) as usize) {
            assert!(i_off & 0x8000_0000 != 0);
            for (lang, d_off) in dir((i_off & 0x7FFF_FFFF) as usize) {
                assert!(d_off & 0x8000_0000 == 0);
                let d = d_off as usize;
                assert_eq!(d % 4, 0);
                assert_eq!(u32_at(section, d), 0);
                assert_eq!(u32_at(section, d + 8), 0);
                assert_eq!(u32_at(section, d + 12), 0);
                leaves.push((ty, id, lang, d, u32_at(section, d + 4)));
            }
        }
    }
    let mut relocations = Vec::new();
    for i in 0..sections[0].relocations {
        let at = sections[0].relocations_pointer + 10 * i;
        relocations.push((u32_at(b, at), u32_at(b, at + 4), u16_at(b, at + 8)));
    }
    Object {
        machine,
        timestamp,
        characteristics,
        sections,
        symbols_pointer,
        symbols,
        leaves,
        relocations,
    }
}

/// For every resource of the directory: the payload that its relocation leads to.
fn payloads(b: &[u8], o: &Object) -> Vec<(u32, u32, Vec<u8>)> {
    let mut out = Vec::new();
    for (ty, id, _, d, size) in &o.leaves {
        let r = o.relocations.iter().find(|r| r.0 as usize == *d).unwrap();
        let symbol = &o.symbols[r.1 as usize];
        assert_eq!(symbol.section, 2);
        assert_eq!(symbol.value % 8, 0);
        let start = o.sections[1].pointer + symbol.value as usize;
        assert!(symbol.value as usize + *size as usize <= o.sections[1].size);
        out.push((*ty, *id, b[start..start + *size as usize].to_vec()));
    }
    out
}

fn check_shape(b: &[u8], o: &Object) {
    assert_eq!(o.characteristics, 0x0100);
    assert_eq!(o.sections.len(), 2);
    assert_eq!(o.sections[0].name, b".rsrc$01".to_vec());
    assert_eq!(o.sections[1].name, b".rsrc$02".to_vec());
    assert_eq!(o.sections[0].pointer, 100);
    assert_eq!(o.sections[0].relocations_pointer, 100 + o.sections[0].size);
    assert_eq!(o.sections[1].relocations, 0);
    assert_eq!(o.sections[1].relocations_pointer, 0);
    assert_eq!(o.sections[1].pointer + o.sections[1].size, o.symbols_pointer);
    for s in &o.sections {
        assert_eq!(s.characteristics, 0xC000_0040);
        assert_eq!(s.pointer % 4, 0);
        assert_eq!(s.size % 4, 0);
    }
    // the symbols of the sections, each with its auxiliary record
    assert_eq!(o.symbols[0].name, b".rsrc$01".to_vec());
    assert_eq!((o.symbols[0].section, o.symbols[0].class, o.symbols[0].aux), (1, 3, 1));
    assert_eq!(u32_at(b, o.symbols_pointer + 18), o.sections[0].size as u32);
    assert_eq!(u16_at(b, o.symbols_pointer + 22), o.sections[0].relocations as u16);
    assert_eq!(o.symbols[2].name, b".rsrc$02".to_vec());
    assert_eq!((o.symbols[2].section, o.symbols[2].class, o.symbols[2].aux), (2, 3, 1));
    assert_eq!(u32_at(b, o.symbols_pointer + 54), o.sections[1].size as u32);
    for s in &o.symbols[4..] {
        assert_eq!((s.section, s.class, s.aux), (2, 3, 0));
        let name = format!("$R{:06X}", s.value);
        assert_eq!(s.name, name.as_bytes().to_vec());
    }
    // relocations: one for each resource, in ascending order of the symbols
    assert_eq!(o.relocations.len(), o.leaves.len());
    for w in o.relocations.windows(2) {
        assert!(w[0].1 <= w[1].1);
    }
    for r in &o.relocations {
        assert!((r.1 as usize) < o.symbols.len());
        assert!(r.1 >= 4);
        assert!(r.0 as usize + 4 <= o.sections[0].size);
    }
    for l in &o.leaves {
        assert_eq!(l.2, 0x0409);
    }
}

#[test]
fn single_icon_and_group_for_x86_64() {
    let icon = png(11);
    let file = ResourceBuilder::new()
        .add_icon(1, Icon::from_png_bytes(icon.clone()))
        .compile_to_coff_at(TargetType::X86_64, 0);
    assert!(file.kind == ResourceFileKind::Coff);
    let o = parse(&file.data);
    check_shape(&file.data, &o);
    assert_eq!(o.machine, 0x8664);
    assert_eq!(o.timestamp, 0);
    let kinds: Vec<(u32, u32)> = o.leaves.iter().map(|l| (l.0, l.1)).collect();
    assert_eq!(kinds, vec![(3, 128), (14, 1), (16, 1)]);
    // version, icon, icon group
    assert_eq!(o.symbols.len(), 4 + 3);
    assert_eq!(o.relocations.len(), 3);
    for r in &o.relocations {
        assert_eq!(r.2, 0x0003);
    }
    let p = payloads(&file.data, &o);
    assert_eq!(p[0].2, icon);
    let group: Vec<u8> = vec![0, 0, 1, 0, 1, 0, 0, 0, 0, 0, 1, 0, 32, 0, 40, 0, 0, 0, 128, 0];
    assert_eq!(p[1].2, group);
    assert_eq!(p[2].2.len(), 220);
    assert_eq!(&p[2].2[40..44], &[0xBD, 0x04, 0xEF, 0xFE]);
}

#[test]
fn manifest_for_aarch64() {
    let file = ResourceBuilder::new()
        .add_manifest("<assembly/>")
        .compile_to_coff_at(TargetType::Aarch64, 7);
    let o = parse(&file.data);
    check_shape(&file.data, &o);
    assert_eq!(o.machine, 0xAA64);
    assert_eq!(o.timestamp, 7);
    let kinds: Vec<(u32, u32, u32)> = o.leaves.iter().map(|l| (l.0, l.1, l.4)).collect();
    assert_eq!(kinds, vec![(16, 1, 220), (24, 1, 11)]);
    for r in &o.relocations {
        assert_eq!(r.2, 0x0002);
    }
    let p = payloads(&file.data, &o);
    assert_eq!(p[1].2, b"<assembly/>".to_vec());
    // the manifest lies at 224 in the data, which end with it, padded to four bytes
    assert_eq!(o.symbols[5].value, 224);
    assert_eq!(o.sections[1].size, 224 + 12);
}

#[test]
fn icon_and_group_alone_for_x86_64() {
    let icon = png(3);
    let group = [IconGroupEntry { icon_id: 128, icon_size: icon.len() }];
    let mut w = CoffWriter2::new(TargetType::X86_64);
    w.add_resource(ResourceType::Icon, 128, &icon);
    w.add_resource(ResourceType::IconGroup, 1, &group[..]);
    let b = w.finish_at(0);
    let o = parse(&b);
    check_shape(&b, &o);
    assert_eq!(o.machine, 0x8664);
    let kinds: Vec<(u32, u32)> = o.leaves.iter().map(|l| (l.0, l.1)).collect();
    assert_eq!(kinds, vec![(3, 128), (14, 1)]);
    assert_eq!(o.symbols.len(), 4 + 2);
    let relocations: Vec<(u32, u16)> = o.relocations.iter().map(|r| (r.1, r.2)).collect();
    assert_eq!(relocations, vec![(4, 0x0003), (5, 0x0003)]);
    // root (16 + 16), then for each type a directory of one entry and a leaf (24 + 40)
    assert_eq!(o.sections[0].size, 32 + 64 + 64);
    assert_eq!(o.relocations[0].0, 32 + 24 + 24);
    assert_eq!(o.relocations[1].0, 32 + 64 + 24 + 24);
    let p = payloads(&b, &o);
    assert_eq!(p[0].2, icon);
    assert_eq!(p[1].2.len(), 20);
}

#[test]
fn manifest_alone_for_aarch64() {
    let mut w = CoffWriter2::new(TargetType::Aarch64);
    w.add_resource(ResourceType::Manifest, 1, &b"<assembly/>"[..]);
    let b = w.finish_at(0);
    let o = parse(&b);
    check_shape(&b, &o);
    assert_eq!(o.machine, 0xAA64);
    let kinds: Vec<(u32, u32, u32)> = o.leaves.iter().map(|l| (l.0, l.1, l.4)).collect();
    assert_eq!(kinds, vec![(24, 1, 11)]);
    assert_eq!(o.relocations, vec![(24 + 24 + 24, 4, 0x0002)]);
    assert_eq!(o.symbols.len(), 5);
    assert_eq!(o.symbols[4].name, b"$R000000".to_vec());
    assert_eq!(o.sections[0].size, 24 + 24 + 40);
    assert_eq!(o.sections[1].size, 12);
    assert_eq!(payloads(&b, &o)[0].2, b"<assembly/>".to_vec());
    // headers, directory, one relocation padded to four, data, five symbols, string table
    assert_eq!(b.len(), 100 + 88 + 12 + 12 + 5 * 18 + 4);
}

#[test]
fn i386_relocation_type() {
    let file = ResourceBuilder::new().compile_to_coff_at(TargetType::I386, 0);
    let o = parse(&file.data);
    check_shape(&file.data, &o);
    assert_eq!(o.machine, 0x014C);
    assert_eq!(o.relocations.len(), 1);
    assert_eq!(o.relocations[0], (16 + 8 + 16 + 8 + 24, 4, 0x0007));
}

#[test]
fn three_icons_in_the_directory() {
    let file = ResourceBuilder::new()
        .add_icon(1, Icon::from_png_bytes(png(1)))
        .add_icon(2, Icon::from_png_bytes(png(2)))
        .add_icon(3, Icon::from_png_bytes(png(3)))
        .compile_to_coff_at(TargetType::X86_64, 0);
    let o = parse(&file.data);
    check_shape(&file.data, &o);
    let kinds: Vec<(u32, u32)> = o.leaves.iter().map(|l| (l.0, l.1)).collect();
    assert_eq!(
        kinds,
        vec![(3, 128), (3, 129), (3, 130), (14, 1), (14, 2), (14, 3), (16, 1)]
    );
    let p = payloads(&file.data, &o);
    for i in 0..3 {
        assert_eq!(p[i].2, png(i + 1));
        // the group names the icon by its internal identifier
        assert_eq!(u16_at(&p[3 + i].2, 18), 128 + i as u16);
        assert_eq!(u32_at(&p[3 + i].2, 14) as usize, png(i + 1).len());
    }
    // relocations follow the symbols, which follow the order of adding:
    // version, icons, groups
    let symbols: Vec<u32> = o.relocations.iter().map(|r| r.1).collect();
    assert_eq!(symbols, vec![4, 5, 6, 7, 8, 9, 10]);
    let version_entry = o.leaves[6].3 as u32;
    assert_eq!(o.relocations[0].0, version_entry);
}

#[test]
fn same_input_same_bytes() {
    let build = || {
        ResourceBuilder::new()
            .add_string("ProductName", "X")
            .add_icon(1, Icon::from_png_bytes(png(9)))
            .add_manifest("<assembly/>")
    };
    let a = build().compile_to_coff_at(TargetType::X86_64, 0);
    let b = build().compile_to_coff_at(TargetType::X86_64, 0);
    assert!(a.data == b.data);
    // with the clock, all but the timestamp is the same
    let mut c = build().compile_to_coff(TargetType::X86_64);
    assert_eq!(c.data.len(), a.data.len());
    c.data[4..8].copy_from_slice(&[0, 0, 0, 0]);
    assert!(c.data == a.data);
}

#[test]
fn a_resource_added_twice_is_listed_once() {
    let mut w = CoffWriter2::new(TargetType::X86_64);
    let first: Vec<u8> = vec![1, 2, 3];
    let second: Vec<u8> = vec![4, 5, 6, 7, 8, 9, 10, 11, 12];
    let other: Vec<u8> = vec![13];
    w.add_resource(ResourceType::Manifest, 2, &first);
    w.add_resource(ResourceType::Icon, 9, &other);
    w.add_resource(ResourceType::Manifest, 2, &second);
    w.add_resource(ResourceType::Manifest, 1, &first);
    let b = w.finish_at(1234);
    let o = parse(&b);
    check_shape(&b, &o);
    assert_eq!(o.timestamp, 1234);
    let kinds: Vec<(u32, u32, u32)> = o.leaves.iter().map(|l| (l.0, l.1, l.4)).collect();
    assert_eq!(kinds, vec![(3, 9, 1), (24, 1, 3), (24, 2, 9)]);
    // four payloads and their symbols stay, three are listed
    assert_eq!(o.symbols.len(), 8);
    let values: Vec<u32> = o.symbols[4..].iter().map(|s| s.value).collect();
    assert_eq!(values, vec![0, 8, 16, 32]);
    let symbols: Vec<u32> = o.relocations.iter().map(|r| r.1).collect();
    assert_eq!(symbols, vec![5, 6, 7]);
    let p = payloads(&b, &o);
    assert_eq!(p[0].2, other);
    assert_eq!(p[1].2, first);
    assert_eq!(p[2].2, second);
    assert_eq!(o.sections[1].size, 36);
}

#[test]
fn an_object_without_resources() {
    let b = CoffWriter2::new(TargetType::I386).finish_at(0);
    let o = parse(&b);
    check_shape(&b, &o);
    assert_eq!(o.sections[0].size, 16);
    assert_eq!(o.sections[1].size, 0);
    assert_eq!(b.len(), 100 + 16 + 4 * 18 + 4);
}
