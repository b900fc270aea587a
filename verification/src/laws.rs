//! What holds of every file that a builder compiles.

use vstd::prelude::*;
use crate::binary::{string_records, lemma_version_info_len, lemma_version_record_len};
use crate::encoding::{read16, read32, pad_len, lemma_pad_len};
use crate::builder::{
    ResourceBuilderView,
    empty_builder,
    object_with,
    lemma_resources,
    lemma_icon_resource,
    lemma_group_resource,
    lemma_manifest_resource,
    lemma_wf_counts,
    lemma_wf_icon,
    lemma_wf_groups_distinct,
    lemma_next_resource,
    lemma_coff_fits,
};
use crate::coff::TargetType;
use crate::coff2::laws::{
    holds,
    linked,
    lemma_added_linked,
    lemma_empty_linked,
    lemma_linked_symbols,
};
use crate::coff2::laws::{
    located,
    lemma_image_header,
    lemma_image_parts,
    lemma_image_sections,
    lemma_relocations_consistent,
};
use crate::coff2::layout::{
    LANG_US,
    leaf_offset,
    type_offset,
    table_len,
    table_bytes,
    table_fits,
    lemma_table_fits,
};
use crate::coff2::object::ascending;
use crate::coff2::table::{IdNode, ResourceLocation, symbols_within, table_contains};
use crate::coff2::walk::{entry_count, entry_id, entry_target, lemma_walk};
use crate::coff2::object::ObjectView;
use crate::res::{
    ResRecord,
    payloads_fit,
    record_start,
    lemma_record_start_aligned,
    lemma_record_extent,
    lemma_record_language,
    lemma_record_in_stream,
};
use crate::ResourceType;

verus! {

/// In a file that can be compiled to a `.res` stream every payload fits the
/// size word of its record.
pub proof fn lemma_records_fit(b: ResourceBuilderView)
    requires
        b.wf(),
        b.fits(),
    ensures
        payloads_fit(b.records()),
{
    lemma_resources(b);
    lemma_wf_counts(b);
    let n = b.icons.len() as int;
    let m = b.icon_groups.len() as int;
    let rs = b.records();
    assert forall|i: int| 0 <= i < rs.len() implies (#[trigger] rs[i]).payload.len()
        <= u32::MAX by {
        if i == 0 {
        } else if i == 1 {
            assert(rs[1] == b.resources()[0]);
            lemma_version_info_len(b.version);
        } else if i - 2 < n {
            lemma_icon_resource(b, i - 2);
        } else if i - 2 - n < m {
            lemma_group_resource(b, i - 2 - n);
        } else {
            lemma_manifest_resource(b);
        }
    }
}

/// Of every record of a compiled `.res` stream: it starts at a multiple of
/// four bytes; its size words, read back from the stream, give a header of 32
/// bytes and the size of its payload, and with the padding to four bytes
/// they add up to the distance to the next record; and its language word is
/// 0x0409, but zero for the record that opens the stream.
pub proof fn lemma_res_image_records(b: ResourceBuilderView, i: int)
    requires
        b.wf(),
        b.fits(),
        0 <= i < b.records().len(),
    ensures
        record_start(b.records(), i) % 4 == 0,
        record_start(b.records(), i) + 32 <= b.res_image().len(),
        read32(b.res_image(), record_start(b.records(), i) as int)
            == b.records()[i].payload.len(),
        read32(b.res_image(), (record_start(b.records(), i) + 4) as int) == 32,
        record_start(b.records(), i + 1) - record_start(b.records(), i) == 32
            + b.records()[i].payload.len() + pad_len(b.records()[i].payload.len(), 4),
        read16(b.res_image(), (record_start(b.records(), i) + 22) as int) == if b.records()[i].ty
            == ResourceType::Sentinel {
            0x0000int
        } else {
            0x0409int
        },
        b.res_image().len() % 4 == 0,
{
    lemma_records_fit(b);
    lemma_record_start_aligned(b.records(), i);
    lemma_record_start_aligned(b.records(), b.records().len() as int);
    assert(b.records().take(b.records().len() as int) =~= b.records());
    lemma_record_extent(b.records(), i);
    lemma_record_language(b.records(), i);
    lemma_record_in_stream(b.records(), i);
}

/// The empty build: a builder with nothing in it is well-formed and can be
/// compiled to a `.res` stream; the stream is 284 bytes long and holds the
/// empty record of 32 bytes and the version record, whose payload of 220
/// bytes lies behind a header of 32.
pub proof fn lemma_empty_build()
    ensures
        empty_builder().wf(),
        empty_builder().fits(),
        empty_builder().records().len() == 2,
        empty_builder().res_image().len() == 284,
        read32(empty_builder().res_image(), 0) == 0,
        read32(empty_builder().res_image(), 4) == 32,
        read32(empty_builder().res_image(), 32) == 220,
        read32(empty_builder().res_image(), 36) == 32,
{
    let b = empty_builder();
    let rs = b.records();
    assert(b.wf()) by {
        reveal(ResourceBuilderView::wf);
    }
    lemma_resources(b);
    lemma_version_record_len(b.version);
    lemma_version_info_len(b.version);
    assert(string_records(b.version.strings).len() == 0);
    lemma_pad_len(0, 4);
    lemma_pad_len(220, 4);
    assert(rs[1] == b.resources()[0]);
    assert(rs[1].payload.len() == 220);
    assert(pad_len(220, 4) == 0);
    lemma_res_image_records(b, 0);
    lemma_res_image_records(b, 1);
    assert(rs.take(0) =~= Seq::<ResRecord>::empty());
    assert(rs.take(2) =~= rs);
    assert(record_start(rs, 0) == 0);
    assert(record_start(rs, 1) == 32);
    assert(record_start(rs, 2) == 284);
}

/// No two resources of a file have the same type and identifier.
pub proof fn lemma_resources_distinct(b: ResourceBuilderView, i: int, j: int)
    requires
        b.wf(),
        0 <= i < j < b.resources().len(),
    ensures
        b.resources()[i].ty != b.resources()[j].ty || b.resources()[i].name
            != b.resources()[j].name,
{
    lemma_resources(b);
    lemma_wf_counts(b);
    let n = b.icons.len() as int;
    let m = b.icon_groups.len() as int;
    lemma_resource_type(b, i);
    lemma_resource_type(b, j);
    if 1 <= i <= n && 1 <= j <= n {
        lemma_icon_resource(b, i - 1);
        lemma_icon_resource(b, j - 1);
        lemma_wf_icon(b, i - 1);
        lemma_wf_icon(b, j - 1);
    } else if n < i <= n + m && n < j <= n + m {
        lemma_group_resource(b, i - 1 - n);
        lemma_group_resource(b, j - 1 - n);
        lemma_wf_groups_distinct(b, i - 1 - n, j - 1 - n);
    }
}

/// The type of a resource of a file, by its place.
pub proof fn lemma_resource_type(b: ResourceBuilderView, i: int)
    requires
        0 <= i < b.resources().len(),
    ensures
        b.resources()[i].ty == if i == 0 {
            ResourceType::Version
        } else if i <= b.icons.len() {
            ResourceType::Icon
        } else if i <= b.icons.len() + b.icon_groups.len() {
            ResourceType::IconGroup
        } else {
            ResourceType::Manifest
        },
{
    lemma_resources(b);
    let n = b.icons.len() as int;
    let m = b.icon_groups.len() as int;
    if i == 0 {
    } else if i <= n {
        lemma_icon_resource(b, i - 1);
    } else if i <= n + m {
        lemma_group_resource(b, i - 1 - n);
    } else {
        lemma_manifest_resource(b);
    }
}

/// The object of the first `k` resources of a file is linked, has a symbol
/// for each of them behind the four slots of the sections, and holds each of
/// them under its type and identifier.
#[verifier::rlimit(40)]
pub proof fn lemma_object_with(b: ResourceBuilderView, target: TargetType, k: nat)
    requires
        b.wf(),
        b.coff_fits(target),
        k <= b.resources().len(),
    ensures
        linked(object_with(target, b.resources(), k)),
        object_with(target, b.resources(), k).symbols.len() == 4 + k,
        object_with(target, b.resources(), k).target == target,
        forall|j: int|
            0 <= j < k ==> holds(
                object_with(target, b.resources(), k),
                (#[trigger] b.resources()[j]).ty,
                b.resources()[j].name as u32,
                b.resources()[j].payload,
            ),
    decreases k,
{
    let rs = b.resources();
    if k == 0 {
        lemma_empty_linked(target);
    } else {
        let before = object_with(target, rs, (k - 1) as nat);
        let after = before.added(rs[k - 1].ty, rs[k - 1].name as u32, rs[k - 1].payload);
        let r = rs[k - 1];
        lemma_object_with(b, target, (k - 1) as nat);
        assert(rs.len() <= 0x4_0000) by {
            lemma_resources(b);
            lemma_wf_counts(b);
        }
        lemma_next_resource(b, target, k - 1);
        assert(object_with(target, rs, k) == after);
        assert(before.symbols.len() < usize::MAX);
        assert(linked(after) && holds(after, r.ty, r.name as u32, r.payload)) by {
            lemma_added_linked(before, r.ty, r.name as u32, r.payload);
        }
        assert(after.symbols.len() == 4 + k && after.target == target) by {
            reveal(ObjectView::added);
        }
        assert forall|j: int| 0 <= j < k implies holds(
            after,
            (#[trigger] rs[j]).ty,
            rs[j].name as u32,
            rs[j].payload,
        ) by {
            if j < k - 1 {
                lemma_resources_distinct(b, j, k - 1);
                assert(holds(before, rs[j].ty, rs[j].name as u32, rs[j].payload));
                lemma_still_held(before, r, rs[j]);
            }
        }
    }
}

/// An object to which a resource is added still holds a resource of
/// another type or identifier.
proof fn lemma_still_held(o: ObjectView, new: ResRecord, held: ResRecord)
    requires
        linked(o),
        o.can_add(new.payload.len()),
        o.symbols.len() < usize::MAX,
        holds(o, held.ty, held.name as u32, held.payload),
        held.ty != new.ty || held.name != new.name,
    ensures
        holds(o.added(new.ty, new.name as u32, new.payload), held.ty, held.name as u32, held.payload),
{
    lemma_added_linked(o, new.ty, new.name as u32, new.payload);
}

/// Round trip: the object of a file can be written, is for the target, and
/// is linked: every payload lies at a multiple of eight bytes of the data,
/// under a symbol named after its offset. The object holds every resource of
/// the file under its type and identifier.
pub proof fn lemma_object_holds_resources(b: ResourceBuilderView, target: TargetType, k: int)
    requires
        b.wf(),
        b.coff_fits(target),
        0 <= k < b.resources().len(),
    ensures
        b.object(target).writable(),
        b.object(target).target == target,
        linked(b.object(target)),
        symbols_within(b.object(target).table, 4, b.object(target).symbols.len()),
        holds(
            b.object(target),
            b.resources()[k].ty,
            b.resources()[k].name as u32,
            b.resources()[k].payload,
        ),
{
    lemma_object_with(b, target, b.resources().len());
    lemma_coff_fits(b, target);
    lemma_linked_symbols(b.object(target));
}

/// Determinism: what is compiled is given by what the builder has
/// gathered. Two builders that have gathered the same compile to the same
/// `.res` stream and, for one target and one timestamp, to the same object.
pub proof fn lemma_same_input_same_output(
    a: ResourceBuilderView,
    b: ResourceBuilderView,
    target: TargetType,
    timestamp: u32,
)
    requires
        a == b,
    ensures
        a.res_image() == b.res_image(),
        a.object(target).image(timestamp) == b.object(target).image(timestamp),
{
}

/// Symbol and relocation consistency of a compiled object: its
/// relocations ascend by symbol; each refers to the symbol of a payload,
/// which the symbol table holds; and each fills in four bytes at a multiple
/// of four within the section `.rsrc$01`.
pub proof fn lemma_compiled_relocations(b: ResourceBuilderView, target: TargetType)
    requires
        b.wf(),
        b.coff_fits(target),
    ensures
        ascending(b.object(target).relocations()),
        forall|i: int|
            0 <= i < b.object(target).relocations().len() ==> 4 <= (
            #[trigger] b.object(target).relocations()[i]).1 < b.object(target).symbols.len(),
        forall|i: int|
            0 <= i < b.object(target).relocations().len() ==> (
            #[trigger] b.object(target).relocations()[i]).0 + 4 <= b.object(
                target,
            ).table_section_len(),
        forall|i: int|
            0 <= i < b.object(target).relocations().len() ==> (
            #[trigger] b.object(target).relocations()[i]).0 % 4 == 0,
{
    let o = b.object(target);
    lemma_object_with(b, target, b.resources().len());
    lemma_coff_fits(b, target);
    lemma_linked_symbols(o);
    lemma_table_fits(o.table);
    lemma_relocations_consistent(o);
}

/// Whether a reader that walks the resource directory of an object file
/// finds the resource `r` as entry `i` under entry `a` of the root. The
/// directory lies behind the hundred bytes of the headers. Entry `a` of the
/// root has the number of the type and points to a directory; entry `i` of
/// that directory has the identifier and points to a directory; the one
/// entry of that directory has the language 0x0409 and points to a data
/// entry, which holds the size of the payload. The payload lies at a
/// multiple of eight bytes in the section `.rsrc$02`, which lies where its
/// header says.
pub open spec fn walks_to(o: ObjectView, image: Seq<u8>, r: ResRecord, a: int, i: int) -> bool {
    let s = image.subrange(100, (100 + table_len(o.table)) as int);
    let ty = type_offset(o.table, a as nat) as int;
    let id = leaf_offset(type_offset(o.table, a as nat), o.table[a].ids.len(), i as nat) as int;
    let payload = read32(image, 80) + o.table[a].ids[i].location.offset;
    &&& 0 <= a < o.table.len()
    &&& 0 <= i < o.table[a].ids.len()
    &&& entry_id(s, 0, a) == r.ty.spec_id()
    &&& entry_target(s, 0, a) == 0x8000_0000 + ty
    &&& entry_id(s, ty, i) == r.name
    &&& entry_target(s, ty, i) == 0x8000_0000 + id
    &&& entry_count(s, id) == 1
    &&& entry_id(s, id, 0) == LANG_US
    &&& entry_target(s, id, 0) == id + 24
    &&& read32(s, id + 28) == r.payload.len()
    &&& o.table[a].ids[i].location.offset % 8 == 0
    &&& payload + r.payload.len() <= image.len()
    &&& image.subrange(payload, payload + r.payload.len()) == r.payload
}

/// A part of a part of a sequence is a part of the sequence.
proof fn lemma_part_of_part(s: Seq<u8>, from: int, to: int, a: int, b: int)
    requires
        0 <= from <= to <= s.len(),
        0 <= a <= b <= to - from,
    ensures
        s.subrange(from, to).subrange(a, b) == s.subrange(from + a, from + b),
{
    assert(s.subrange(from, to).subrange(a, b) =~= s.subrange(from + a, from + b));
}

/// A reader finds a resource of the table of an object in the resource
/// directory.
proof fn lemma_walks_to_entry(o: ObjectView, s: Seq<u8>, r: ResRecord, a: int, i: int)
    requires
        table_fits(o.table),
        s == table_bytes(o.table),
        0 <= a < o.table.len(),
        0 <= i < o.table[a].ids.len(),
        o.table[a].ty == r.ty,
        o.table[a].ids[i].id == r.name,
        o.table[a].ids[i].location.size == r.payload.len(),
    ensures
        ({
            let ty = type_offset(o.table, a as nat) as int;
            let id = leaf_offset(
                type_offset(o.table, a as nat),
                o.table[a].ids.len(),
                i as nat,
            ) as int;
            &&& entry_id(s, 0, a) == r.ty.spec_id()
            &&& entry_target(s, 0, a) == 0x8000_0000 + ty
            &&& entry_id(s, ty, i) == r.name
            &&& entry_target(s, ty, i) == 0x8000_0000 + id
            &&& entry_count(s, id) == 1
            &&& entry_id(s, id, 0) == LANG_US
            &&& entry_target(s, id, 0) == id + 24
            &&& read32(s, id + 28) == r.payload.len()
        }),
{
    lemma_walk(o.table, a as nat, i as nat);
}

/// A payload that lies in the data lies in the file where the data lie.
proof fn lemma_payload_in(image: Seq<u8>, data: Seq<u8>, from: int, offset: int, payload: Seq<u8>)
    requires
        0 <= from,
        from + data.len() <= image.len(),
        image.subrange(from, from + data.len()) == data,
        0 <= offset,
        offset + payload.len() <= data.len(),
        data.subrange(offset, offset + payload.len()) == payload,
    ensures
        from + offset + payload.len() <= image.len(),
        image.subrange(from + offset, from + offset + payload.len()) == payload,
{
    lemma_part_of_part(image, from, from + data.len(), offset, offset + payload.len());
}

/// A reader finds a resource of the table of an object in a file that
/// holds the resource directory behind its headers and the data where the
/// header of the section `.rsrc$02` says.
proof fn lemma_walks_to_in(o: ObjectView, image: Seq<u8>, r: ResRecord, a: int, i: int)
    requires
        table_fits(o.table),
        100 + table_len(o.table) <= image.len(),
        0 <= read32(image, 80),
        read32(image, 80) + o.data.len() <= image.len(),
        image.subrange(100, (100 + table_len(o.table)) as int) == table_bytes(o.table),
        image.subrange(read32(image, 80), read32(image, 80) + o.data.len()) == o.data,
        0 <= a < o.table.len(),
        0 <= i < o.table[a].ids.len(),
        o.table[a].ty == r.ty,
        o.table[a].ids[i].id == r.name,
        o.table[a].ids[i].location.size == r.payload.len(),
        o.table[a].ids[i].location.offset % 8 == 0,
        o.table[a].ids[i].location.offset + r.payload.len() <= o.data.len(),
        o.data.subrange(
            o.table[a].ids[i].location.offset as int,
            o.table[a].ids[i].location.offset + r.payload.len(),
        ) == r.payload,
    ensures
        walks_to(o, image, r, a, i),
{
    lemma_walks_to_entry(
        o,
        image.subrange(100, (100 + table_len(o.table)) as int),
        r,
        a,
        i,
    );
    lemma_payload_in(
        image,
        o.data,
        read32(image, 80),
        o.table[a].ids[i].location.offset as int,
        r.payload,
    );
}

/// A reader finds a resource of the table of an object that can be
/// written, whose payload lies in the data at a multiple of eight bytes.
pub proof fn lemma_walks_to(o: ObjectView, timestamp: u32, r: ResRecord, a: int, i: int)
    requires
        o.writable(),
        0 <= a < o.table.len(),
        0 <= i < o.table[a].ids.len(),
        o.table[a].ty == r.ty,
        o.table[a].ids[i].id == r.name,
        o.table[a].ids[i].location.size == r.payload.len(),
        o.table[a].ids[i].location.offset % 8 == 0,
        o.table[a].ids[i].location.offset + r.payload.len() <= o.data.len(),
        o.data.subrange(
            o.table[a].ids[i].location.offset as int,
            o.table[a].ids[i].location.offset + r.payload.len(),
        ) == r.payload,
    ensures
        walks_to(o, o.image(timestamp), r, a, i),
{
    lemma_table_fits(o.table);
    lemma_image_parts(o, timestamp);
    lemma_image_sections(o, timestamp);
    lemma_walks_to_in(o, o.image(timestamp), r, a, i);
}

/// Round trip of a compiled object: a reader finds in the file header the
/// machine of the target and two sections, and finds every resource of the
/// file when it walks the resource directory.
pub proof fn lemma_round_trip(b: ResourceBuilderView, target: TargetType, timestamp: u32, k: int)
    requires
        b.wf(),
        b.coff_fits(target),
        0 <= k < b.resources().len(),
    ensures
        read16(b.object(target).image(timestamp), 0) == target.spec_id(),
        read16(b.object(target).image(timestamp), 2) == 2,
        exists|a: int, i: int| #[trigger]
            walks_to(
                b.object(target),
                b.object(target).image(timestamp),
                b.resources()[k],
                a,
                i,
            ),
{
    let o = b.object(target);
    let r = b.resources()[k];
    lemma_object_holds_resources(b, target, k);
    lemma_image_header(o, timestamp);
    let location = choose|location: ResourceLocation| #[trigger]
        table_contains(o.table, r.ty, IdNode { id: r.name as u32, location }) && location.size
            == r.payload.len() && location.offset + location.size <= o.data.len()
            && o.data.subrange(location.offset as int, location.offset + location.size)
            == r.payload;
    let node = IdNode { id: r.name as u32, location };
    let (a, i) = choose|a: int, i: int|
        0 <= a < o.table.len() && 0 <= i < o.table[a].ids.len() && o.table[a].ty == r.ty
            && #[trigger] o.table[a].ids[i] == node;
    assert(located(o, location));
    lemma_walks_to(o, timestamp, r, a, i);
}

} // verus!
