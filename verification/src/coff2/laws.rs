//! What holds of every object: where its parts lie in the file, what its
//! relocations refer to, and where its payloads lie.

use vstd::prelude::*;
use crate::encoding::{
    le16,
    le32,
    zeros,
    padding,
    read16,
    read32,
    lemma_le16_round_trip,
    lemma_le32_round_trip,
    lemma_read_subrange,
    lemma_pad_len,
};
use crate::coff::TargetType;
use crate::coff2::table::{
    IdNode,
    ResourceLocation,
    Table,
    symbols_within,
    table_inserted,
    table_contains,
    table_sorted,
    ids_inserted,
    id_rank,
    type_rank,
    lemma_id_rank,
    lemma_type_rank,
    lemma_table_inserted_sorted,
};
use crate::coff2::layout::{
    id_block_len,
    type_offset,
    table_len,
    table_bytes,
    leaf_relocations,
    type_relocations,
    table_relocations,
    lemma_type_offset_monotonic,
    lemma_table_bytes_len,
};
use crate::coff2::object::{
    section_header,
    table_section_name,
    data_section_name,
    ObjectView,
    SymbolView,
    empty_object,
    symbol_name,
    symbols_bytes,
    back_rank,
    sorted_by_symbol,
    ascending,
    lemma_back_rank,
    lemma_sorted_by_symbol,
};
use crate::coff2::walk::{lemma_type_offset_aligned, lemma_leaf_offset_aligned};
use crate::ResourceType;

verus! {

/// Whether `p` holds of every relocation of a list.
pub open spec fn all_relocations(
    rs: Seq<(usize, usize)>,
    p: spec_fn((usize, usize)) -> bool,
) -> bool {
    forall|i: int| 0 <= i < rs.len() ==> p(#[trigger] rs[i])
}

/// What holds of every relocation of a list holds of every one of the sorted list.
pub proof fn lemma_sorted_keeps(rs: Seq<(usize, usize)>, p: spec_fn((usize, usize)) -> bool)
    requires
        all_relocations(rs, p),
    ensures
        all_relocations(sorted_by_symbol(rs), p),
    decreases rs.len(),
{
    if rs.len() > 0 {
        let t = rs.drop_last();
        let x = rs.last();
        assert forall|i: int| 0 <= i < t.len() implies p(#[trigger] t[i]) by {
            assert(t[i] == rs[i]);
        }
        lemma_sorted_keeps(t, p);
        let before = sorted_by_symbol(t);
        lemma_back_rank(before, x.1);
        let k = back_rank(before, x.1) as int;
        let r = before.insert(k, x);
        assert forall|i: int| 0 <= i < r.len() implies p(#[trigger] r[i]) by {
            if i < k {
                assert(r[i] == before[i]);
            } else if i > k {
                assert(r[i] == before[i - 1]);
            }
        }
    }
}

/// What a relocation of the directory refers to: a symbol in `lo..hi`, and
/// four bytes at a multiple of four within the first `len` bytes of the section.
pub open spec fn relocation_within(lo: nat, hi: nat, len: nat) -> spec_fn((usize, usize)) -> bool {
    |r: (usize, usize)| lo <= r.1 < hi && r.0 + 4 <= len && r.0 % 4 == 0
}

proof fn lemma_leaf_relocations_within(
    base: nat,
    ids: Seq<IdNode>,
    k: nat,
    lo: nat,
    hi: nat,
    len: nat,
)
    requires
        k <= ids.len(),
        base % 4 == 0,
        base + id_block_len(ids.len()) <= len <= usize::MAX,
        forall|b: int| 0 <= b < ids.len() ==> lo <= (#[trigger] ids[b]).location.symbol_id < hi,
    ensures
        all_relocations(leaf_relocations(base, ids, k), relocation_within(lo, hi, len)),
    decreases k,
{
    if k > 0 {
        lemma_leaf_relocations_within(base, ids, (k - 1) as nat, lo, hi, len);
        lemma_leaf_offset_aligned(base, ids.len(), (k - 1) as nat);
        let before = leaf_relocations(base, ids, (k - 1) as nat);
        let r = leaf_relocations(base, ids, k);
        let p = relocation_within(lo, hi, len);
        assert forall|i: int| 0 <= i < r.len() implies p(#[trigger] r[i]) by {
            if i < before.len() {
                assert(r[i] == before[i]);
            } else {
                assert(ids[k - 1].location.symbol_id < hi);
            }
        }
    }
}

proof fn lemma_type_relocations_within(t: Table, k: nat, lo: nat, hi: nat)
    requires
        k <= t.len(),
        table_len(t) <= usize::MAX,
        symbols_within(t, lo, hi),
    ensures
        all_relocations(type_relocations(t, k), relocation_within(lo, hi, table_len(t))),
    decreases k,
{
    if k > 0 {
        lemma_type_relocations_within(t, (k - 1) as nat, lo, hi);
        let base = type_offset(t, (k - 1) as nat);
        let ids = t[k - 1].ids;
        lemma_type_offset_aligned(t, (k - 1) as nat);
        lemma_type_offset_monotonic(t, k, t.len());
        assert forall|b: int| 0 <= b < ids.len() implies lo <= (
        #[trigger] ids[b]).location.symbol_id < hi by {
            assert(t[k - 1].ids[b] == ids[b]);
        }
        lemma_leaf_relocations_within(base, ids, ids.len(), lo, hi, table_len(t));
        let before = type_relocations(t, (k - 1) as nat);
        let added = leaf_relocations(base, ids, ids.len());
        let r = type_relocations(t, k);
        let p = relocation_within(lo, hi, table_len(t));
        assert forall|i: int| 0 <= i < r.len() implies p(#[trigger] r[i]) by {
            if i < before.len() {
                assert(r[i] == before[i]);
            } else {
                assert(r[i] == added[i - before.len()]);
            }
        }
    }
}

/// Symbol and relocation consistency: every relocation of an object refers
/// to a symbol of a payload, which the symbol table holds; the place that it
/// fills in lies in the section `.rsrc$01`, at a multiple of four bytes; and
/// the relocations ascend by symbol.
pub proof fn lemma_relocations_consistent(o: ObjectView)
    requires
        table_len(o.table) <= usize::MAX,
        symbols_within(o.table, 4, o.symbols.len()),
    ensures
        ascending(o.relocations()),
        forall|i: int|
            0 <= i < o.relocations().len() ==> 4 <= (#[trigger] o.relocations()[i]).1
                < o.symbols.len(),
        forall|i: int|
            0 <= i < o.relocations().len() ==> (#[trigger] o.relocations()[i]).0 + 4
                <= o.table_section_len(),
        forall|i: int| 0 <= i < o.relocations().len() ==> (#[trigger] o.relocations()[i]).0 % 4 == 0,
{
    let p = relocation_within(4, o.symbols.len(), table_len(o.table));
    lemma_type_relocations_within(o.table, o.table.len(), 4, o.symbols.len());
    lemma_sorted_keeps(table_relocations(o.table), p);
    lemma_sorted_by_symbol(table_relocations(o.table));
    assert forall|i: int| 0 <= i < o.relocations().len() implies 4 <= (
    #[trigger] o.relocations()[i]).1 < o.symbols.len() && o.relocations()[i].0 + 4
        <= o.table_section_len() && o.relocations()[i].0 % 4 == 0 by {
        assert(p(o.relocations()[i]));
    }
}

/// A table with a resource entered holds that resource; it holds every
/// resource of another type or identifier that it held before; and it
/// holds nothing else.
pub proof fn lemma_table_inserted_contains(t: Table, ty: ResourceType, node: IdNode)
    ensures
        table_contains(table_inserted(t, ty, node), ty, node),
        forall|ty2: ResourceType, n2: IdNode|
            table_contains(t, ty2, n2) && (ty2 != ty || n2.id != node.id) ==> table_contains(
                table_inserted(t, ty, node),
                ty2,
                n2,
            ),
        forall|ty2: ResourceType, n2: IdNode| #[trigger]
            table_contains(table_inserted(t, ty, node), ty2, n2) ==> (ty2 == ty && n2 == node)
                || table_contains(t, ty2, n2),
{
    lemma_type_rank(t, ty);
    let i = type_rank(t, ty) as int;
    let r = table_inserted(t, ty, node);
    if i < t.len() && t[i].ty == ty {
        let ids = t[i].ids;
        lemma_id_rank(ids, node.id);
        let j = id_rank(ids, node.id) as int;
        let ids2 = ids_inserted(ids, node);
        assert(r[i].ids == ids2);
        assert(r[i].ids[j] == node);
        assert forall|ty2: ResourceType, n2: IdNode|
            table_contains(t, ty2, n2) && (ty2 != ty || n2.id != node.id) implies table_contains(
            r,
            ty2,
            n2,
        ) by {
            let (a, b) = choose|a: int, b: int|
                0 <= a < t.len() && 0 <= b < t[a].ids.len() && t[a].ty == ty2 && #[trigger] t[a].ids[b]
                    == n2;
            if a != i {
                assert(r[a] == t[a]);
                assert(r[a].ids[b] == n2);
            } else if j < ids.len() && ids[j].id == node.id {
                assert(r[i].ids[b] == n2);
            } else if b < j {
                assert(r[i].ids[b] == n2);
            } else {
                assert(r[i].ids[b + 1] == n2);
            }
        }
        assert forall|ty2: ResourceType, n2: IdNode| #[trigger]
            table_contains(r, ty2, n2) implies (ty2 == ty && n2 == node) || table_contains(
            t,
            ty2,
            n2,
        ) by {
            let (a, b) = choose|a: int, b: int|
                0 <= a < r.len() && 0 <= b < r[a].ids.len() && r[a].ty == ty2 && #[trigger] r[a].ids[b]
                    == n2;
            if a != i {
                assert(r[a] == t[a]);
                assert(t[a].ids[b] == n2);
            } else if j < ids.len() && ids[j].id == node.id {
                if b != j {
                    assert(t[i].ids[b] == n2);
                }
            } else if b < j {
                assert(t[i].ids[b] == n2);
            } else if b > j {
                assert(t[i].ids[b - 1] == n2);
            }
        }
    } else {
        assert(r[i].ids =~= seq![node]);
        assert(r[i].ids[0] == node);
        assert forall|ty2: ResourceType, n2: IdNode|
            table_contains(t, ty2, n2) && (ty2 != ty || n2.id != node.id) implies table_contains(
            r,
            ty2,
            n2,
        ) by {
            let (a, b) = choose|a: int, b: int|
                0 <= a < t.len() && 0 <= b < t[a].ids.len() && t[a].ty == ty2 && #[trigger] t[a].ids[b]
                    == n2;
            if a < i {
                assert(r[a] == t[a]);
                assert(r[a].ids[b] == n2);
            } else {
                assert(r[a + 1] == t[a]);
                assert(r[a + 1].ids[b] == n2);
            }
        }
        assert forall|ty2: ResourceType, n2: IdNode| #[trigger]
            table_contains(r, ty2, n2) implies (ty2 == ty && n2 == node) || table_contains(
            t,
            ty2,
            n2,
        ) by {
            let (a, b) = choose|a: int, b: int|
                0 <= a < r.len() && 0 <= b < r[a].ids.len() && r[a].ty == ty2 && #[trigger] r[a].ids[b]
                    == n2;
            if a < i {
                assert(r[a] == t[a]);
                assert(t[a].ids[b] == n2);
            } else if a > i {
                assert(r[a] == t[a - 1]);
                assert(t[a - 1].ids[b] == n2);
            }
        }
    }
}

/// Whether a place of the table agrees with the data and the symbols: the
/// payload lies in the data at a multiple of eight bytes, and its symbol is
/// named after its offset, holds it, and stands in the second section.
pub open spec fn located(o: ObjectView, location: ResourceLocation) -> bool {
    &&& location.offset % 8 == 0
    &&& location.offset + location.size <= o.data.len()
    &&& 4 <= location.symbol_id < o.symbols.len()
    &&& o.symbols[location.symbol_id as int] == (SymbolView::Resource {
        name: symbol_name(location.offset as nat),
        offset: location.offset as u32,
        section_number: 2,
    })
}

/// Whether the table, the data and the symbol table of an object agree:
/// the table is in order and every place in it is [`located`].
pub open spec fn linked(o: ObjectView) -> bool {
    &&& o.symbols.len() >= 4
    &&& table_sorted(o.table)
    &&& forall|ty: ResourceType, node: IdNode| #[trigger]
        table_contains(o.table, ty, node) ==> located(o, node.location)
}

/// Whether an object holds `payload` under `ty` and `id`: the directory
/// lists them with the size of the payload, and the payload lies in the
/// data where the directory says.
pub open spec fn holds(o: ObjectView, ty: ResourceType, id: u32, payload: Seq<u8>) -> bool {
    exists|location: ResourceLocation| #[trigger]
        table_contains(o.table, ty, IdNode { id, location }) && location.size == payload.len()
            && location.offset + location.size <= o.data.len() && o.data.subrange(
            location.offset as int,
            location.offset + location.size,
        ) == payload
}

/// In a linked object every resource of the table has its symbol among
/// the symbols of the payloads.
pub proof fn lemma_linked_symbols(o: ObjectView)
    requires
        linked(o),
    ensures
        symbols_within(o.table, 4, o.symbols.len()),
{
    assert forall|a: int, b: int|
        0 <= a < o.table.len() && 0 <= b < o.table[a].ids.len() implies 4 <= (
    #[trigger] o.table[a].ids[b]).location.symbol_id < o.symbols.len() by {
        assert(table_contains(o.table, o.table[a].ty, o.table[a].ids[b]));
        assert(located(o, o.table[a].ids[b].location));
    }
}

/// An object without resources is linked.
pub proof fn lemma_empty_linked(target: TargetType)
    ensures
        linked(empty_object(target)),
{
}

/// Adding a resource keeps an object linked; the object then holds the
/// resource, at a multiple of eight bytes of the data, and still holds what
/// it held under another type or identifier.
pub proof fn lemma_added_linked(o: ObjectView, ty: ResourceType, id: u32, payload: Seq<u8>)
    requires
        linked(o),
        o.can_add(payload.len()),
        o.symbols.len() < usize::MAX,
    ensures
        linked(o.added(ty, id, payload)),
        holds(o.added(ty, id, payload), ty, id, payload),
        o.next_offset() % 8 == 0,
        forall|ty2: ResourceType, id2: u32, p2: Seq<u8>|
            holds(o, ty2, id2, p2) && (ty2 != ty || id2 != id) ==> holds(
                o.added(ty, id, payload),
                ty2,
                id2,
                p2,
            ),
{
    reveal(ObjectView::added);
    let r = o.added(ty, id, payload);
    let location = ResourceLocation {
        offset: o.next_offset() as usize,
        size: payload.len() as usize,
        symbol_id: o.symbols.len() as usize,
    };
    let node = IdNode { id, location };
    lemma_pad_len(o.data.len(), 8);
    lemma_table_inserted_contains(o.table, ty, node);
    lemma_table_inserted_sorted(o.table, ty, node);
    assert(r.data.subrange(location.offset as int, location.offset + location.size) =~= payload);
    assert(located(r, location));
    assert forall|ty2: ResourceType, n2: IdNode| #[trigger]
        table_contains(r.table, ty2, n2) implies located(r, n2.location) by {
        if !(ty2 == ty && n2 == node) {
            assert(table_contains(o.table, ty2, n2));
            assert(located(o, n2.location));
        }
    }
    assert forall|ty2: ResourceType, id2: u32, p2: Seq<u8>|
        holds(o, ty2, id2, p2) && (ty2 != ty || id2 != id) implies holds(r, ty2, id2, p2) by {
        let l2 = choose|l2: ResourceLocation| #[trigger]
            table_contains(o.table, ty2, IdNode { id: id2, location: l2 }) && l2.size == p2.len()
                && l2.offset + l2.size <= o.data.len() && o.data.subrange(
                l2.offset as int,
                l2.offset + l2.size,
            ) == p2;
        assert(table_contains(r.table, ty2, IdNode { id: id2, location: l2 }));
        assert(r.data.subrange(l2.offset as int, l2.offset + l2.size) =~= o.data.subrange(
            l2.offset as int,
            l2.offset + l2.size,
        ));
    }
    assert(table_contains(r.table, ty, IdNode { id, location }));
}

/// What a reader finds in a file header.
pub proof fn lemma_read_file_header(o: ObjectView, timestamp: u32)
    ensures
        o.file_header(timestamp).len() == 20,
        read16(o.file_header(timestamp), 0) == o.target.spec_id(),
        read16(o.file_header(timestamp), 2) == 2,
        read32(o.file_header(timestamp), 4) == timestamp,
        read32(o.file_header(timestamp), 8) == o.symbols_pointer() as u32,
        read32(o.file_header(timestamp), 12) == o.symbols.len() as u32,
{
    let header = o.file_header(timestamp);
    lemma_le16_round_trip(o.target.spec_id());
    lemma_le16_round_trip(2);
    lemma_le32_round_trip(timestamp);
    lemma_le32_round_trip(o.symbols_pointer() as u32);
    lemma_le32_round_trip(o.symbols.len() as u32);
    assert(header.subrange(0, 4) =~= le16(o.target.spec_id()) + le16(2));
    assert(header.subrange(4, 8) =~= le32(timestamp));
    assert(header.subrange(8, 12) =~= le32(o.symbols_pointer() as u32));
    assert(header.subrange(12, 16) =~= le32(o.symbols.len() as u32));
    lemma_read_subrange(header, 0, 4, 0);
    lemma_read_subrange(header, 4, 8, 0);
    lemma_read_subrange(header, 8, 12, 0);
    lemma_read_subrange(header, 12, 16, 0);
    assert(read16(header, 2) == 2) by {
        assert(header[2] == le16(2)[0]);
        assert(header[3] == le16(2)[1]);
    }
}

/// The headers of an object are a hundred bytes long.
#[verifier::rlimit(40)]
pub proof fn lemma_headers_len(o: ObjectView, timestamp: u32)
    ensures
        o.file_header(timestamp).len() == 20,
        o.section_headers().len() == 80,
{
    lemma_read_file_header(o, timestamp);
    lemma_read_section_header(
        table_section_name(),
        o.table_section_len() as u32,
        100,
        o.relocations_pointer() as u32,
        o.relocations().len() as u16,
    );
    lemma_read_section_header(
        data_section_name(),
        o.data_section_len() as u32,
        o.data_pointer() as u32,
        0,
        0,
    );
}

/// The parts of an object file, one behind the other.
proof fn lemma_image_split_of(o: ObjectView, timestamp: u32)
    ensures
        ({
            let image = o.image(timestamp);
            let data_start = 100 + table_bytes(o.table).len() + padding(
                table_len(o.table),
                4,
            ).len() + o.relocation_area().len();
            &&& image.len() == data_start + o.data.len() + padding(o.data.len(), 4).len()
                + symbols_bytes(o.final_symbols(), o.symbols.len()).len() + 4
            &&& image.subrange(0, 20) == o.file_header(timestamp)
            &&& image.subrange(20, 100) == o.section_headers()
            &&& image.subrange(100, (100 + table_bytes(o.table).len()) as int) == table_bytes(
                o.table,
            )
            &&& image.subrange(data_start as int, (data_start + o.data.len()) as int) == o.data
        }),
{
    lemma_headers_len(o, timestamp);
    lemma_image_split(
        o.file_header(timestamp),
        o.section_headers(),
        table_bytes(o.table),
        padding(table_len(o.table), 4),
        o.relocation_area(),
        o.data,
        padding(o.data.len(), 4),
        symbols_bytes(o.final_symbols(), o.symbols.len()),
        zeros(4),
    );
}

/// What a reader finds in the file header of an object: the machine of
/// the target, two sections, the timestamp, where the symbol table lies
/// and how many records it has.
pub proof fn lemma_image_header(o: ObjectView, timestamp: u32)
    requires
        o.writable(),
    ensures
        o.image(timestamp).len() >= 100,
        read16(o.image(timestamp), 0) == o.target.spec_id(),
        read16(o.image(timestamp), 2) == 2,
        read32(o.image(timestamp), 4) == timestamp,
        read32(o.image(timestamp), 8) == o.symbols_pointer(),
        read32(o.image(timestamp), 12) == o.symbols.len(),
{
    let image = o.image(timestamp);
    lemma_read_file_header(o, timestamp);
    crate::coff2::lemma_object_bounds(o);
    lemma_image_split_of(o, timestamp);
    lemma_read_subrange(image, 0, 20, 0);
    lemma_read_subrange(image, 0, 20, 2);
    lemma_read_subrange(image, 0, 20, 4);
    lemma_read_subrange(image, 0, 20, 8);
    lemma_read_subrange(image, 0, 20, 12);
}

/// What a reader finds in a section header.
pub proof fn lemma_read_section_header(
    name: Seq<u8>,
    size: u32,
    pointer: u32,
    relocations_pointer: u32,
    relocations: u16,
)
    requires
        name.len() == 8,
    ensures
        section_header(name, size, pointer, relocations_pointer, relocations).len() == 40,
        section_header(name, size, pointer, relocations_pointer, relocations).subrange(0, 8)
            == name,
        read32(section_header(name, size, pointer, relocations_pointer, relocations), 16) == size,
        read32(section_header(name, size, pointer, relocations_pointer, relocations), 20)
            == pointer,
        read32(section_header(name, size, pointer, relocations_pointer, relocations), 24)
            == relocations_pointer,
        read16(section_header(name, size, pointer, relocations_pointer, relocations), 32)
            == relocations,
{
    let h = section_header(name, size, pointer, relocations_pointer, relocations);
    lemma_le32_round_trip(size);
    lemma_le32_round_trip(pointer);
    lemma_le32_round_trip(relocations_pointer);
    lemma_le16_round_trip(relocations);
    assert(h.subrange(0, 8) =~= name);
    assert(h.subrange(16, 20) =~= le32(size));
    assert(h.subrange(20, 24) =~= le32(pointer));
    assert(h.subrange(24, 28) =~= le32(relocations_pointer));
    assert(h.subrange(32, 36) =~= le16(relocations) + le16(0));
    lemma_read_subrange(h, 16, 20, 0);
    lemma_read_subrange(h, 20, 24, 0);
    lemma_read_subrange(h, 24, 28, 0);
    lemma_read_subrange(h, 32, 36, 0);
}

/// What a reader finds in the section headers of an object: the names of
/// the two sections; the size of each and where it lies; and for `.rsrc$01`
/// where its relocation records lie and how many there are.
pub proof fn lemma_image_sections(o: ObjectView, timestamp: u32)
    requires
        o.writable(),
    ensures
        o.image(timestamp).len() >= 100,
        o.image(timestamp).subrange(20, 28) == table_section_name(),
        read32(o.image(timestamp), 36) == o.table_section_len(),
        read32(o.image(timestamp), 40) == 100,
        read32(o.image(timestamp), 44) == o.relocations_pointer(),
        read16(o.image(timestamp), 52) == o.relocations().len(),
        o.image(timestamp).subrange(60, 68) == data_section_name(),
        read32(o.image(timestamp), 76) == o.data_section_len(),
        read32(o.image(timestamp), 80) == o.data_pointer(),
        read32(o.image(timestamp), 84) == 0,
        read16(o.image(timestamp), 92) == 0,
{
    let image = o.image(timestamp);
    let first = section_header(
        table_section_name(),
        o.table_section_len() as u32,
        100,
        o.relocations_pointer() as u32,
        o.relocations().len() as u16,
    );
    let second = section_header(
        data_section_name(),
        o.data_section_len() as u32,
        o.data_pointer() as u32,
        0,
        0,
    );
    crate::coff2::lemma_object_bounds(o);
    lemma_image_split_of(o, timestamp);
    lemma_read_section_header(
        table_section_name(),
        o.table_section_len() as u32,
        100,
        o.relocations_pointer() as u32,
        o.relocations().len() as u16,
    );
    lemma_read_section_header(
        data_section_name(),
        o.data_section_len() as u32,
        o.data_pointer() as u32,
        0,
        0,
    );
    lemma_two_headers(image, first, second);
}

/// What a reader finds in two section headers that lie behind a file header.
proof fn lemma_two_headers(image: Seq<u8>, first: Seq<u8>, second: Seq<u8>)
    requires
        image.len() >= 100,
        first.len() == 40,
        second.len() == 40,
        image.subrange(20, 100) == first + second,
    ensures
        image.subrange(20, 28) == first.subrange(0, 8),
        image.subrange(60, 68) == second.subrange(0, 8),
        read32(image, 36) == read32(first, 16),
        read32(image, 40) == read32(first, 20),
        read32(image, 44) == read32(first, 24),
        read16(image, 52) == read16(first, 32),
        read32(image, 76) == read32(second, 16),
        read32(image, 80) == read32(second, 20),
        read32(image, 84) == read32(second, 24),
        read16(image, 92) == read16(second, 32),
{
    let both = first + second;
    assert(image.subrange(20, 28) =~= both.subrange(0, 8));
    assert(both.subrange(0, 8) =~= first.subrange(0, 8));
    assert(image.subrange(60, 68) =~= both.subrange(40, 48));
    assert(both.subrange(40, 48) =~= second.subrange(0, 8));
    assert(both.subrange(0, 40) =~= first);
    assert(both.subrange(40, 80) =~= second);
    lemma_read_subrange(image, 20, 100, 16);
    lemma_read_subrange(image, 20, 100, 20);
    lemma_read_subrange(image, 20, 100, 24);
    lemma_read_subrange(image, 20, 100, 32);
    lemma_read_subrange(image, 20, 100, 56);
    lemma_read_subrange(image, 20, 100, 60);
    lemma_read_subrange(image, 20, 100, 64);
    lemma_read_subrange(image, 20, 100, 72);
    lemma_read_subrange(both, 0, 40, 16);
    lemma_read_subrange(both, 0, 40, 20);
    lemma_read_subrange(both, 0, 40, 24);
    lemma_read_subrange(both, 0, 40, 32);
    lemma_read_subrange(both, 40, 80, 16);
    lemma_read_subrange(both, 40, 80, 20);
    lemma_read_subrange(both, 40, 80, 24);
    lemma_read_subrange(both, 40, 80, 32);
}

/// Where the sections of an object lie in the file: the section
/// `.rsrc$01` lies behind the headers and opens with the resource directory;
/// the payloads lie at the offset that the header of `.rsrc$02` gives,
/// which is a multiple of four.
pub proof fn lemma_image_parts(o: ObjectView, timestamp: u32)
    requires
        o.writable(),
    ensures
        100 + table_len(o.table) <= o.data_pointer(),
        o.data_pointer() + o.data.len() <= o.image(timestamp).len(),
        o.image(timestamp).subrange(100, (100 + table_len(o.table)) as int) == table_bytes(
            o.table,
        ),
        o.image(timestamp).subrange(
            o.data_pointer() as int,
            (o.data_pointer() + o.data.len()) as int,
        ) == o.data,
        o.data_pointer() % 4 == 0,
{
    crate::coff2::lemma_object_lengths(o);
    lemma_table_bytes_len(o.table);
    lemma_image_split_of(o, timestamp);
    assert(table_bytes(o.table).len() + padding(table_len(o.table), 4).len()
        == o.table_section_len());
}

/// Where the parts of a file lie in it.
proof fn lemma_image_split(
    header: Seq<u8>,
    sections: Seq<u8>,
    table: Seq<u8>,
    table_pad: Seq<u8>,
    relocations: Seq<u8>,
    data: Seq<u8>,
    data_pad: Seq<u8>,
    symbols: Seq<u8>,
    strings: Seq<u8>,
)
    ensures
        ({
            let image = header + sections + (table + table_pad + relocations + (data + data_pad)
                + symbols + strings);
            let start = header.len() + sections.len();
            let data_start = start + table.len() + table_pad.len() + relocations.len();
            &&& image.len() == data_start + data.len() + data_pad.len() + symbols.len()
                + strings.len()
            &&& image.subrange(0, header.len() as int) == header
            &&& image.subrange(header.len() as int, start as int) == sections
            &&& image.subrange(start as int, (start + table.len()) as int) == table
            &&& image.subrange(data_start as int, (data_start + data.len()) as int) == data
        }),
{
    let image = header + sections + (table + table_pad + relocations + (data + data_pad) + symbols
        + strings);
    let start = header.len() + sections.len();
    let data_start = start + table.len() + table_pad.len() + relocations.len();
    assert(image.subrange(0, header.len() as int) =~= header);
    assert(image.subrange(header.len() as int, start as int) =~= sections);
    assert(image.subrange(start as int, (start + table.len()) as int) =~= table);
    assert(image.subrange(data_start as int, (data_start + data.len()) as int) =~= data);
}

} // verus!
