//! Reading the resource directory back: what a reader finds when it walks
//! from the root to a resource.

use vstd::prelude::*;
use crate::encoding::{
    read16,
    read32,
    lemma_le16_round_trip,
    lemma_le32_round_trip,
    lemma_read_subrange,
};
use crate::coff2::table::{IdNode, Table};
use crate::coff2::layout::{
    LANG_US,
    dir_header,
    dir_entry,
    subdir,
    data_entry,
    leaf_block,
    leaf_offset,
    id_entries,
    leaf_blocks,
    id_block,
    id_block_len,
    type_offset,
    type_entries,
    type_blocks,
    table_len,
    table_bytes,
    table_fits,
    lemma_id_entries_len,
    lemma_id_block_len,
    lemma_type_entries_len,
    lemma_type_offset_monotonic,
    lemma_table_bytes_len,
};

verus! {

/// The number of entries of the directory at `dir`.
pub open spec fn entry_count(section: Seq<u8>, dir: int) -> int {
    read16(section, dir + 14)
}

/// The number of entry `k` of the directory at `dir`.
pub open spec fn entry_id(section: Seq<u8>, dir: int, k: int) -> int {
    read32(section, dir + 16 + 8 * k)
}

/// What entry `k` of the directory at `dir` points to: an offset, with the
/// high bit set where a directory lies there.
pub open spec fn entry_target(section: Seq<u8>, dir: int, k: int) -> int {
    read32(section, dir + 20 + 8 * k)
}

/// What a reader finds in a directory header.
pub proof fn lemma_read_dir_header(count: u16)
    ensures
        dir_header(count).len() == 16,
        read32(dir_header(count), 0) == 0,
        read32(dir_header(count), 4) == 0,
        read32(dir_header(count), 8) == 0,
        read16(dir_header(count), 12) == 0,
        read16(dir_header(count), 14) == count,
{
    lemma_le16_round_trip(count);
}

/// What a reader finds in a directory entry.
pub proof fn lemma_read_dir_entry(id: u32, target: u32)
    ensures
        dir_entry(id, target).len() == 8,
        read32(dir_entry(id, target), 0) == id,
        read32(dir_entry(id, target), 4) == target,
{
    lemma_le32_round_trip(id);
    lemma_le32_round_trip(target);
}

/// What a reader finds in what one resource takes: a directory with one
/// entry, for the language, which points to the data entry behind it; and
/// in the data entry the size of the payload.
pub proof fn lemma_read_leaf_block(base: nat, size: u32)
    requires
        base + 24 <= u32::MAX,
    ensures
        leaf_block(base, size).len() == 40,
        entry_count(leaf_block(base, size), 0) == 1,
        entry_id(leaf_block(base, size), 0, 0) == LANG_US,
        entry_target(leaf_block(base, size), 0, 0) == base + 24,
        read32(leaf_block(base, size), 24) == 0,
        read32(leaf_block(base, size), 28) == size,
        read32(leaf_block(base, size), 32) == 0,
        read32(leaf_block(base, size), 36) == 0,
{
    let b = leaf_block(base, size);
    let h = dir_header(1);
    let e = dir_entry(LANG_US, (base + 24) as u32);
    let d = data_entry(size);
    lemma_read_dir_header(1);
    lemma_read_dir_entry(LANG_US, (base + 24) as u32);
    lemma_le32_round_trip(size);
    assert(b.subrange(0, 16) =~= h);
    assert(b.subrange(16, 24) =~= e);
    assert(b.subrange(24, 40) =~= d);
    lemma_read_subrange(b, 0, 16, 12);
    lemma_read_subrange(b, 16, 24, 0);
    lemma_read_subrange(b, 16, 24, 4);
    lemma_read_subrange(b, 24, 40, 0);
    lemma_read_subrange(b, 24, 40, 4);
    lemma_read_subrange(b, 24, 40, 8);
    lemma_read_subrange(b, 24, 40, 12);
}

/// Entry `j` of the first `k` entries of the directory of a type.
proof fn lemma_id_entry_at(base: nat, ids: Seq<IdNode>, k: nat, j: nat)
    requires
        j < k,
    ensures
        id_entries(base, ids, k).len() == 8 * k,
        id_entries(base, ids, k).subrange((8 * j) as int, (8 * j + 8) as int) == dir_entry(
            ids[j as int].id,
            subdir(leaf_offset(base, ids.len(), j)),
        ),
    decreases k,
{
    lemma_id_entries_len(base, ids, k);
    lemma_id_entries_len(base, ids, (k - 1) as nat);
    let before = id_entries(base, ids, (k - 1) as nat);
    let last = dir_entry(ids[k - 1].id, subdir(leaf_offset(base, ids.len(), (k - 1) as nat)));
    if j == k - 1 {
        assert((before + last).subrange((8 * j) as int, (8 * j + 8) as int) =~= last);
    } else {
        lemma_id_entry_at(base, ids, (k - 1) as nat, j);
        assert((before + last).subrange((8 * j) as int, (8 * j + 8) as int) =~= before.subrange((8 * j) as int, (8 * j + 8) as int));
    }
}

/// What resource `j` takes, among what the first `k` resources of a type take.
proof fn lemma_leaf_block_at(base: nat, ids: Seq<IdNode>, k: nat, j: nat)
    requires
        j < k,
    ensures
        leaf_blocks(base, ids, k).len() == 40 * k,
        leaf_blocks(base, ids, k).subrange((40 * j) as int, (40 * j + 40) as int) == leaf_block(
            leaf_offset(base, ids.len(), j),
            ids[j as int].location.size as u32,
        ),
    decreases k,
{
    lemma_id_entries_len(base, ids, k);
    lemma_id_entries_len(base, ids, (k - 1) as nat);
    let before = leaf_blocks(base, ids, (k - 1) as nat);
    let last = leaf_block(
        leaf_offset(base, ids.len(), (k - 1) as nat),
        ids[k - 1].location.size as u32,
    );
    if j == k - 1 {
        assert((before + last).subrange((40 * j) as int, (40 * j + 40) as int) =~= last);
    } else {
        lemma_leaf_block_at(base, ids, (k - 1) as nat, j);
        assert((before + last).subrange((40 * j) as int, (40 * j + 40) as int) =~= before.subrange(
            (40 * j) as int,
            (40 * j + 40) as int,
        ));
    }
}

/// Entry `j` of the first `k` entries of the root directory.
proof fn lemma_type_entry_at(t: Table, k: nat, j: nat)
    requires
        j < k,
    ensures
        type_entries(t, k).len() == 8 * k,
        type_entries(t, k).subrange((8 * j) as int, (8 * j + 8) as int) == dir_entry(
            t[j as int].ty.spec_id() as u32,
            subdir(type_offset(t, j)),
        ),
    decreases k,
{
    lemma_type_entries_len(t, k);
    lemma_type_entries_len(t, (k - 1) as nat);
    let before = type_entries(t, (k - 1) as nat);
    let last = dir_entry(t[k - 1].ty.spec_id() as u32, subdir(type_offset(t, (k - 1) as nat)));
    if j == k - 1 {
        assert((before + last).subrange((8 * j) as int, (8 * j + 8) as int) =~= last);
    } else {
        lemma_type_entry_at(t, (k - 1) as nat, j);
        assert((before + last).subrange((8 * j) as int, (8 * j + 8) as int) =~= before.subrange((8 * j) as int, (8 * j + 8) as int));
    }
}

/// What type `j` takes, among what the first `k` types take.
proof fn lemma_type_block_at(t: Table, k: nat, j: nat)
    requires
        j < k,
    ensures
        type_offset(t, j) + id_block_len(t[j as int].ids.len()) <= type_offset(t, k),
        type_blocks(t, k).len() + 16 + 8 * t.len() == type_offset(t, k),
        16 + 8 * t.len() <= type_offset(t, j),
        type_blocks(t, k).subrange(
            type_offset(t, j) - 16 - 8 * t.len(),
            type_offset(t, j) - 16 - 8 * t.len() + id_block_len(t[j as int].ids.len()),
        ) == id_block(type_offset(t, j), t[j as int].ids),
    decreases k,
{
    lemma_type_entries_len(t, k);
    lemma_type_entries_len(t, (k - 1) as nat);
    lemma_type_offset_monotonic(t, 0, j);
    let before = type_blocks(t, (k - 1) as nat);
    let last = id_block(type_offset(t, (k - 1) as nat), t[k - 1].ids);
    lemma_id_block_len(type_offset(t, (k - 1) as nat), t[k - 1].ids);
    let a = type_offset(t, j) - 16 - 8 * t.len();
    let b = a + id_block_len(t[j as int].ids.len());
    if j == k - 1 {
        assert((before + last).subrange(a, b) =~= last);
    } else {
        lemma_type_block_at(t, (k - 1) as nat, j);
        assert((before + last).subrange(a, b) =~= before.subrange(a, b));
    }
}

/// Where the parts of the resource directory lie in it: the header of the
/// root, its entry for type `a`, and what that type takes.
pub proof fn lemma_table_parts(t: Table, a: nat)
    requires
        a < t.len(),
    ensures
        table_bytes(t).len() == table_len(t),
        16 + 8 * t.len() <= type_offset(t, a),
        type_offset(t, a) + id_block_len(t[a as int].ids.len()) <= table_len(t),
        table_bytes(t).subrange(0, 16) == dir_header(t.len() as u16),
        table_bytes(t).subrange((16 + 8 * a) as int, (16 + 8 * a + 8) as int) == dir_entry(
            t[a as int].ty.spec_id() as u32,
            subdir(type_offset(t, a)),
        ),
        table_bytes(t).subrange(
            type_offset(t, a) as int,
            (type_offset(t, a) + id_block_len(t[a as int].ids.len())) as int,
        ) == id_block(type_offset(t, a), t[a as int].ids),
{
    let n = t.len();
    let h = dir_header(n as u16);
    let e = type_entries(t, n);
    let b = type_blocks(t, n);
    let s = table_bytes(t);
    lemma_table_bytes_len(t);
    lemma_type_entry_at(t, n, a);
    lemma_type_block_at(t, n, a);
    let x = type_offset(t, a) as int;
    let y = x + id_block_len(t[a as int].ids.len());
    assert(s.subrange(0, 16) =~= h);
    assert(s.subrange((16 + 8 * a) as int, (16 + 8 * a + 8) as int) =~= e.subrange((8 * a) as int, (8 * a + 8) as int));
    assert(s.subrange(x, y) =~= b.subrange(x - 16 - 8 * n, y - 16 - 8 * n));
}

/// Where the parts of what a type takes lie in it: the header of its
/// directory, its entry for resource `b`, and what that resource takes.
pub proof fn lemma_id_block_parts(base: nat, ids: Seq<IdNode>, b: nat)
    requires
        b < ids.len(),
    ensures
        id_block(base, ids).len() == id_block_len(ids.len()),
        id_block(base, ids).subrange(0, 16) == dir_header(ids.len() as u16),
        id_block(base, ids).subrange((16 + 8 * b) as int, (16 + 8 * b + 8) as int) == dir_entry(
            ids[b as int].id,
            subdir(leaf_offset(base, ids.len(), b)),
        ),
        id_block(base, ids).subrange(
            (16 + 8 * ids.len() + 40 * b) as int,
            (16 + 8 * ids.len() + 40 * b + 40) as int,
        ) == leaf_block(leaf_offset(base, ids.len(), b), ids[b as int].location.size as u32),
{
    let n = ids.len();
    let h = dir_header(n as u16);
    let e = id_entries(base, ids, n);
    let l = leaf_blocks(base, ids, n);
    let s = id_block(base, ids);
    lemma_id_block_len(base, ids);
    lemma_id_entry_at(base, ids, n, b);
    lemma_leaf_block_at(base, ids, n, b);
    assert(s.subrange(0, 16) =~= h);
    assert(s.subrange((16 + 8 * b) as int, (16 + 8 * b + 8) as int) =~= e.subrange((8 * b) as int, (8 * b + 8) as int));
    assert(s.subrange((16 + 8 * n + 40 * b) as int, (16 + 8 * n + 40 * b + 40) as int) =~= l.subrange(
        (40 * b) as int,
        (40 * b + 40) as int,
    ));
}

/// What a reader finds in the root directory: the number of types, and
/// for type `a` its number and where the directory of the type lies.
pub proof fn lemma_walk_root(t: Table, a: nat)
    requires
        table_fits(t),
        a < t.len(),
    ensures
        table_bytes(t).len() == table_len(t),
        entry_count(table_bytes(t), 0) == t.len(),
        entry_id(table_bytes(t), 0, a as int) == t[a as int].ty.spec_id(),
        entry_target(table_bytes(t), 0, a as int) == 0x8000_0000 + type_offset(t, a),
        type_offset(t, a) % 4 == 0,
{
    reveal(table_fits);
    let s = table_bytes(t);
    let ty = type_offset(t, a);
    lemma_table_parts(t, a);
    lemma_type_offset_aligned(t, a);
    lemma_read_dir_header(t.len() as u16);
    lemma_read_dir_entry(t[a as int].ty.spec_id() as u32, subdir(ty));
    lemma_read_subrange(s, 0, 16, 12);
    lemma_read_subrange(s, (16 + 8 * a) as int, (16 + 8 * a + 8) as int, 0);
    lemma_read_subrange(s, (16 + 8 * a) as int, (16 + 8 * a + 8) as int, 4);
}

/// What a reader finds in what a type takes, at offset `base`: the number
/// of its resources, and for resource `b` its identifier and where the
/// directory of the resource lies.
pub proof fn lemma_walk_type(base: nat, ids: Seq<IdNode>, b: nat)
    requires
        b < ids.len(),
        ids.len() <= 0xFFFF,
        base + id_block_len(ids.len()) <= 0x7FFF_FFFF,
    ensures
        entry_count(id_block(base, ids), 0) == ids.len(),
        entry_id(id_block(base, ids), 0, b as int) == ids[b as int].id,
        entry_target(id_block(base, ids), 0, b as int) == 0x8000_0000 + leaf_offset(
            base,
            ids.len(),
            b,
        ),
{
    let block = id_block(base, ids);
    let n = ids.len();
    lemma_id_block_parts(base, ids, b);
    lemma_read_dir_header(n as u16);
    lemma_read_dir_entry(ids[b as int].id, subdir(leaf_offset(base, n, b)));
    lemma_read_subrange(block, 0, 16, 12);
    lemma_read_subrange(block, (16 + 8 * b) as int, (16 + 8 * b + 8) as int, 0);
    lemma_read_subrange(block, (16 + 8 * b) as int, (16 + 8 * b + 8) as int, 4);
}

/// What a reader finds in what a type takes, at offset `base`, where
/// resource `b` lies: a directory with one entry, for the language, which
/// points to the data entry behind it; and there the size of the payload.
pub proof fn lemma_walk_leaf(base: nat, ids: Seq<IdNode>, b: nat)
    requires
        b < ids.len(),
        base + id_block_len(ids.len()) <= 0x7FFF_FFFF,
    ensures
        ({
            let block = id_block(base, ids);
            let at = (16 + 8 * ids.len() + 40 * b) as int;
            &&& at + 40 <= block.len()
            &&& entry_count(block, at) == 1
            &&& entry_id(block, at, 0) == LANG_US
            &&& entry_target(block, at, 0) == base + at + 24
            &&& read32(block, at + 24) == 0
            &&& read32(block, at + 28) == ids[b as int].location.size as u32
            &&& read32(block, at + 32) == 0
            &&& read32(block, at + 36) == 0
        }),
{
    let block = id_block(base, ids);
    let n = ids.len();
    let at = (16 + 8 * n + 40 * b) as int;
    lemma_id_block_parts(base, ids, b);
    lemma_read_leaf_block(leaf_offset(base, n, b), ids[b as int].location.size as u32);
    lemma_read_subrange(block, at, at + 40, 12);
    lemma_read_subrange(block, at, at + 40, 16);
    lemma_read_subrange(block, at, at + 40, 20);
    lemma_read_subrange(block, at, at + 40, 24);
    lemma_read_subrange(block, at, at + 40, 28);
    lemma_read_subrange(block, at, at + 40, 32);
    lemma_read_subrange(block, at, at + 40, 36);
}

/// What a reader finds in a part of a section is what it finds in the
/// section, that many bytes on.
pub proof fn lemma_read_in_part(section: Seq<u8>, from: int, to: int, dir: int, k: int)
    requires
        0 <= from <= to <= section.len(),
        0 <= dir,
        0 <= k,
        dir + 24 + 8 * k <= to - from,
    ensures
        entry_count(section, from + dir) == entry_count(section.subrange(from, to), dir),
        entry_id(section, from + dir, k) == entry_id(section.subrange(from, to), dir, k),
        entry_target(section, from + dir, k) == entry_target(section.subrange(from, to), dir, k),
{
    lemma_read_subrange(section, from, to, dir + 12);
    lemma_read_subrange(section, from, to, dir + 16 + 8 * k);
    lemma_read_subrange(section, from, to, dir + 20 + 8 * k);
}

/// Round trip: a reader that walks the resource directory from the root
/// finds every resource of the table. Entry `a` of the root has the number
/// of type `a` and points to a directory; entry `b` of that directory has
/// the identifier of resource `b` of the type and points to a directory;
/// the one entry of that directory has the language 0x0409 and points to a
/// data entry, which holds the size of the payload. Every directory and
/// every data entry lies at a multiple of four bytes.
#[verifier::rlimit(40)]
pub proof fn lemma_walk(t: Table, a: nat, b: nat)
    requires
        table_fits(t),
        a < t.len(),
        b < t[a as int].ids.len(),
    ensures
        ({
            let s = table_bytes(t);
            let ty = type_offset(t, a) as int;
            let id = leaf_offset(type_offset(t, a), t[a as int].ids.len(), b) as int;
            let entry = id + 24;
            &&& s.len() == table_len(t)
            &&& entry_count(s, 0) == t.len()
            &&& entry_id(s, 0, a as int) == t[a as int].ty.spec_id()
            &&& entry_target(s, 0, a as int) == 0x8000_0000 + ty
            &&& ty % 4 == 0
            &&& entry_count(s, ty) == t[a as int].ids.len()
            &&& entry_id(s, ty, b as int) == t[a as int].ids[b as int].id
            &&& entry_target(s, ty, b as int) == 0x8000_0000 + id
            &&& id % 4 == 0
            &&& entry_count(s, id) == 1
            &&& entry_id(s, id, 0) == LANG_US
            &&& entry_target(s, id, 0) == entry
            &&& entry % 4 == 0
            &&& entry + 16 <= s.len()
            &&& read32(s, entry) == 0
            &&& read32(s, entry + 4) == t[a as int].ids[b as int].location.size
            &&& read32(s, entry + 8) == 0
            &&& read32(s, entry + 12) == 0
        }),
{
    let s = table_bytes(t);
    let ids = t[a as int].ids;
    let n = ids.len();
    let ty = type_offset(t, a) as int;
    let ty_end = (type_offset(t, a) + id_block_len(n)) as int;
    let at = (16 + 8 * n + 40 * b) as int;
    let id = leaf_offset(type_offset(t, a), n, b) as int;
    let block = id_block(type_offset(t, a), ids);
    lemma_walk_root(t, a);
    lemma_table_parts(t, a);
    lemma_leaf_offset_aligned(type_offset(t, a), n, b);
    assert(ids.len() <= 0xFFFF && ty_end <= 0x7FFF_FFFF && ids[b as int].location.size
        <= u32::MAX) by {
        reveal(table_fits);
        lemma_type_offset_monotonic(t, a + 1, t.len());
    }
    assert(s.subrange(ty, ty_end) == block);
    assert(id == ty + at);
    assert(block.len() == 16 + 48 * n) by {
        lemma_id_block_len(type_offset(t, a), ids);
    }
    lemma_walk_type(type_offset(t, a), ids, b);
    lemma_walk_leaf(type_offset(t, a), ids, b);
    assert(entry_count(s, ty) == n && entry_id(s, ty, b as int) == ids[b as int].id
        && entry_target(s, ty, b as int) == 0x8000_0000 + id) by {
        lemma_read_in_part(s, ty, ty_end, 0, b as int);
    }
    assert(entry_count(s, id) == 1 && entry_id(s, id, 0) == LANG_US && entry_target(s, id, 0) == id
        + 24) by {
        lemma_read_in_part(s, ty, ty_end, at, 0);
    }
    assert(read32(s, id + 24) == 0 && read32(s, id + 28) == ids[b as int].location.size && read32(
        s,
        id + 32,
    ) == 0 && read32(s, id + 36) == 0) by {
        lemma_read_subrange(s, ty, ty_end, at + 24);
        lemma_read_subrange(s, ty, ty_end, at + 28);
        lemma_read_subrange(s, ty, ty_end, at + 32);
        lemma_read_subrange(s, ty, ty_end, at + 36);
    }
}

/// Alignment: what a type takes lies at a multiple of eight bytes, and so
/// does the resource directory end.
pub proof fn lemma_type_offset_aligned(t: Table, k: nat)
    requires
        k <= t.len(),
    ensures
        type_offset(t, k) % 8 == 0,
        type_offset(t, k) % 4 == 0,
    decreases k,
{
    if k > 0 {
        lemma_type_offset_aligned(t, (k - 1) as nat);
        let n = t[k - 1].ids.len();
        lemma_step_aligned(type_offset(t, (k - 1) as nat) as int, (2 + 6 * n) as int, 8);
        lemma_step_aligned(type_offset(t, (k - 1) as nat) as int, (4 + 12 * n) as int, 4);
    } else {
        lemma_step_aligned(0, (2 + t.len()) as int, 8);
        lemma_step_aligned(0, (4 + 2 * t.len()) as int, 4);
    }
}

/// Alignment: what a resource takes, and its data entry, lie at a multiple
/// of four bytes where the directory of the type does.
pub proof fn lemma_leaf_offset_aligned(base: nat, n: nat, k: nat)
    requires
        base % 4 == 0,
    ensures
        leaf_offset(base, n, k) % 4 == 0,
        (leaf_offset(base, n, k) + 24) % 4 == 0,
{
    lemma_step_aligned(base as int, (4 + 2 * n + 10 * k) as int, 4);
    lemma_step_aligned(base as int, (10 + 2 * n + 10 * k) as int, 4);
}

/// A multiple of `m` stays one when a multiple of `m` is added.
pub proof fn lemma_step_aligned(x: int, k: int, m: int)
    requires
        m > 0,
        x % m == 0,
    ensures
        (x + m * k) % m == 0,
{
    vstd::arithmetic::div_mod::lemma_mod_multiples_vanish(k, x, m);
}

} // verus!
