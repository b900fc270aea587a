//! The bytes of the resource directory: three levels (type, identifier,
//! language), each a directory of entries, with the data entries as leaves.
//! Every offset counts from the start of the section.

use vstd::prelude::*;
use crate::encoding::{
    le16,
    le32,
    zeros,
    placed,
    lemma_placed_inside,
};
use crate::binary::WriterState;
use crate::coff2::table::{IdNode, Table};

verus! {

/// The language of every resource: English (US).
pub const LANG_US: u32 = 0x0409;

/// A directory without its entries: characteristics, timestamp and version
/// are zero, no entry has a name, and `count` entries have a number.
pub open spec fn dir_header(count: u16) -> Seq<u8> {
    le32(0) + le32(0) + le16(0) + le16(0) + le16(0) + le16(count)
}

/// A directory entry: a number, and the offset of what it stands for.
pub open spec fn dir_entry(id: u32, target: u32) -> Seq<u8> {
    le32(id) + le32(target)
}

/// The target of an entry that stands for a directory at `offset`: the
/// offset with the high bit set.
pub open spec fn subdir(offset: nat) -> u32 {
    (offset + 0x8000_0000) as u32
}

/// A data entry: the address of the payload, which the linker fills in,
/// the payload's size, code page zero, and a reserved zero.
pub open spec fn data_entry(size: u32) -> Seq<u8> {
    le32(0) + le32(size) + le32(0) + le32(0)
}

/// What one resource takes at offset `base`: the language directory, whose
/// one entry points to the data entry behind it.
pub open spec fn leaf_block(base: nat, size: u32) -> Seq<u8> {
    dir_header(1) + dir_entry(LANG_US, (base + 24) as u32) + data_entry(size)
}

/// The offset of what resource `k` of a type takes, where the directory of
/// the type lies at `base` and has `n` entries.
pub open spec fn leaf_offset(base: nat, n: nat, k: nat) -> nat {
    base + 16 + 8 * n + 40 * k
}

/// The first `k` entries of the directory of a type that lies at `base`.
pub open spec fn id_entries(base: nat, ids: Seq<IdNode>, k: nat) -> Seq<u8>
    decreases k,
{
    if k == 0 {
        Seq::empty()
    } else {
        id_entries(base, ids, (k - 1) as nat) + dir_entry(
            ids[k - 1].id,
            subdir(leaf_offset(base, ids.len(), (k - 1) as nat)),
        )
    }
}

/// What the first `k` resources of a type take, one behind the other.
pub open spec fn leaf_blocks(base: nat, ids: Seq<IdNode>, k: nat) -> Seq<u8>
    decreases k,
{
    if k == 0 {
        Seq::empty()
    } else {
        leaf_blocks(base, ids, (k - 1) as nat) + leaf_block(
            leaf_offset(base, ids.len(), (k - 1) as nat),
            ids[k - 1].location.size as u32,
        )
    }
}

/// The size of what a type with `n` resources takes.
pub open spec fn id_block_len(n: nat) -> nat {
    16 + 48 * n
}

/// What a type takes at offset `base`: its directory, then its resources.
pub open spec fn id_block(base: nat, ids: Seq<IdNode>) -> Seq<u8> {
    dir_header(ids.len() as u16) + id_entries(base, ids, ids.len()) + leaf_blocks(
        base,
        ids,
        ids.len(),
    )
}

/// The offset of what type `k` takes: behind the root directory and the types before it.
pub open spec fn type_offset(t: Table, k: nat) -> nat
    decreases k,
{
    if k == 0 {
        16 + 8 * t.len()
    } else {
        type_offset(t, (k - 1) as nat) + id_block_len(t[k - 1].ids.len())
    }
}

/// The first `k` entries of the root directory.
pub open spec fn type_entries(t: Table, k: nat) -> Seq<u8>
    decreases k,
{
    if k == 0 {
        Seq::empty()
    } else {
        type_entries(t, (k - 1) as nat) + dir_entry(
            t[k - 1].ty.spec_id() as u32,
            subdir(type_offset(t, (k - 1) as nat)),
        )
    }
}

/// What the first `k` types take, one behind the other.
pub open spec fn type_blocks(t: Table, k: nat) -> Seq<u8>
    decreases k,
{
    if k == 0 {
        Seq::empty()
    } else {
        type_blocks(t, (k - 1) as nat) + id_block(type_offset(t, (k - 1) as nat), t[k - 1].ids)
    }
}

/// The size of the resource directory.
pub open spec fn table_len(t: Table) -> nat {
    type_offset(t, t.len())
}

/// The resource directory: the root directory, then the types.
pub open spec fn table_bytes(t: Table) -> Seq<u8> {
    dir_header(t.len() as u16) + type_entries(t, t.len()) + type_blocks(t, t.len())
}

/// The places that the linker fills in for the first `k` resources of a
/// type: the offset of each data entry, with the symbol of its payload.
pub open spec fn leaf_relocations(base: nat, ids: Seq<IdNode>, k: nat) -> Seq<(usize, usize)>
    decreases k,
{
    if k == 0 {
        Seq::empty()
    } else {
        leaf_relocations(base, ids, (k - 1) as nat).push(
            (
                (leaf_offset(base, ids.len(), (k - 1) as nat) + 24) as usize,
                ids[k - 1].location.symbol_id,
            ),
        )
    }
}

/// The places that the linker fills in for the first `k` types, in the
/// order of the directory.
pub open spec fn type_relocations(t: Table, k: nat) -> Seq<(usize, usize)>
    decreases k,
{
    if k == 0 {
        Seq::empty()
    } else {
        type_relocations(t, (k - 1) as nat) + leaf_relocations(
            type_offset(t, (k - 1) as nat),
            t[k - 1].ids,
            t[k - 1].ids.len(),
        )
    }
}

/// The places that the linker fills in, in the order of the directory.
pub open spec fn table_relocations(t: Table) -> Seq<(usize, usize)> {
    type_relocations(t, t.len())
}

/// The first `k` entries, resources and relocations of a type take eight
/// bytes, forty bytes and one place each.
pub proof fn lemma_id_entries_len(base: nat, ids: Seq<IdNode>, k: nat)
    ensures
        id_entries(base, ids, k).len() == 8 * k,
        leaf_blocks(base, ids, k).len() == 40 * k,
        leaf_relocations(base, ids, k).len() == k,
    decreases k,
{
    if k > 0 {
        lemma_id_entries_len(base, ids, (k - 1) as nat);
    }
}

/// What a type takes has the size that [`id_block_len`] gives.
pub proof fn lemma_id_block_len(base: nat, ids: Seq<IdNode>)
    ensures
        id_block(base, ids).len() == id_block_len(ids.len()),
{
    lemma_id_entries_len(base, ids, ids.len());
}

/// What a type takes lies behind the root directory and the types before it.
pub proof fn lemma_type_offset_monotonic(t: Table, j: nat, k: nat)
    requires
        j <= k,
    ensures
        16 + 8 * t.len() <= type_offset(t, j) <= type_offset(t, k),
    decreases k,
{
    if j < k {
        lemma_type_offset_monotonic(t, j, (k - 1) as nat);
    } else if k > 0 {
        lemma_type_offset_monotonic(t, (k - 1) as nat, (k - 1) as nat);
    }
}

/// The first `k` entries of the root take eight bytes each, and what the
/// first `k` types take ends where the next type lies.
pub proof fn lemma_type_entries_len(t: Table, k: nat)
    ensures
        type_entries(t, k).len() == 8 * k,
        type_blocks(t, k).len() + 16 + 8 * t.len() == type_offset(t, k),
    decreases k,
{
    if k > 0 {
        lemma_type_entries_len(t, (k - 1) as nat);
        lemma_id_block_len(type_offset(t, (k - 1) as nat), t[k - 1].ids);
    }
}

/// The resource directory has the size that [`table_len`] gives.
pub proof fn lemma_table_bytes_len(t: Table)
    ensures
        table_bytes(t).len() == table_len(t),
{
    lemma_type_entries_len(t, t.len());
}

/// Filling in the next entry of a directory whose child was just laid down.
pub proof fn lemma_entry_filled(
    head: Seq<u8>,
    done: Seq<u8>,
    open: nat,
    blocks: Seq<u8>,
    block: Seq<u8>,
    entry: Seq<u8>,
)
    requires
        open >= 1,
        entry.len() == 8,
    ensures
        placed(
            head + done + zeros(8 * open) + blocks + block,
            head.len() + done.len(),
            entry,
        ) == head + (done + entry) + zeros((8 * (open - 1)) as nat) + (blocks + block),
        head.len() + done.len() + 8 <= (head + done + zeros(8 * open) + blocks + block).len(),
{
    let rest = zeros((8 * (open - 1)) as nat) + (blocks + block);
    lemma_placed_inside(head + done, zeros(8), rest, entry);
    assert(head + done + zeros(8 * open) + blocks + block =~= head + done + zeros(8) + rest);
    assert(head + (done + entry) + zeros((8 * (open - 1)) as nat) + (blocks + block) =~= head + done
        + entry + rest);
}

/// What a type takes while it is written: the directory with its first `k`
/// entries filled in and the others zero, then its first `k` resources.
pub open spec fn id_block_partial(base: nat, ids: Seq<IdNode>, k: nat) -> Seq<u8> {
    dir_header(ids.len() as u16) + id_entries(base, ids, k) + zeros((8 * (ids.len() - k)) as nat)
        + leaf_blocks(base, ids, k)
}

/// The resource directory while it is written: the root with its first `k`
/// entries filled in and the others zero, then what the first `k` types take.
pub open spec fn table_partial(t: Table, k: nat) -> Seq<u8> {
    dir_header(t.len() as u16) + type_entries(t, k) + zeros((8 * (t.len() - k)) as nat)
        + type_blocks(t, k)
}

/// A directory of a type right after its header and the room for its entries.
pub proof fn lemma_id_table_begun(s0: WriterState, base: nat, ids: Seq<IdNode>)
    requires
        s0.at_end(),
    ensures
        s0.appended(dir_header(ids.len() as u16)).at_end(),
        s0.appended(dir_header(ids.len() as u16)).skipped(8 * ids.len()) == s0.appended(
            id_block_partial(base, ids, 0),
        ),
{
    let head = dir_header(ids.len() as u16);
    s0.lemma_appended_skipped(head, 8 * ids.len());
    assert(head + zeros(8 * ids.len()) =~= id_block_partial(base, ids, 0));
}

/// One step of writing the directory of a type: the next resource is laid
/// down where the layout expects it, and its entry filled in.
pub proof fn lemma_id_table_step(s0: WriterState, base: nat, ids: Seq<IdNode>, k: nat)
    requires
        s0.at_end(),
        k < ids.len(),
    ensures
        id_block_partial(base, ids, k).len() == 16 + 8 * ids.len() + 40 * k,
        s0.appended(id_block_partial(base, ids, k)).at_end(),
        s0.appended(id_block_partial(base, ids, k)).appended(
            leaf_block(leaf_offset(base, ids.len(), k), ids[k as int].location.size as u32),
        ).patched(
            s0.cursor + 16 + 8 * k,
            dir_entry(ids[k as int].id, subdir(leaf_offset(base, ids.len(), k))),
        ) == s0.appended(id_block_partial(base, ids, k + 1)),
        leaf_relocations(base, ids, k + 1) == leaf_relocations(base, ids, k) + seq![
            ((leaf_offset(base, ids.len(), k) + 24) as usize, ids[k as int].location.symbol_id),
        ],
{
    let n = ids.len();
    let head = dir_header(n as u16);
    let done = id_entries(base, ids, k);
    let blocks = leaf_blocks(base, ids, k);
    let x = id_block_partial(base, ids, k);
    let offset = leaf_offset(base, n, k);
    let block = leaf_block(offset, ids[k as int].location.size as u32);
    let entry = dir_entry(ids[k as int].id, subdir(offset));
    lemma_id_entries_len(base, ids, k);
    s0.lemma_appended_twice(x, block);
    lemma_entry_filled(head, done, (n - k) as nat, blocks, block, entry);
    s0.lemma_appended_patched(x + block, s0.cursor + 16 + 8 * k, 16 + 8 * k, entry);
    assert(leaf_relocations(base, ids, k + 1) =~= leaf_relocations(base, ids, k) + seq![
        ((offset + 24) as usize, ids[k as int].location.symbol_id),
    ]);
}

/// A directory of a type with every entry filled in is what the type takes.
pub proof fn lemma_id_table_done(base: nat, ids: Seq<IdNode>)
    ensures
        id_block_partial(base, ids, ids.len()) == id_block(base, ids),
{
    assert(id_block_partial(base, ids, ids.len()) =~= id_block(base, ids));
}

/// The root directory right after its header and the room for its entries.
pub proof fn lemma_table_begun(s0: WriterState, t: Table)
    requires
        s0.at_end(),
    ensures
        s0.appended(dir_header(t.len() as u16)).at_end(),
        s0.appended(dir_header(t.len() as u16)).skipped(8 * t.len()) == s0.appended(
            table_partial(t, 0),
        ),
{
    let head = dir_header(t.len() as u16);
    s0.lemma_appended_skipped(head, 8 * t.len());
    assert(head + zeros(8 * t.len()) =~= table_partial(t, 0));
}

/// One step of writing the root directory: the next type is laid down where
/// the layout expects it, and its entry filled in.
pub proof fn lemma_table_step(s0: WriterState, t: Table, k: nat)
    requires
        s0.at_end(),
        k < t.len(),
    ensures
        table_partial(t, k).len() == type_offset(t, k),
        16 + 8 * t.len() <= type_offset(t, k),
        type_offset(t, k + 1) == type_offset(t, k) + id_block_len(t[k as int].ids.len()),
        s0.appended(table_partial(t, k)).at_end(),
        s0.appended(table_partial(t, k)).appended(
            id_block(type_offset(t, k), t[k as int].ids),
        ).patched(
            s0.cursor + 16 + 8 * k,
            dir_entry(t[k as int].ty.spec_id() as u32, subdir(type_offset(t, k))),
        ) == s0.appended(table_partial(t, k + 1)),
        type_relocations(t, k + 1) == type_relocations(t, k) + leaf_relocations(
            type_offset(t, k),
            t[k as int].ids,
            t[k as int].ids.len(),
        ),
{
    let n = t.len();
    let head = dir_header(n as u16);
    let done = type_entries(t, k);
    let blocks = type_blocks(t, k);
    let x = table_partial(t, k);
    let offset = type_offset(t, k);
    let block = id_block(offset, t[k as int].ids);
    let entry = dir_entry(t[k as int].ty.spec_id() as u32, subdir(offset));
    lemma_type_entries_len(t, k);
    lemma_type_offset_monotonic(t, 0, k);
    s0.lemma_appended_twice(x, block);
    lemma_entry_filled(head, done, (n - k) as nat, blocks, block, entry);
    s0.lemma_appended_patched(x + block, s0.cursor + 16 + 8 * k, 16 + 8 * k, entry);
}

/// The root directory with every entry filled in is the resource directory.
pub proof fn lemma_table_done(t: Table)
    ensures
        table_partial(t, t.len()) == table_bytes(t),
{
    assert(table_partial(t, t.len()) =~= table_bytes(t));
}

/// Whether a table can be laid out: every count fits 16 bits, every size 32
/// bits, and every offset 31 bits, as the high bit of an entry marks a directory.
#[verifier::opaque]
pub open spec fn table_fits(t: Table) -> bool {
    &&& t.len() <= 0xFFFF
    &&& table_len(t) <= 0x7FFF_FFFF
    &&& forall|a: int| 0 <= a < t.len() ==> (#[trigger] t[a]).ids.len() <= 0xFFFF
    &&& forall|a: int, b: int|
        0 <= a < t.len() && 0 <= b < t[a].ids.len() ==> (#[trigger] t[a].ids[b]).location.size
            <= u32::MAX
}

/// A table that can be laid out has room for its root directory.
pub proof fn lemma_table_fits(t: Table)
    requires
        table_fits(t),
    ensures
        t.len() <= 0xFFFF,
        16 + 8 * t.len() <= table_len(t) <= 0x7FFF_FFFF,
{
    reveal(table_fits);
    lemma_type_offset_monotonic(t, 0, t.len());
}

/// In a table that can be laid out, so can each type.
pub proof fn lemma_table_fits_at(t: Table, k: nat)
    requires
        table_fits(t),
        k < t.len(),
    ensures
        t[k as int].ids.len() <= 0xFFFF,
        type_offset(t, k + 1) <= table_len(t) <= 0x7FFF_FFFF,
        forall|i: int|
            0 <= i < t[k as int].ids.len() ==> (#[trigger] t[k as int].ids[i]).location.size
                <= u32::MAX,
{
    reveal(table_fits);
    lemma_type_offset_monotonic(t, k + 1, t.len());
}

} // verus!
