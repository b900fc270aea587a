//! The COFF object with two sections: `.rsrc$01` holds the resource
//! directory, `.rsrc$02` the payloads.

use vstd::prelude::*;
use crate::binary::{BinaryWriter, BinaryWritable};
use crate::encoding::{
    le16,
    le32,
    zeros,
    placed,
    pad_len,
    padding,
    u32_le,
    lemma_concat_assoc,
    lemma_placed_inside,
    lemma_pad_len,
    lemma_pad_len_shift,
};
use vstd::slice::slice_subrange;
use crate::coff2::writer::FileWriter;
use crate::coff2::table::{
    IdNode,
    ResourceLocation,
    ResourceTable,
    Table,
    TypeNode,
    symbols_within,
    lemma_table_inserted_symbols,
};
use crate::coff2::layout::{
    LANG_US,
    dir_header,
    dir_entry,
    subdir,
    data_entry,
    leaf_block,
    leaf_offset,
    id_block,
    id_block_len,
    type_offset,
    table_len,
    table_bytes,
    leaf_relocations,
    type_relocations,
    table_relocations,
    lemma_id_entries_len,
    lemma_type_offset_monotonic,
    id_block_partial,
    table_partial,
    lemma_id_table_begun,
    lemma_id_table_step,
    lemma_id_table_done,
    lemma_table_begun,
    lemma_table_step,
    lemma_table_done,
    lemma_table_bytes_len,
    table_fits,
    lemma_table_fits,
    lemma_table_fits_at,
};

use crate::coff::{TargetType, RelocationType, current_timestamp};
use crate::coff2::object::{
    Symbol,
    SymbolView,
    ObjectView,
    empty_object,
    hex_digit,
    symbol_name,
    symbol_bytes,
    symbols_bytes,
    symbols_ready,
    relocation_bytes,
    relocations_bytes,
    back_rank,
    sorted_by_symbol,
    section_header,
    file_header_bytes,
    table_section_name,
    data_section_name,
    lemma_sorted_by_symbol,
    lemma_symbols_bytes_len,
    lemma_relocations_bytes_len,
    HEADERS_SIZE,
    IMAGE_SYM_CLASS_STATIC,
    IMAGE_FILE_32BIT_MACHINE,
    SECTION_CHARACTERISTICS,
};
use crate::coff2::laws::lemma_table_inserted_contains;
use crate::coff2::table::table_contains;
use crate::coff2::walk::{lemma_type_offset_aligned, lemma_step_aligned};
use crate::ResourceType;

pub mod writer;
pub mod table;
pub mod layout;
pub mod object;
pub mod walk;
pub mod laws;

verus! {

/// The target of a directory entry for a directory at `offset`.
fn subdir_target(offset: usize) -> (r: u32)
    requires
        offset < 0x8000_0000,
    ensures
        r == subdir(offset as nat),
{
    let low = offset as u32;
    assert(low | 0x8000_0000u32 == low + 0x8000_0000u32) by (bit_vector)
        requires
            low < 0x8000_0000u32,
    ;
    low | 0x8000_0000u32
}

impl FileWriter {
    /// Appends a directory without its entries.
    fn write_directory(&mut self, count: u16)
        requires
            old(self).state().at_end(),
            old(self).state().fits(16),
        ensures
            final(self).state() == old(self).state().appended(dir_header(count)),
    {
        let ghost s0 = self.state();
        proof {
            s0.lemma_wrote_at_end(le32(0));
            s0.lemma_appended_wrote(le32(0), le32(0));
            s0.lemma_appended_wrote(le32(0) + le32(0), le16(0));
            s0.lemma_appended_wrote(le32(0) + le32(0) + le16(0), le16(0));
            s0.lemma_appended_wrote(le32(0) + le32(0) + le16(0) + le16(0), le16(0));
            s0.lemma_appended_wrote(le32(0) + le32(0) + le16(0) + le16(0) + le16(0), le16(count));
        }
        self.write_u32(0);  // Characteristics
        self.write_u32(0);  // TimeDateStamp
        self.write_u16(0);  // MajorVersion
        self.write_u16(0);  // MinorVersion
        self.write_u16(0);  // NumberOfNamedEntries
        self.write_u16(count);  // NumberOfIdEntries
    }

    /// Fills in the directory entry at `index`.
    fn fill_entry(&mut self, index: usize, id: u32, target: u32)
        requires
            index + 8 <= old(self).current_position,
        ensures
            final(self).state() == old(self).state().patched(index as nat, dir_entry(id, target)),
    {
        let a = u32_le(id);
        let b = u32_le(target);
        let entry: [u8; 8] = [a[0], a[1], a[2], a[3], b[0], b[1], b[2], b[3]];
        assert(entry@ =~= dir_entry(id, target));
        self.write_bytes_at(index, entry.as_slice());
    }

    /// Appends what one resource takes below its identifier, and notes the
    /// place that the linker fills in.
    fn write_leaf(&mut self, node: &IdNode, relocations: &mut Vec<(usize, usize)>)
        requires
            old(self).state().at_end(),
            old(self).section_start <= old(self).current_position,
            old(self).current_position - old(self).section_start + 40 <= 0x7FFF_FFFF,
            old(self).state().fits(40),
            node.location.size <= u32::MAX,
        ensures
            final(self).state() == old(self).state().appended(
                leaf_block(
                    (old(self).current_position - old(self).section_start) as nat,
                    node.location.size as u32,
                ),
            ),
            final(relocations)@ == old(relocations)@.push(
                (
                    (old(self).current_position - old(self).section_start + 24) as usize,
                    node.location.symbol_id,
                ),
            ),
    {
        let ghost s0 = self.state();
        let base = self.current_offset();
        let size = node.location.size as u32;
        let ghost x = dir_header(1);
        self.write_directory(1);
        proof {
            s0.lemma_appended_at_end(x);
            s0.lemma_appended_wrote(x, le32(LANG_US));
            s0.lemma_appended_wrote(x + le32(LANG_US), le32((base + 24) as u32));
            lemma_concat_assoc(x, le32(LANG_US), le32((base + 24) as u32));
            x = x + dir_entry(LANG_US, (base + 24) as u32);
            s0.lemma_appended_wrote(x, le32(0));
            s0.lemma_appended_wrote(x + le32(0), le32(size));
            s0.lemma_appended_wrote(x + le32(0) + le32(size), le32(0));
            s0.lemma_appended_wrote(x + le32(0) + le32(size) + le32(0), le32(0));
            assert(x + le32(0) + le32(size) + le32(0) + le32(0) =~= x + data_entry(size));
        }
        self.write_u32(LANG_US);
        self.write_u32((base + 24) as u32);
        relocations.push((self.current_offset(), node.location.symbol_id));
        self.write_u32(0);  // Data RVA
        self.write_u32(size);  // Size
        self.write_u32(0);  // Code page
        self.write_u32(0);  // Reserved
    }

    /// Appends what a type takes: its directory, then its resources. Each
    /// entry of the directory is filled in when its resource is laid down.
    #[verifier::rlimit(40)]
    fn write_id_table(&mut self, ids: &Vec<IdNode>, relocations: &mut Vec<(usize, usize)>)
        requires
            old(self).state().at_end(),
            old(self).section_start <= old(self).current_position,
            old(self).current_position - old(self).section_start + id_block_len(ids@.len())
                <= 0x7FFF_FFFF,
            ids@.len() <= 0xFFFF,
            old(self).state().fits(id_block_len(ids@.len())),
            forall|i: int| 0 <= i < ids@.len() ==> (#[trigger] ids@[i]).location.size <= u32::MAX,
        ensures
            final(self).state() == old(self).state().appended(
                id_block((old(self).current_position - old(self).section_start) as nat, ids@),
            ),
            final(relocations)@ == old(relocations)@ + leaf_relocations(
                (old(self).current_position - old(self).section_start) as nat,
                ids@,
                ids@.len(),
            ),
    {
        let ghost s0 = self.state();
        let n = ids.len();
        let base = self.current_offset();
        self.write_directory(n as u16);
        let table_base = self.pos();
        proof {
            lemma_id_table_begun(s0, base as nat, ids@);
            assert(old(relocations)@ + leaf_relocations(base as nat, ids@, 0) =~= old(
                relocations,
            )@);
        }
        self.reserve(n * 8);
        let mut k: usize = 0;
        while k < n
            invariant
                k <= n,
                n == ids@.len(),
                s0.at_end(),
                s0.limit == Some(usize::MAX as nat),
                s0.fits(id_block_len(n as nat)),
                s0.origin + base == s0.cursor,
                table_base == s0.cursor + 16,
                base + id_block_len(n as nat) <= 0x7FFF_FFFF,
                forall|i: int| 0 <= i < ids@.len() ==> (#[trigger] ids@[i]).location.size <= u32::MAX,
                self.state() == s0.appended(id_block_partial(base as nat, ids@, k as nat)),
                relocations@ == old(relocations)@ + leaf_relocations(base as nat, ids@, k as nat),
            decreases n - k,
        {
            proof {
                lemma_id_table_step(s0, base as nat, ids@, k as nat);
                lemma_concat_assoc_pairs(
                    old(relocations)@,
                    leaf_relocations(base as nat, ids@, k as nat),
                    seq![
                        (
                            (leaf_offset(base as nat, n as nat, k as nat) + 24) as usize,
                            ids@[k as int].location.symbol_id,
                        ),
                    ],
                );
            }
            let offset = self.current_offset();
            self.write_leaf(&ids[k], relocations);
            self.fill_entry(table_base + k * 8, ids[k].id, subdir_target(offset));
            k += 1;
        }
        proof {
            lemma_id_table_done(base as nat, ids@);
        }
    }

    /// Appends what type `k` of the table takes and fills in its entry in
    /// the root directory, which lies at `table_base`.
    fn write_type(
        &mut self,
        node: &TypeNode,
        entry_index: usize,
        relocations: &mut Vec<(usize, usize)>,
    )
        requires
            old(self).state().at_end(),
            old(self).section_start <= old(self).current_position,
            entry_index + 8 <= old(self).current_position,
            old(self).current_position - old(self).section_start + id_block_len(node@.ids.len())
                <= 0x7FFF_FFFF,
            node@.ids.len() <= 0xFFFF,
            old(self).state().fits(id_block_len(node@.ids.len())),
            forall|i: int|
                0 <= i < node@.ids.len() ==> (#[trigger] node@.ids[i]).location.size <= u32::MAX,
        ensures
            final(self).state() == old(self).state().appended(
                id_block((old(self).current_position - old(self).section_start) as nat, node@.ids),
            ).patched(
                entry_index as nat,
                dir_entry(
                    node@.ty.spec_id() as u32,
                    subdir((old(self).current_position - old(self).section_start) as nat),
                ),
            ),
            final(relocations)@ == old(relocations)@ + leaf_relocations(
                (old(self).current_position - old(self).section_start) as nat,
                node@.ids,
                node@.ids.len(),
            ),
    {
        let offset = self.current_offset();
        self.write_id_table(&node.ids, relocations);
        self.fill_entry(entry_index, node.ty.id() as u32, subdir_target(offset));
    }

    /// Appends the resource directory at the start of a section: the root
    /// directory, then what each type takes. Each entry of the root is filled
    /// in when its type is laid down. `relocations` receives, in the order of
    /// the directory, the place of each data entry and the symbol of its
    /// payload. The directory ends at a multiple of eight bytes.
    #[verifier::rlimit(40)]
    pub fn write_table(&mut self, table: &ResourceTable, relocations: &mut Vec<(usize, usize)>)
        requires
            old(self).state().at_end(),
            old(self).section_start == old(self).current_position,
            table_fits(table@),
            old(self).state().fits(table_len(table@)),
        ensures
            final(self).state() == old(self).state().appended(table_bytes(table@)),
            final(relocations)@ == old(relocations)@ + table_relocations(table@),
            final(self).current_position == old(self).current_position + table_len(table@),
            table_len(table@) % 8 == 0,
    {
        let ghost s0 = self.state();
        let ghost t = table@;
        let n = table.types.len();
        proof {
            lemma_table_fits(t);
            lemma_table_bytes_len(t);
            lemma_type_offset_aligned(t, t.len());
        }
        self.write_directory(n as u16);
        let table_base = self.pos();
        proof {
            lemma_table_begun(s0, t);
            assert(old(relocations)@ + type_relocations(t, 0) =~= old(relocations)@);
        }
        self.reserve(n * 8);
        let mut k: usize = 0;
        while k < n
            invariant
                k <= n,
                n == table.types@.len(),
                n <= 0xFFFF,
                t == table@,
                table_fits(t),
                s0.at_end(),
                s0.limit == Some(usize::MAX as nat),
                s0.fits(table_len(t)),
                s0.origin == s0.cursor,
                table_base == s0.cursor + 16,
                self.state() == s0.appended(table_partial(t, k as nat)),
                relocations@ == old(relocations)@ + type_relocations(t, k as nat),
            decreases n - k,
        {
            proof {
                lemma_table_step(s0, t, k as nat);
                lemma_table_fits_at(t, k as nat);
                lemma_concat_assoc_pairs(
                    old(relocations)@,
                    type_relocations(t, k as nat),
                    leaf_relocations(type_offset(t, k as nat), t[k as int].ids, t[k as int].ids.len()),
                );
                assert(table.types@[k as int]@ == t[k as int]);
            }
            self.write_type(&table.types[k], table_base + k * 8, relocations);
            k += 1;
        }
        proof {
            lemma_table_done(t);
        }
    }
}

proof fn lemma_concat_assoc_pairs(
    a: Seq<(usize, usize)>,
    b: Seq<(usize, usize)>,
    c: Seq<(usize, usize)>,
)
    ensures
        (a + b) + c == a + (b + c),
{
    assert((a + b) + c =~= a + (b + c));
}

/// One section as the headers describe it.
#[derive(Debug, Copy, Clone)]
pub struct Section {
    pub name: [u8; 8],
    pub pointer_to_raw_data: usize,
    pub size_of_raw_data: usize,
    pub pointer_to_relocations: usize,
    pub number_of_relocations: usize,
}

/// The digit `d` in upper-case hexadecimal.
fn hex(d: usize) -> (r: u8)
    requires
        d < 16,
    ensures
        r == hex_digit(d as nat),
{
    if d < 10 {
        (48 + d) as u8
    } else {
        (55 + d) as u8
    }
}

/// The name of the symbol of the payload at `offset`.
pub fn symbol_name_of(offset: usize) -> (r: [u8; 8])
    requires
        offset < 0x100_0000,
    ensures
        r@ == symbol_name(offset as nat),
{
    let r: [u8; 8] = [
        36,
        82,
        hex(offset / 0x100000 % 16),
        hex(offset / 0x10000 % 16),
        hex(offset / 0x1000 % 16),
        hex(offset / 0x100 % 16),
        hex(offset / 0x10 % 16),
        hex(offset % 16),
    ];
    assert(r@ =~= symbol_name(offset as nat));
    r
}

/// The relocations in ascending order of their symbols; those of one symbol
/// keep their order.
pub fn sort_relocations(relocations: &Vec<(usize, usize)>) -> (r: Vec<(usize, usize)>)
    ensures
        r@ == sorted_by_symbol(relocations@),
{
    let n = relocations.len();
    let mut r: Vec<(usize, usize)> = Vec::new();
    let mut k: usize = 0;
    proof {
        assert(relocations@.take(0) =~= Seq::<(usize, usize)>::empty());
    }
    while k < n
        invariant
            k <= n,
            n == relocations@.len(),
            r@ == sorted_by_symbol(relocations@.take(k as int)),
        decreases n - k,
    {
        let item = relocations[k];
        let mut i: usize = r.len();
        proof {
            assert(r@.take(i as int) =~= r@);
        }
        while i > 0 && r[i - 1].1 > item.1
            invariant
                i <= r@.len(),
                back_rank(r@, item.1) == back_rank(r@.take(i as int), item.1),
            decreases i,
        {
            proof {
                assert(r@.take(i as int).drop_last() =~= r@.take(i - 1));
            }
            i -= 1;
        }
        proof {
            assert(relocations@.take(k + 1).drop_last() =~= relocations@.take(k as int));
            if i > 0 {
                assert(r@.take(i as int).last() == r@[i - 1]);
            }
        }
        r.insert(i, item);
        k += 1;
    }
    proof {
        assert(relocations@.take(n as int) =~= relocations@);
    }
    r
}

impl FileWriter {
    /// Appends one symbol record.
    fn write_symbol(&mut self, symbol: &Symbol)
        requires
            old(self).state().at_end(),
            old(self).state().fits(18),
            !(symbol is Placeholder),
        ensures
            final(self).state() == old(self).state().appended(symbol_bytes(symbol@)),
            symbol_bytes(symbol@).len() == 18,
    {
        let ghost s0 = self.state();
        match *symbol {
            Symbol::Placeholder => {},
            Symbol::Section { name, section_number } => {
                proof {
                    s0.lemma_wrote_at_end(name@);
                    s0.lemma_appended_wrote(name@, le32(0));
                    s0.lemma_appended_wrote(name@ + le32(0), le16(section_number));
                    s0.lemma_appended_wrote(name@ + le32(0) + le16(section_number), le16(0));
                    s0.lemma_appended_wrote(
                        name@ + le32(0) + le16(section_number) + le16(0),
                        seq![IMAGE_SYM_CLASS_STATIC],
                    );
                    s0.lemma_appended_wrote(
                        name@ + le32(0) + le16(section_number) + le16(0) + seq![
                            IMAGE_SYM_CLASS_STATIC,
                        ],
                        seq![1u8],
                    );
                }
                self.write_bytes(name.as_slice());  // Name
                self.write_u32(0);  // Value
                self.write_u16(section_number);  // Section number
                self.write_u16(0);  // Type
                self.write_u8(IMAGE_SYM_CLASS_STATIC);  // Storage class
                self.write_u8(1);  // Number of auxiliary symbols
            },
            Symbol::SectionAux { length, number_of_relocations } => {
                proof {
                    s0.lemma_wrote_at_end(le32(length));
                    s0.lemma_appended_wrote(le32(length), le16(number_of_relocations));
                    s0.lemma_appended_wrote(le32(length) + le16(number_of_relocations), le16(0));
                    s0.lemma_appended_skipped(
                        le32(length) + le16(number_of_relocations) + le16(0),
                        10,
                    );
                }
                self.write_u32(length);  // Length
                self.write_u16(number_of_relocations);  // Number of relocations
                self.write_u16(0);  // Number of lines
                self.reserve(10);  // Checksum, Number, Selection, Unused
            },
            Symbol::Resource { name, section_number, offset } => {
                proof {
                    s0.lemma_wrote_at_end(name@);
                    s0.lemma_appended_wrote(name@, le32(offset));
                    s0.lemma_appended_wrote(name@ + le32(offset), le16(section_number));
                    s0.lemma_appended_wrote(name@ + le32(offset) + le16(section_number), le16(0));
                    s0.lemma_appended_wrote(
                        name@ + le32(offset) + le16(section_number) + le16(0),
                        seq![IMAGE_SYM_CLASS_STATIC],
                    );
                    s0.lemma_appended_wrote(
                        name@ + le32(offset) + le16(section_number) + le16(0) + seq![
                            IMAGE_SYM_CLASS_STATIC,
                        ],
                        seq![0u8],
                    );
                }
                self.write_bytes(name.as_slice());  // Name
                self.write_u32(offset);  // Value
                self.write_u16(section_number);  // Section number
                self.write_u16(0);  // Type
                self.write_u8(IMAGE_SYM_CLASS_STATIC);  // Storage class
                self.write_u8(0);  // Number of auxiliary symbols
            },
        }
    }

    /// Appends one relocation record.
    fn write_relocation(&mut self, relocation: (usize, usize), target: TargetType)
        requires
            old(self).state().at_end(),
            old(self).state().fits(10),
        ensures
            final(self).state() == old(self).state().appended(
                relocation_bytes(relocation, target),
            ),
    {
        let ghost s0 = self.state();
        let address = #[verifier::truncate] (relocation.0 as u32);
        let symbol = #[verifier::truncate] (relocation.1 as u32);
        proof {
            s0.lemma_wrote_at_end(le32(address));
            s0.lemma_appended_wrote(le32(address), le32(symbol));
            s0.lemma_appended_wrote(
                le32(address) + le32(symbol),
                le16(RelocationType::Rva32.spec_id(target)),
            );
        }
        self.write_u32(address);
        self.write_u32(symbol);
        self.write_u16(RelocationType::Rva32.id(target));
    }

    /// Lays a section header down at the cursor.
    fn write_section_header(&mut self, section: &Section)
        requires
            old(self).state().fits(40),
            section.size_of_raw_data <= u32::MAX,
            section.pointer_to_raw_data <= u32::MAX,
            section.pointer_to_relocations <= u32::MAX,
            section.number_of_relocations <= 0xFFFF,
        ensures
            final(self).state() == old(self).state().wrote(
                section_header(
                    section.name@,
                    section.size_of_raw_data as u32,
                    section.pointer_to_raw_data as u32,
                    section.pointer_to_relocations as u32,
                    section.number_of_relocations as u16,
                ),
            ),
    {
        let ghost s0 = self.state();
        let ghost x = section.name@;
        let ghost size = le32(section.size_of_raw_data as u32);
        let ghost pointer = le32(section.pointer_to_raw_data as u32);
        let ghost relocations = le32(section.pointer_to_relocations as u32);
        let ghost count = le16(section.number_of_relocations as u16);
        proof {
            s0.lemma_wrote_twice(x, le32(0));
            s0.lemma_wrote_twice(x + le32(0), le32(0));
            s0.lemma_wrote_twice(x + le32(0) + le32(0), size);
            s0.lemma_wrote_twice(x + le32(0) + le32(0) + size, pointer);
            s0.lemma_wrote_twice(x + le32(0) + le32(0) + size + pointer, relocations);
            s0.lemma_wrote_twice(x + le32(0) + le32(0) + size + pointer + relocations, le32(0));
            s0.lemma_wrote_twice(
                x + le32(0) + le32(0) + size + pointer + relocations + le32(0),
                count,
            );
            s0.lemma_wrote_twice(
                x + le32(0) + le32(0) + size + pointer + relocations + le32(0) + count,
                le16(0),
            );
            s0.lemma_wrote_twice(
                x + le32(0) + le32(0) + size + pointer + relocations + le32(0) + count + le16(0),
                le32(SECTION_CHARACTERISTICS),
            );
        }
        self.write_bytes(section.name.as_slice());
        self.write_u32(0);  // physical address
        self.write_u32(0);  // virtual address
        self.write_u32(section.size_of_raw_data as u32);
        self.write_u32(section.pointer_to_raw_data as u32);
        self.write_u32(section.pointer_to_relocations as u32);
        self.write_u32(0);  // pointer to line numbers
        self.write_u16(section.number_of_relocations as u16);
        self.write_u16(0);  // number of line numbers
        self.write_u32(SECTION_CHARACTERISTICS);
    }
}

/// Collects resources and lays them out as an object file.
pub struct CoffWriter2 {
    pub target_type: TargetType,
    pub table: ResourceTable,
    /// The payloads, padded to the multiple of eight where the next one goes.
    pub data: FileWriter,
    /// Where the last payload ends.
    pub data_end: usize,
    pub symbols: Vec<Symbol>,
}

impl View for CoffWriter2 {
    type V = ObjectView;

    open spec fn view(&self) -> ObjectView {
        ObjectView {
            target: self.target_type,
            table: self.table@,
            data: self.data.state().content.take(self.data_end as int),
            symbols: Seq::new(self.symbols@.len(), |i: int| self.symbols@[i]@),
        }
    }
}

impl CoffWriter2 {
    const TABLE_SYMBOL: usize = 0;

    const DATA_SYMBOL: usize = 2;

    /// Whether the table is in order; the data end at their cursor, which
    /// stands at the multiple of eight behind the last payload, with zero
    /// bytes between the two; four slots stand before the symbols of the
    /// payloads; and every resource of the table has its symbol among those.
    pub open spec fn wf(&self) -> bool {
        &&& self.table.wf()
        &&& self.data.section_start == 0
        &&& self.data_end <= self.data.current_position
        &&& self.data.data@.len() == self.data.current_position
        &&& self.data.current_position == self.data_end + pad_len(self.data_end as nat, 8)
        &&& forall|i: int|
            self.data_end <= i < self.data.data@.len() ==> #[trigger] self.data.data@[i] == 0
        &&& self.symbols@.len() >= 4
        &&& forall|i: int| 0 <= i < 4 ==> (#[trigger] self.symbols@[i]) is Placeholder
        &&& forall|i: int| 4 <= i < self.symbols@.len() ==> (#[trigger] self.symbols@[i]) is Resource
        &&& symbols_within(self.table@, 4, self.symbols@.len())
    }

    /// An object without resources, for `target_type`.
    pub fn new(target_type: TargetType) -> (r: Self)
        ensures
            r.wf(),
            r@ == empty_object(target_type),
    {
        let mut symbols: Vec<Symbol> = Vec::new();
        symbols.push(Symbol::Placeholder);
        symbols.push(Symbol::Placeholder);
        symbols.push(Symbol::Placeholder);
        symbols.push(Symbol::Placeholder);
        let r = Self {
            target_type,
            table: ResourceTable::new(),
            data: FileWriter::default(),
            data_end: 0,
            symbols,
        };
        proof {
            lemma_pad_len(0, 8);
            assert(r@.data =~= Seq::<u8>::empty());
            assert(r@.symbols =~= seq![
                SymbolView::Placeholder,
                SymbolView::Placeholder,
                SymbolView::Placeholder,
                SymbolView::Placeholder,
            ]);
        }
        r
    }

    /// Adds a resource: the payload goes to the next multiple of eight
    /// bytes of the data, gets a symbol named after its offset, and is entered
    /// in the table under `ty` and `id`, with its offset and size, where it
    /// replaces an earlier one.
    pub fn add_resource<W: BinaryWritable + ?Sized>(&mut self, ty: ResourceType, id: u32, data: &W)
        requires
            old(self).wf(),
            data.writable(),
            old(self)@.can_add(data.payload().len()),
        ensures
            final(self).wf(),
            final(self)@ == old(self)@.added(ty, id, data.payload()),
            old(self)@.next_offset() % 8 == 0,
            final(self)@.next_offset() % 8 == 0,
            final(self)@.data == old(self)@.data + padding(old(self)@.data.len(), 8)
                + data.payload(),
            table_contains(
                final(self)@.table,
                ty,
                IdNode {
                    id,
                    location: ResourceLocation {
                        offset: old(self)@.next_offset() as usize,
                        size: data.payload().len() as usize,
                        symbol_id: old(self)@.symbols.len() as usize,
                    },
                },
            ),
    {
        let ghost o = self@;
        let ghost s0 = self.data.state();
        let ghost payload = data.payload();
        proof {
            lemma_pad_len(self.data_end as nat + payload.len(), 8);
            lemma_pad_len(self.data_end as nat, 8);
            s0.lemma_skipped_at_end(pad_len(s0.cursor + payload.len(), 8));
        }
        let offset = self.data.pos();
        data.write_to(&mut self.data);
        let end = self.data.pos();
        let size = end - offset;
        self.data_end = end;
        proof {
            lemma_pad_len_shift(0, end as nat, 8);
        }
        let ghost written = self.data.data@;
        self.data.align_to(8);
        proof {
            assert(written.len() <= end);
            assert forall|i: int| end <= i < self.data.data@.len() implies #[trigger] self.data.data@[i]
                == 0 by {}
        }
        let name = symbol_name_of(offset);
        let symbol_id = self.symbols.len();
        let location = ResourceLocation { offset, size, symbol_id };
        proof {
            lemma_table_inserted_symbols(
                self.table@,
                ty,
                IdNode { id, location },
                4,
                symbol_id as nat,
                (symbol_id + 1) as nat,
            );
        }
        self.symbols.push(Symbol::Resource { name, offset: offset as u32, section_number: 2 });
        self.table.insert(ty, id, location);
        proof {
            reveal(ObjectView::added);
            assert(self@.data =~= o.added(ty, id, payload).data) by {
                reveal(placed);
            }
            assert(self@.symbols =~= o.added(ty, id, payload).symbols);
            lemma_table_inserted_contains(o.table, ty, IdNode { id, location });
            lemma_pad_len(self@.data.len(), 8);
        }
    }
}

impl CoffWriter2 {
    /// Whether the object can be written.
    pub open spec fn writable(&self) -> bool {
        self@.writable()
    }

    /// Appends the section `.rsrc$01` and its relocation records.
    #[verifier::rlimit(40)]
    fn write_table_section(&self, file: &mut FileWriter) -> (section: Section)
        requires
            self.wf(),
            self.writable(),
            old(file).state().at_end(),
            old(file).current_position == 100,
        ensures
            final(file).state() == old(file).state().with_origin(100).appended(
                self@.table_section() + self@.relocation_area(),
            ),
            section.name@ == table_section_name(),
            section.pointer_to_raw_data == 100,
            section.size_of_raw_data == self@.table_section_len(),
            section.pointer_to_relocations == self@.relocations_pointer(),
            section.number_of_relocations == self@.relocations().len(),
    {
        let ghost o = self@;
        let ghost t = self.table@;
        file.mark_section_start();
        let ghost s0 = file.state();
        let pointer_to_raw_data = file.pos();
        let mut relocations: Vec<(usize, usize)> = Vec::new();
        proof {
            lemma_table_fits(t);
            lemma_table_bytes_len(t);
            lemma_pad_len(table_len(t), 4);
            lemma_sorted_by_symbol(table_relocations(t));
            lemma_pad_len(o.table_section_len() + 10 * o.relocations().len(), 4);
            s0.lemma_appended_at_end(table_bytes(t));
            s0.lemma_appended_skipped(table_bytes(t), pad_len(table_len(t), 4));
            assert(Seq::<(usize, usize)>::empty() + table_relocations(t) =~= table_relocations(t));
        }
        file.write_table(&self.table, &mut relocations);
        file.align_to(4);
        let size_of_raw_data = file.pos() - pointer_to_raw_data;
        let pointer_to_relocations = file.pos();
        let number_of_relocations = relocations.len();
        let relocations = sort_relocations(&relocations);
        let ghost section_bytes = o.table_section();
        let ghost rs = relocations@;
        proof {
            assert(section_bytes + relocations_bytes(rs, self.target_type, 0) =~= section_bytes);
        }
        let n = relocations.len();
        let mut k: usize = 0;
        while k < n
            invariant
                k <= n,
                n == rs.len(),
                rs == relocations@,
                n <= 0xFFFF,
                s0.at_end(),
                s0.cursor == 100,
                s0.limit == Some(usize::MAX as nat),
                section_bytes.len() + 10 * n + 4 + 100 <= u32::MAX,
                file.state() == s0.appended(
                    section_bytes + relocations_bytes(rs, self.target_type, k as nat),
                ),
            decreases n - k,
        {
            proof {
                let x = section_bytes + relocations_bytes(rs, self.target_type, k as nat);
                lemma_relocations_bytes_len(rs, self.target_type, k as nat);
                s0.lemma_appended_at_end(x);
                s0.lemma_appended_twice(x, relocation_bytes(rs[k as int], self.target_type));
                lemma_concat_assoc(
                    section_bytes,
                    relocations_bytes(rs, self.target_type, k as nat),
                    relocation_bytes(rs[k as int], self.target_type),
                );
            }
            file.write_relocation(relocations[k], self.target_type);
            k += 1;
        }
        proof {
            let x = section_bytes + relocations_bytes(rs, self.target_type, n as nat);
            lemma_relocations_bytes_len(rs, self.target_type, n as nat);
            s0.lemma_appended_skipped(
                x,
                pad_len(o.table_section_len() + 10 * o.relocations().len(), 4),
            );
            lemma_concat_assoc(
                section_bytes,
                relocations_bytes(rs, self.target_type, n as nat),
                padding(o.table_section_len() + 10 * o.relocations().len(), 4),
            );
        }
        file.align_to(4);
        Section {
            name: [46, 114, 115, 114, 99, 36, 48, 49],
            pointer_to_raw_data,
            size_of_raw_data,
            pointer_to_relocations,
            number_of_relocations,
        }
    }

    /// Appends the section `.rsrc$02`: the payloads, padded to four bytes.
    fn write_data_section(&self, file: &mut FileWriter) -> (section: Section)
        requires
            self.wf(),
            old(file).state().at_end(),
            old(file).current_position + self@.data_section_len() <= usize::MAX,
        ensures
            final(file).state() == old(file).state().with_origin(
                old(file).current_position as nat,
            ).appended(self@.data_section()),
            section.name@ == data_section_name(),
            section.pointer_to_raw_data == old(file).current_position,
            section.size_of_raw_data == self@.data_section_len(),
            section.pointer_to_relocations == 0,
            section.number_of_relocations == 0,
    {
        let ghost o = self@;
        file.mark_section_start();
        let ghost s0 = file.state();
        let pointer_to_raw_data = file.pos();
        let payloads = slice_subrange(self.data.data.as_slice(), 0, self.data_end);
        proof {
            assert(payloads@ =~= o.data);
            lemma_pad_len(o.data.len(), 4);
            s0.lemma_wrote_at_end(o.data);
            s0.lemma_appended_skipped(o.data, pad_len(o.data.len(), 4));
        }
        file.write_bytes(payloads);
        file.align_to(4);
        let size_of_raw_data = file.pos() - pointer_to_raw_data;
        Section {
            name: [46, 114, 115, 114, 99, 36, 48, 50],
            pointer_to_raw_data,
            size_of_raw_data,
            pointer_to_relocations: 0,
            number_of_relocations: 0,
        }
    }
}

impl FileWriter {
    /// Lays the file header down at the cursor.
    fn write_file_header(
        &mut self,
        target: TargetType,
        timestamp: u32,
        symbols_pointer: u32,
        symbols: u32,
    )
        requires
            old(self).state().fits(20),
        ensures
            final(self).state() == old(self).state().wrote(
                file_header_bytes(target, timestamp, symbols_pointer, symbols),
            ),
    {
        let ghost s0 = self.state();
        let ghost x = le16(target.spec_id());
        proof {
            s0.lemma_wrote_twice(x, le16(2));
            s0.lemma_wrote_twice(x + le16(2), le32(timestamp));
            s0.lemma_wrote_twice(x + le16(2) + le32(timestamp), le32(symbols_pointer));
            s0.lemma_wrote_twice(
                x + le16(2) + le32(timestamp) + le32(symbols_pointer),
                le32(symbols),
            );
            s0.lemma_wrote_twice(
                x + le16(2) + le32(timestamp) + le32(symbols_pointer) + le32(symbols),
                le16(0),
            );
            s0.lemma_wrote_twice(
                x + le16(2) + le32(timestamp) + le32(symbols_pointer) + le32(symbols) + le16(0),
                le16(IMAGE_FILE_32BIT_MACHINE),
            );
        }
        self.write_u16(target.id());
        self.write_u16(2);  // number of sections
        self.write_u32(timestamp);
        self.write_u32(symbols_pointer);
        self.write_u32(symbols);
        self.write_u16(0);  // optional header size
        self.write_u16(IMAGE_FILE_32BIT_MACHINE);  // flags
    }
}

impl CoffWriter2 {
    /// Appends both sections, and puts the symbols of the sections in their slots.
    fn write_sections(&mut self, file: &mut FileWriter) -> (sections: [Section; 2])
        requires
            old(self).wf(),
            old(self).writable(),
            old(file).state().at_end(),
            old(file).current_position == 100,
        ensures
            final(file).state() == old(file).state().with_origin(old(self)@.data_pointer()).appended(
                old(self)@.table_section() + old(self)@.relocation_area() + old(
                    self,
                )@.data_section(),
            ),
            final(self).target_type == old(self).target_type,
            final(self).symbols@.len() == old(self).symbols@.len(),
            Seq::new(final(self).symbols@.len(), |i: int| final(self).symbols@[i]@) == old(
                self,
            )@.final_symbols(),
            symbols_ready(old(self)@.final_symbols()),
            sections@[0].name@ == table_section_name(),
            sections@[0].pointer_to_raw_data == 100,
            sections@[0].size_of_raw_data == old(self)@.table_section_len(),
            sections@[0].pointer_to_relocations == old(self)@.relocations_pointer(),
            sections@[0].number_of_relocations == old(self)@.relocations().len(),
            sections@[1].name@ == data_section_name(),
            sections@[1].pointer_to_raw_data == old(self)@.data_pointer(),
            sections@[1].size_of_raw_data == old(self)@.data_section_len(),
            sections@[1].pointer_to_relocations == 0,
            sections@[1].number_of_relocations == 0,
    {
        let ghost o = self@;
        let ghost s0 = file.state();
        proof {
            lemma_object_lengths(o);
            lemma_sorted_by_symbol(table_relocations(o.table));
        }
        let table_section = self.write_table_section(file);
        proof {
            s0.with_origin(100).lemma_appended_at_end(o.table_section() + o.relocation_area());
            s0.with_origin(o.data_pointer()).lemma_appended_twice(
                o.table_section() + o.relocation_area(),
                o.data_section(),
            );
        }
        let data_section = self.write_data_section(file);

        self.symbols.set(
            Self::TABLE_SYMBOL,
            Symbol::Section { name: table_section.name, section_number: 1 },
        );
        self.symbols.set(
            Self::TABLE_SYMBOL + 1,
            Symbol::SectionAux {
                length: table_section.size_of_raw_data as u32,
                number_of_relocations: table_section.number_of_relocations as u16,
            },
        );
        self.symbols.set(
            Self::DATA_SYMBOL,
            Symbol::Section { name: data_section.name, section_number: 2 },
        );
        self.symbols.set(
            Self::DATA_SYMBOL + 1,
            Symbol::SectionAux {
                length: data_section.size_of_raw_data as u32,
                number_of_relocations: data_section.number_of_relocations as u16,
            },
        );
        proof {
            assert(Seq::new(self.symbols@.len(), |i: int| self.symbols@[i]@) =~= o.final_symbols());
            assert(symbols_ready(o.final_symbols())) by {
                assert forall|i: int| 0 <= i < o.final_symbols().len() implies match (
                #[trigger] o.final_symbols()[i]) {
                    SymbolView::Placeholder => false,
                    SymbolView::Section { name, .. } => name.len() == 8,
                    SymbolView::SectionAux { .. } => true,
                    SymbolView::Resource { name, .. } => name.len() == 8,
                } by {
                    if i >= 4 {
                        assert(old(self).symbols@[i] is Resource);
                        assert(o.final_symbols()[i] == old(self).symbols@[i]@);
                    }
                }
            }
        }
        [table_section, data_section]
    }

    /// Appends the symbol table, at a multiple of four bytes from the start
    /// of the section. Returns where it lies and how many records it has.
    fn write_symbol_table(&self, file: &mut FileWriter) -> (r: (usize, usize))
        requires
            symbols_ready(Seq::new(self.symbols@.len(), |i: int| self.symbols@[i]@)),
            old(file).state().at_end(),
            old(file).section_start <= old(file).current_position,
            old(file).current_position + pad_len(
                (old(file).current_position - old(file).section_start) as nat,
                4,
            ) + 18 * self.symbols@.len() <= usize::MAX,
        ensures
            final(file).state() == old(file).state().appended(
                padding((old(file).current_position - old(file).section_start) as nat, 4)
                    + symbols_bytes(
                    Seq::new(self.symbols@.len(), |i: int| self.symbols@[i]@),
                    self.symbols@.len(),
                ),
            ),
            r.0 == old(file).current_position + pad_len(
                (old(file).current_position - old(file).section_start) as nat,
                4,
            ),
            r.1 == self.symbols@.len(),
    {
        let ghost s0 = file.state();
        let ghost pad = padding((file.current_position - file.section_start) as nat, 4);
        let ghost symbols = Seq::new(self.symbols@.len(), |i: int| self.symbols@[i]@);
        proof {
            s0.lemma_skipped_at_end(pad.len());
        }
        file.align_to(4);
        let ghost s1 = file.state();
        let symbol_table_pointer = file.pos();
        let n = self.symbols.len();
        let mut k: usize = 0;
        proof {
            s1.lemma_appended_nothing();
        }
        while k < n
            invariant
                k <= n,
                n == self.symbols@.len(),
                symbols == Seq::new(self.symbols@.len(), |i: int| self.symbols@[i]@),
                symbols_ready(symbols),
                s1.at_end(),
                s1.limit == Some(usize::MAX as nat),
                s1.cursor + 18 * n <= usize::MAX,
                file.state() == s1.appended(symbols_bytes(symbols, k as nat)),
            decreases n - k,
        {
            proof {
                lemma_symbols_bytes_len(symbols, k as nat);
                s1.lemma_appended_at_end(symbols_bytes(symbols, k as nat));
                s1.lemma_appended_twice(
                    symbols_bytes(symbols, k as nat),
                    symbol_bytes(symbols[k as int]),
                );
                assert(symbols[k as int] == self.symbols@[k as int]@);
            }
            file.write_symbol(&self.symbols[k]);
            k += 1;
        }
        proof {
            s0.lemma_appended_twice(pad, symbols_bytes(symbols, n as nat));
        }
        (symbol_table_pointer, n)
    }

    /// Lays the object out, with the time of the system clock in the file
    /// header. But for those four bytes the file is a function of the object.
    pub fn finish(self) -> (r: Vec<u8>)
        requires
            self.wf(),
            self.writable(),
        ensures
            exists|timestamp: u32| r@ == self@.image(timestamp),
    {
        let timestamp = current_timestamp();
        self.finish_at(timestamp)
    }

    /// Appends what follows the headers: both sections, the symbol table
    /// and the empty string table. Returns the sections, where the symbol
    /// table lies and how many records it has.
    #[verifier::rlimit(40)]
    fn write_body(self, file: &mut FileWriter) -> (r: ([Section; 2], usize, usize, TargetType))
        requires
            self.wf(),
            self.writable(),
            old(file).data@.len() == 0,
            old(file).current_position == 100,
        ensures
            final(file).data@ == zeros(100) + self@.body(),
            r.0@[0].name@ == table_section_name(),
            r.0@[0].pointer_to_raw_data == 100,
            r.0@[0].size_of_raw_data == self@.table_section_len(),
            r.0@[0].pointer_to_relocations == self@.relocations_pointer(),
            r.0@[0].number_of_relocations == self@.relocations().len(),
            r.0@[1].name@ == data_section_name(),
            r.0@[1].pointer_to_raw_data == self@.data_pointer(),
            r.0@[1].size_of_raw_data == self@.data_section_len(),
            r.0@[1].pointer_to_relocations == 0,
            r.0@[1].number_of_relocations == 0,
            r.1 == self@.symbols_pointer(),
            r.2 == self@.symbols.len(),
            r.3 == self@.target,
    {
        let ghost o = self@;
        let mut object = self;
        let ghost s0 = file.state();
        proof {
            lemma_object_lengths(o);
            lemma_object_bounds(o);
            assert(s0.content =~= zeros(100));
        }
        let sections = object.write_sections(file);
        let ghost sections_bytes = o.table_section() + o.relocation_area() + o.data_section();
        let ghost s1 = s0.with_origin(o.data_pointer());
        let ghost symbols = symbols_bytes(o.final_symbols(), o.symbols.len());
        proof {
            lemma_symbols_bytes_len(o.final_symbols(), o.symbols.len());
            s1.lemma_appended_at_end(sections_bytes);
            s1.lemma_appended_twice(sections_bytes, symbols);
            s1.lemma_appended_at_end(sections_bytes + symbols);
            s1.lemma_appended_wrote(sections_bytes + symbols, zeros(4));
            assert(s1.appended(sections_bytes).cursor == o.symbols_pointer());
            lemma_pad_len(o.data_section_len(), 4);
            assert(padding(o.data_section_len(), 4) + symbols =~= symbols);
        }
        let (symbol_table_pointer, symbol_number) = object.write_symbol_table(file);
        let empty: [u8; 4] = [0, 0, 0, 0];
        assert(empty@ =~= zeros(4));
        file.write_bytes(empty.as_slice());  // String table
        proof {
            assert(file.state() == s1.appended(o.body()));
            assert(file.state().content == file.data@);
        }
        (sections, symbol_table_pointer, symbol_number, object.target_type)
    }

    /// Lays the object out, with `timestamp` in the file header.
    #[verifier::rlimit(40)]
    pub fn finish_at(self, timestamp: u32) -> (r: Vec<u8>)
        requires
            self.wf(),
            self.writable(),
        ensures
            r@ == self@.image(timestamp),
    {
        let ghost o = self@;
        let mut file = FileWriter::default();
        file.set_pos(HEADERS_SIZE);
        proof {
            lemma_object_bounds(o);
            lemma_image_joined(o, timestamp);
        }
        let (sections, symbol_table_pointer, symbol_number, target) = self.write_body(&mut file);
        file.set_pos(0);
        write_headers(
            &mut file,
            target,
            timestamp,
            symbol_table_pointer as u32,
            symbol_number as u32,
            &sections,
            Ghost(o.body()),
        );
        file.data
    }
}

/// The file of an object is its three headers, one behind the other, and its body.
proof fn lemma_image_joined(o: ObjectView, timestamp: u32)
    ensures
        o.image(timestamp) == o.file_header(timestamp) + section_header(
            table_section_name(),
            o.table_section_len() as u32,
            100,
            o.relocations_pointer() as u32,
            o.relocations().len() as u16,
        ) + section_header(
            data_section_name(),
            o.data_section_len() as u32,
            o.data_pointer() as u32,
            0,
            0,
        ) + o.body(),
        o.body().len() >= 4,
{
    let first = section_header(
        table_section_name(),
        o.table_section_len() as u32,
        100,
        o.relocations_pointer() as u32,
        o.relocations().len() as u16,
    );
    let second = section_header(
        data_section_name(),
        o.data_section_len() as u32,
        o.data_pointer() as u32,
        0,
        0,
    );
    lemma_concat_assoc(o.file_header(timestamp), first, second);
}

/// Lays the file header and the two section headers over the hundred
/// bytes that were left for them before `body`.
fn write_headers(
    file: &mut FileWriter,
    target: TargetType,
    timestamp: u32,
    symbols_pointer: u32,
    symbols: u32,
    sections: &[Section; 2],
    Ghost(body): Ghost<Seq<u8>>,
)
    requires
        old(file).data@ == zeros(100) + body,
        body.len() > 0,
        old(file).current_position == 0,
        forall|i: int|
            0 <= i < 2 ==> (#[trigger] sections@[i]).size_of_raw_data <= u32::MAX
                && sections@[i].pointer_to_raw_data <= u32::MAX
                && sections@[i].pointer_to_relocations <= u32::MAX
                && sections@[i].number_of_relocations <= 0xFFFF,
    ensures
        final(file).data@ == file_header_bytes(target, timestamp, symbols_pointer, symbols)
            + section_header(
            sections@[0].name@,
            sections@[0].size_of_raw_data as u32,
            sections@[0].pointer_to_raw_data as u32,
            sections@[0].pointer_to_relocations as u32,
            sections@[0].number_of_relocations as u16,
        ) + section_header(
            sections@[1].name@,
            sections@[1].size_of_raw_data as u32,
            sections@[1].pointer_to_raw_data as u32,
            sections@[1].pointer_to_relocations as u32,
            sections@[1].number_of_relocations as u16,
        ) + body,
{
    let ghost s0 = file.state();
    let ghost header = file_header_bytes(target, timestamp, symbols_pointer, symbols);
    let ghost first = section_header(
        sections@[0].name@,
        sections@[0].size_of_raw_data as u32,
        sections@[0].pointer_to_raw_data as u32,
        sections@[0].pointer_to_relocations as u32,
        sections@[0].number_of_relocations as u16,
    );
    let ghost second = section_header(
        sections@[1].name@,
        sections@[1].size_of_raw_data as u32,
        sections@[1].pointer_to_raw_data as u32,
        sections@[1].pointer_to_relocations as u32,
        sections@[1].number_of_relocations as u16,
    );
    proof {
        assert(sections@[0].size_of_raw_data <= u32::MAX);
        assert(sections@[1].size_of_raw_data <= u32::MAX);
        assert(s0.content == zeros(100) + body);
        s0.lemma_wrote_twice(header, first);
        s0.lemma_wrote_twice(header + first, second);
        lemma_headers_placed(zeros(100), body, header + first + second);
    }
    file.write_file_header(target, timestamp, symbols_pointer, symbols);
    file.write_section_header(&sections[0]);
    file.write_section_header(&sections[1]);
    proof {
        let image = header + first + second + body;
        assert(file.state().content == image);
        assert(file.state().cursor == 100);
        assert(image.len() > 100);
    }
}

/// Headers laid over the room that was left for them.
proof fn lemma_headers_placed(room: Seq<u8>, body: Seq<u8>, headers: Seq<u8>)
    requires
        room.len() == headers.len(),
    ensures
        placed(room + body, 0, headers) == headers + body,
{
    lemma_placed_inside(Seq::empty(), room, body, headers);
    assert(Seq::<u8>::empty() + room + body =~= room + body);
    assert(Seq::<u8>::empty() + headers + body =~= headers + body);
}

/// In an object that can be written every size and every pointer fits 32 bits.
pub proof fn lemma_object_bounds(o: ObjectView)
    requires
        o.writable(),
    ensures
        table_fits(o.table),
        o.relocations().len() <= 0xFFFF,
        o.table_section_len() <= o.relocations_pointer() <= o.data_pointer() <= o.symbols_pointer()
            <= o.image_len() <= u32::MAX,
        o.data_section_len() <= o.symbols_pointer(),
        18 * o.symbols.len() + 4 <= o.image_len(),
{
    lemma_sorted_by_symbol(table_relocations(o.table));
}

/// The parts of an object have the sizes that the pointers are computed from.
#[verifier::rlimit(40)]
pub proof fn lemma_object_lengths(o: ObjectView)
    ensures
        o.table_section().len() == o.table_section_len(),
        o.table_section_len() % 4 == 0,
        o.relocation_area().len() == o.relocation_area_len(),
        (o.table_section_len() + o.relocation_area_len()) % 4 == 0,
        o.data_section().len() == o.data_section_len(),
        o.data_section_len() % 4 == 0,
        o.relocations().len() == table_relocations(o.table).len(),
        o.data_pointer() % 4 == 0,
{
    let n = o.relocations().len();
    lemma_table_bytes_len(o.table);
    lemma_pad_len(table_len(o.table), 4);
    lemma_sorted_by_symbol(table_relocations(o.table));
    lemma_relocations_bytes_len(o.relocations(), o.target, n);
    lemma_pad_len(o.table_section_len() + 10 * n, 4);
    lemma_pad_len(o.data.len(), 4);
    assert(o.table_section_len() + o.relocation_area_len() == o.table_section_len() + 10 * n
        + pad_len(o.table_section_len() + 10 * n, 4));
    assert(o.data_pointer() == 100 + (o.table_section_len() + o.relocation_area_len()));
    lemma_step_aligned((o.table_section_len() + o.relocation_area_len()) as int, 25, 4);
}

/// The number of relocations of the first `k` types is the number of their resources.
pub proof fn lemma_type_relocations_len(t: Table, k: nat)
    requires
        k <= t.len(),
    ensures
        k < t.len() ==> type_relocations(t, k + 1).len() == type_relocations(t, k).len()
            + t[k as int].ids.len(),
        k < t.len() ==> type_offset(t, k + 1) == type_offset(t, k) + 16 + 48
            * t[k as int].ids.len(),
        type_relocations(t, 0).len() == 0,
        type_offset(t, 0) == 16 + 8 * t.len(),
{
    if k < t.len() {
        lemma_id_entries_len(type_offset(t, k), t[k as int].ids, t[k as int].ids.len());
    }
}

impl CoffWriter2 {
    /// Whether a payload of `len` bytes can be added.
    pub fn can_add(&self, len: usize) -> (r: bool)
        requires
            self.wf(),
        ensures
            r == self@.can_add(len as nat),
    {
        proof {
            lemma_pad_len(self.data_end as nat, 8);
        }
        let offset = self.data.current_position;
        offset < 0x100_0000 && len <= 0xFFFF_FFFF && len <= usize::MAX - 8 - offset
    }

    /// Whether the sizes of every resource of the table fit 32 bits and
    /// no type has more than 65535 resources.
    fn types_fit(&self) -> (r: bool)
        ensures
            r == (forall|a: int|
                0 <= a < self.table@.len() ==> (#[trigger] self.table@[a]).ids.len() <= 0xFFFF
                    && forall|b: int|
                    0 <= b < self.table@[a].ids.len() ==> (
                    #[trigger] self.table@[a].ids[b]).location.size <= u32::MAX),
    {
        let ghost t = self.table@;
        let n = self.table.types.len();
        let mut k: usize = 0;
        while k < n
            invariant
                k <= n,
                n == self.table.types@.len(),
                t == self.table@,
                forall|a: int|
                    0 <= a < k ==> (#[trigger] t[a]).ids.len() <= 0xFFFF && forall|b: int|
                        0 <= b < t[a].ids.len() ==> (#[trigger] t[a].ids[b]).location.size
                            <= u32::MAX,
            decreases n - k,
        {
            let ids = &self.table.types[k].ids;
            assert(ids@ == t[k as int].ids);
            let m = ids.len();
            if m > 0xFFFF {
                return false;
            }
            let mut j: usize = 0;
            while j < m
                invariant
                    j <= m,
                    m == ids@.len(),
                    k < n,
                    n == t.len(),
                    ids@ == t[k as int].ids,
                    t == self.table@,
                    forall|b: int| 0 <= b < j ==> (#[trigger] ids@[b]).location.size <= u32::MAX,
                decreases m - j,
            {
                if ids[j].location.size > 0xFFFF_FFFF {
                    proof {
                        let all = forall|a: int|
                            0 <= a < t.len() ==> (#[trigger] t[a]).ids.len() <= 0xFFFF
                                && forall|b: int|
                                0 <= b < t[a].ids.len() ==> (#[trigger] t[a].ids[b]).location.size
                                    <= u32::MAX;
                        if all {
                            assert(t[k as int].ids.len() <= 0xFFFF);
                            assert(t[k as int].ids[j as int].location.size <= u32::MAX);
                        }
                    }
                    return false;
                }
                j += 1;
            }
            k += 1;
        }
        true
    }

    /// Whether the object can be written: [`ObjectView::writable`].
    pub fn can_finish(&self) -> (r: bool)
        requires
            self.wf(),
        ensures
            r == self.writable(),
    {
        let ghost o = self@;
        let ghost t = self.table@;
        proof {
            reveal(table_fits);
            lemma_object_lengths(o);
            lemma_sorted_by_symbol(table_relocations(t));
            lemma_type_relocations_len(t, 0);
            lemma_type_offset_monotonic(t, 0, t.len());
        }
        let n = self.table.types.len();
        if n > 0xFFFF || self.symbols.len() > 0xFFFF_FFFF || self.data_end > 0xFFFF_FFFF {
            return false;
        }
        if !self.types_fit() {
            return false;
        }
        let mut table_len: u64 = 16 + 8 * (n as u64);
        let mut leaves: u64 = 0;
        let mut k: usize = 0;
        while k < n
            invariant
                k <= n,
                n == self.table.types@.len(),
                n <= 0xFFFF,
                t == self.table@,
                forall|a: int| 0 <= a < t.len() ==> (#[trigger] t[a]).ids.len() <= 0xFFFF,
                table_len == type_offset(t, k as nat),
                leaves == type_relocations(t, k as nat).len(),
                leaves <= 0xFFFF * k,
                table_len <= 16 + 8 * n + 3145696 * k,
            decreases n - k,
        {
            proof {
                lemma_type_relocations_len(t, k as nat);
                assert(self.table.types@[k as int].ids@ == t[k as int].ids);
                assert(t[k as int].ids.len() <= 0xFFFF);
            }
            let m = self.table.types[k].ids.len() as u64;
            table_len = table_len + 16 + 48 * m;
            leaves = leaves + m;
            k += 1;
        }
        if table_len > 0x7FFF_FFFF || leaves > 0xFFFF {
            return false;
        }
        let relocations = 10 * leaves;
        let table_section = table_len + (4 - table_len % 4) % 4;
        let area = table_section + relocations;
        let data = self.data_end as u64;
        let image = 100 + area + (4 - area % 4) % 4 + data + (4 - data % 4) % 4 + 18 * (
        self.symbols.len() as u64) + 4;
        proof {
            lemma_pad_len(table_len as nat, 4);
            lemma_pad_len(area as nat, 4);
            lemma_pad_len(data as nat, 4);
            assert(o.data.len() == self.data_end);
            assert(image == o.image_len());
        }
        image <= 0xFFFF_FFFF
    }
}

} // verus!
