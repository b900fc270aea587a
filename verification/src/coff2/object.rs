//! The bytes of the object file around the resource directory: headers,
//! relocation records, symbol table.

use vstd::prelude::*;
use crate::encoding::{le16, le32, zeros, pad_len, padding};
use crate::coff::{TargetType, RelocationType};
use crate::coff2::table::{Table, IdNode, ResourceLocation, table_inserted};
use crate::ResourceType;
use crate::coff2::layout::{table_bytes, table_len, table_relocations, table_fits};

verus! {

/// The size of the file header and the two section headers.
pub const HEADERS_SIZE: usize = 100;

/// The storage class of every symbol: static.
pub const IMAGE_SYM_CLASS_STATIC: u8 = 0x03;

/// The characteristics of the file: a 32-bit machine.
pub const IMAGE_FILE_32BIT_MACHINE: u16 = 0x0100;

/// The characteristics of both sections: initialized data, readable, writable.
pub const SECTION_CHARACTERISTICS: u32 = 0xC000_0040;

/// The name of the section that holds the resource directory: `.rsrc$01`.
pub open spec fn table_section_name() -> Seq<u8> {
    seq![46u8, 114, 115, 114, 99, 36, 48, 49]
}

/// The name of the section that holds the payloads: `.rsrc$02`.
pub open spec fn data_section_name() -> Seq<u8> {
    seq![46u8, 114, 115, 114, 99, 36, 48, 50]
}

/// An entry of the symbol table.
#[derive(Debug, Copy, Clone, PartialEq, Eq)]
pub enum Symbol {
    /// A slot that a section symbol takes once the sections are laid out.
    Placeholder,
    /// The symbol of a section; an auxiliary record follows it.
    Section { name: [u8; 8], section_number: u16 },
    /// The auxiliary record of a section symbol.
    SectionAux { length: u32, number_of_relocations: u16 },
    /// The symbol of a payload, at `offset` in the section of that number.
    Resource { name: [u8; 8], offset: u32, section_number: u16 },
}

/// An entry of the symbol table, as plain values.
pub enum SymbolView {
    Placeholder,
    Section { name: Seq<u8>, section_number: u16 },
    SectionAux { length: u32, number_of_relocations: u16 },
    Resource { name: Seq<u8>, offset: u32, section_number: u16 },
}

impl View for Symbol {
    type V = SymbolView;

    open spec fn view(&self) -> SymbolView {
        match self {
            Symbol::Placeholder => SymbolView::Placeholder,
            Symbol::Section { name, section_number } => SymbolView::Section {
                name: name@,
                section_number: *section_number,
            },
            Symbol::SectionAux { length, number_of_relocations } => SymbolView::SectionAux {
                length: *length,
                number_of_relocations: *number_of_relocations,
            },
            Symbol::Resource { name, offset, section_number } => SymbolView::Resource {
                name: name@,
                offset: *offset,
                section_number: *section_number,
            },
        }
    }
}

/// One symbol record: the name, the value, the number of the section, the
/// type (zero), the storage class (static) and the number of auxiliary
/// records behind it. The auxiliary record of a section holds its length and
/// the number of its relocations. A placeholder has no record.
pub open spec fn symbol_bytes(symbol: SymbolView) -> Seq<u8> {
    match symbol {
        SymbolView::Placeholder => Seq::empty(),
        SymbolView::Section { name, section_number } => name + le32(0) + le16(section_number)
            + le16(0) + seq![IMAGE_SYM_CLASS_STATIC] + seq![1u8],
        SymbolView::SectionAux { length, number_of_relocations } => le32(length) + le16(
            number_of_relocations,
        ) + le16(0) + zeros(10),
        SymbolView::Resource { name, offset, section_number } => name + le32(offset) + le16(
            section_number,
        ) + le16(0) + seq![IMAGE_SYM_CLASS_STATIC] + seq![0u8],
    }
}

/// Whether a symbol table can be written: no placeholder is left, and every name has eight bytes.
pub open spec fn symbols_ready(symbols: Seq<SymbolView>) -> bool {
    forall|i: int|
        0 <= i < symbols.len() ==> match #[trigger] symbols[i] {
            SymbolView::Placeholder => false,
            SymbolView::Section { name, .. } => name.len() == 8,
            SymbolView::SectionAux { .. } => true,
            SymbolView::Resource { name, .. } => name.len() == 8,
        }
}

/// The first `k` records of a symbol table.
pub open spec fn symbols_bytes(symbols: Seq<SymbolView>, k: nat) -> Seq<u8>
    decreases k,
{
    if k == 0 {
        Seq::empty()
    } else {
        symbols_bytes(symbols, (k - 1) as nat) + symbol_bytes(symbols[k - 1])
    }
}

/// The digit `d` in upper-case hexadecimal.
pub open spec fn hex_digit(d: nat) -> u8 {
    if d < 10 {
        (48 + d) as u8
    } else {
        (55 + d) as u8
    }
}

/// The name of the symbol of the payload at `offset`: `$R`, then the offset
/// in six upper-case hexadecimal digits.
pub open spec fn symbol_name(offset: nat) -> Seq<u8> {
    seq![
        36u8,
        82u8,
        hex_digit(offset / 0x100000 % 16),
        hex_digit(offset / 0x10000 % 16),
        hex_digit(offset / 0x1000 % 16),
        hex_digit(offset / 0x100 % 16),
        hex_digit(offset / 0x10 % 16),
        hex_digit(offset % 16),
    ]
}

/// One relocation record: the place within the section, the index of the
/// symbol, the type.
pub open spec fn relocation_bytes(r: (usize, usize), target: TargetType) -> Seq<u8> {
    le32(r.0 as u32) + le32(r.1 as u32) + le16(RelocationType::Rva32.spec_id(target))
}

/// The first `k` records of a list of relocations.
pub open spec fn relocations_bytes(rs: Seq<(usize, usize)>, target: TargetType, k: nat) -> Seq<u8>
    decreases k,
{
    if k == 0 {
        Seq::empty()
    } else {
        relocations_bytes(rs, target, (k - 1) as nat) + relocation_bytes(rs[k - 1], target)
    }
}

/// Where the last relocation whose symbol is at most `symbol` ends: what
/// lies behind has a greater symbol.
pub open spec fn back_rank(rs: Seq<(usize, usize)>, symbol: usize) -> nat
    decreases rs.len(),
{
    if rs.len() == 0 || rs.last().1 <= symbol {
        rs.len()
    } else {
        back_rank(rs.drop_last(), symbol)
    }
}

/// The relocations in ascending order of their symbols; those of one symbol
/// keep their order.
pub open spec fn sorted_by_symbol(rs: Seq<(usize, usize)>) -> Seq<(usize, usize)>
    decreases rs.len(),
{
    if rs.len() == 0 {
        Seq::empty()
    } else {
        let before = sorted_by_symbol(rs.drop_last());
        before.insert(back_rank(before, rs.last().1) as int, rs.last())
    }
}

/// Whether the symbols of a list of relocations ascend.
pub open spec fn ascending(rs: Seq<(usize, usize)>) -> bool {
    forall|i: int, j: int| 0 <= i < j < rs.len() ==> (#[trigger] rs[i]).1 <= (#[trigger] rs[j]).1
}

/// What lies before the place that [`back_rank`] gives ends with a symbol
/// that is at most `symbol`; what lies behind has greater symbols.
pub proof fn lemma_back_rank(rs: Seq<(usize, usize)>, symbol: usize)
    ensures
        back_rank(rs, symbol) <= rs.len(),
        forall|j: int| back_rank(rs, symbol) <= j < rs.len() ==> (#[trigger] rs[j]).1 > symbol,
        back_rank(rs, symbol) > 0 ==> rs[back_rank(rs, symbol) - 1].1 <= symbol,
    decreases rs.len(),
{
    if rs.len() == 0 || rs.last().1 <= symbol {
    } else {
        let t = rs.drop_last();
        lemma_back_rank(t, symbol);
        assert forall|j: int| back_rank(rs, symbol) <= j < rs.len() implies (#[trigger] rs[j]).1
            > symbol by {
            if j < t.len() {
                assert(rs[j] == t[j]);
            }
        }
    }
}

/// Sorting keeps every relocation, and the result ascends by symbol.
pub proof fn lemma_sorted_by_symbol(rs: Seq<(usize, usize)>)
    ensures
        sorted_by_symbol(rs).len() == rs.len(),
        ascending(sorted_by_symbol(rs)),
        sorted_by_symbol(rs).to_multiset() == rs.to_multiset(),
    decreases rs.len(),
{
    if rs.len() == 0 {
        assert(rs =~= Seq::empty());
    } else {
        let t = rs.drop_last();
        let x = rs.last();
        let before = sorted_by_symbol(t);
        lemma_sorted_by_symbol(t);
        lemma_back_rank(before, x.1);
        let i = back_rank(before, x.1) as int;
        let r = before.insert(i, x);
        assert forall|a: int, b: int| 0 <= a < b < r.len() implies (#[trigger] r[a]).1 <= (
        #[trigger] r[b]).1 by {
            if a < i {
                assert(r[a] == before[a]);
                assert(before[a].1 <= before[i - 1].1);
            } else if a > i {
                assert(r[a] == before[a - 1]);
            }
            if b < i {
                assert(r[b] == before[b]);
            } else if b > i {
                assert(r[b] == before[b - 1]);
            }
        }
        vstd::seq_lib::to_multiset_insert(before, i, x);
        assert(rs =~= t.push(x));
        vstd::seq_lib::to_multiset_build(t, x);
        assert(r.to_multiset() =~= rs.to_multiset());
    }
}

/// A symbol table without placeholders takes eighteen bytes for each record.
pub proof fn lemma_symbols_bytes_len(symbols: Seq<SymbolView>, k: nat)
    requires
        k <= symbols.len(),
        symbols_ready(symbols),
    ensures
        symbols_bytes(symbols, k).len() == 18 * k,
    decreases k,
{
    if k > 0 {
        lemma_symbols_bytes_len(symbols, (k - 1) as nat);
    }
}

/// Relocation records take ten bytes each.
pub proof fn lemma_relocations_bytes_len(rs: Seq<(usize, usize)>, target: TargetType, k: nat)
    ensures
        relocations_bytes(rs, target, k).len() == 10 * k,
    decreases k,
{
    if k > 0 {
        lemma_relocations_bytes_len(rs, target, (k - 1) as nat);
    }
}

/// What an object is made from.
pub struct ObjectView {
    pub target: TargetType,
    /// The resources, as the directory lists them.
    pub table: Table,
    /// The payloads, each at a multiple of eight bytes.
    pub data: Seq<u8>,
    /// The symbol table: four slots for the sections, then one symbol for each payload.
    pub symbols: Seq<SymbolView>,
}

impl ObjectView {
    /// The offset in the data at which the next payload goes: the next multiple of eight.
    pub open spec fn next_offset(self) -> nat {
        self.data.len() + pad_len(self.data.len(), 8)
    }

    /// The object with one more resource: its payload at the next multiple
    /// of eight bytes of the data, a symbol named after that offset, and an
    /// entry in the table, in place of an earlier one of the same type and
    /// identifier if there is one.
    #[verifier::opaque]
    pub open spec fn added(self, ty: ResourceType, id: u32, payload: Seq<u8>) -> ObjectView {
        ObjectView {
            target: self.target,
            table: table_inserted(
                self.table,
                ty,
                IdNode {
                    id,
                    location: ResourceLocation {
                        offset: self.next_offset() as usize,
                        size: payload.len() as usize,
                        symbol_id: self.symbols.len() as usize,
                    },
                },
            ),
            data: self.data + padding(self.data.len(), 8) + payload,
            symbols: self.symbols.push(
                SymbolView::Resource {
                    name: symbol_name(self.next_offset()),
                    offset: self.next_offset() as u32,
                    section_number: 2,
                },
            ),
        }
    }

    /// Whether a payload of `len` bytes can be added: its offset fits the
    /// six hexadecimal digits of a symbol name, its size fits 32 bits, and
    /// with the padding that may follow it the data stays within the range of `usize`.
    pub open spec fn can_add(self, len: nat) -> bool {
        &&& self.next_offset() < 0x100_0000
        &&& len <= u32::MAX
        &&& self.next_offset() + len + 8 <= usize::MAX
    }

    /// Whether the object can be written: the table can be laid out, the
    /// number of relocations fits 16 bits, and the size of the file 32 bits.
    pub open spec fn writable(self) -> bool {
        &&& table_fits(self.table)
        &&& table_relocations(self.table).len() <= 0xFFFF
        &&& self.image_len() <= u32::MAX
    }

    /// The section `.rsrc$01`: the resource directory, padded to four bytes.
    pub open spec fn table_section(self) -> Seq<u8> {
        table_bytes(self.table) + padding(table_len(self.table), 4)
    }

    /// The size of the section `.rsrc$01`.
    pub open spec fn table_section_len(self) -> nat {
        table_len(self.table) + pad_len(table_len(self.table), 4)
    }

    /// The relocations of the section `.rsrc$01`, in ascending order of their symbols.
    pub open spec fn relocations(self) -> Seq<(usize, usize)> {
        sorted_by_symbol(table_relocations(self.table))
    }

    /// The relocation records, padded to four bytes from the start of the section.
    pub open spec fn relocation_area(self) -> Seq<u8> {
        relocations_bytes(self.relocations(), self.target, self.relocations().len()) + padding(
            self.table_section_len() + 10 * self.relocations().len(),
            4,
        )
    }

    /// The size of the relocation records and their padding.
    pub open spec fn relocation_area_len(self) -> nat {
        10 * self.relocations().len() + pad_len(
            self.table_section_len() + 10 * self.relocations().len(),
            4,
        )
    }

    /// The section `.rsrc$02`: the payloads, padded to four bytes.
    pub open spec fn data_section(self) -> Seq<u8> {
        self.data + padding(self.data.len(), 4)
    }

    /// The size of the section `.rsrc$02`.
    pub open spec fn data_section_len(self) -> nat {
        self.data.len() + pad_len(self.data.len(), 4)
    }

    /// The symbol table with the symbols of the two sections in their slots.
    pub open spec fn final_symbols(self) -> Seq<SymbolView> {
        self.symbols.update(
            0,
            SymbolView::Section { name: table_section_name(), section_number: 1 },
        ).update(
            1,
            SymbolView::SectionAux {
                length: self.table_section_len() as u32,
                number_of_relocations: self.relocations().len() as u16,
            },
        ).update(
            2,
            SymbolView::Section { name: data_section_name(), section_number: 2 },
        ).update(
            3,
            SymbolView::SectionAux {
                length: self.data_section_len() as u32,
                number_of_relocations: 0,
            },
        )
    }

    /// The offset of the relocation records in the file.
    pub open spec fn relocations_pointer(self) -> nat {
        100 + self.table_section_len()
    }

    /// The offset of the section `.rsrc$02` in the file.
    pub open spec fn data_pointer(self) -> nat {
        self.relocations_pointer() + self.relocation_area_len()
    }

    /// The offset of the symbol table in the file.
    pub open spec fn symbols_pointer(self) -> nat {
        self.data_pointer() + self.data_section_len()
    }

    /// The size of the file.
    pub open spec fn image_len(self) -> nat {
        self.symbols_pointer() + 18 * self.symbols.len() + 4
    }

    /// What follows the headers: both sections with the relocation records
    /// between them, the symbol table, and an empty string table.
    pub open spec fn body(self) -> Seq<u8> {
        self.table_section() + self.relocation_area() + self.data_section() + symbols_bytes(
            self.final_symbols(),
            self.symbols.len(),
        ) + zeros(4)
    }

    /// The file header: machine, two sections, the timestamp, where the
    /// symbol table lies and how many records it has, no optional header,
    /// and the characteristics.
    pub open spec fn file_header(self, timestamp: u32) -> Seq<u8> {
        file_header_bytes(
            self.target,
            timestamp,
            self.symbols_pointer() as u32,
            self.symbols.len() as u32,
        )
    }

    /// The two section headers.
    pub open spec fn section_headers(self) -> Seq<u8> {
        section_header(
            table_section_name(),
            self.table_section_len() as u32,
            100,
            self.relocations_pointer() as u32,
            self.relocations().len() as u16,
        ) + section_header(
            data_section_name(),
            self.data_section_len() as u32,
            self.data_pointer() as u32,
            0,
            0,
        )
    }

    /// The object file.
    pub open spec fn image(self, timestamp: u32) -> Seq<u8> {
        self.file_header(timestamp) + self.section_headers() + self.body()
    }
}

/// The file header of an object with two sections: machine, number of
/// sections, the timestamp, where the symbol table lies and how many records
/// it has, no optional header, and the characteristics.
pub open spec fn file_header_bytes(
    target: TargetType,
    timestamp: u32,
    symbols_pointer: u32,
    symbols: u32,
) -> Seq<u8> {
    le16(target.spec_id()) + le16(2) + le32(timestamp) + le32(symbols_pointer) + le32(symbols)
        + le16(0) + le16(IMAGE_FILE_32BIT_MACHINE)
}

/// A section header: the name; no physical and no virtual address; the size
/// of the section and where it lies; where its relocation records lie; no
/// line numbers; the number of relocations; and the characteristics.
pub open spec fn section_header(
    name: Seq<u8>,
    size: u32,
    pointer: u32,
    relocations_pointer: u32,
    relocations: u16,
) -> Seq<u8> {
    name + le32(0) + le32(0) + le32(size) + le32(pointer) + le32(relocations_pointer) + le32(0)
        + le16(relocations) + le16(0) + le32(SECTION_CHARACTERISTICS)
}

/// An object without resources.
pub open spec fn empty_object(target: TargetType) -> ObjectView {
    ObjectView {
        target,
        table: Table::empty(),
        data: Seq::empty(),
        symbols: seq![
            SymbolView::Placeholder,
            SymbolView::Placeholder,
            SymbolView::Placeholder,
            SymbolView::Placeholder,
        ],
    }
}

} // verus!
