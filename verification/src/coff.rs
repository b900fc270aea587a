//! The COFF object with a single `.rsrc` section, written front to back:
//! directories reserve their entries, and each entry is filled in when the
//! directory or data entry it points to is laid down.

use vstd::prelude::*;
use crate::binary::{BinaryWriter, BinaryWritable, Buffer, ScopedSlice, WriterState};
use crate::encoding::{
    le16,
    le32,
    zeros,
    pad_len,
    padding,
    placed,
    lemma_pad_len,
    lemma_placed_inside,
    lemma_concat_assoc,
};
use crate::coff2::layout::{dir_header, dir_entry, data_entry, subdir};
use crate::coff2::object::{
    SymbolView,
    symbol_bytes,
    section_header,
    IMAGE_FILE_32BIT_MACHINE,
    IMAGE_SYM_CLASS_STATIC,
    SECTION_CHARACTERISTICS,
};

verus! {

/// The machine that the object is for.
#[derive(Debug, Copy, Clone, PartialEq, Eq, Structural)]
pub enum TargetType {
    Aarch64,
    I386,
    X86_64,
}

impl TargetType {
    /// The machine field of the file header.
    pub open spec fn spec_id(self) -> u16 {
        match self {
            TargetType::Aarch64 => 0xaa64,
            TargetType::I386 => 0x014c,
            TargetType::X86_64 => 0x8664,
        }
    }

    /// The machine field of the file header.
    #[verifier::when_used_as_spec(spec_id)]
    pub fn id(self) -> (r: u16)
        ensures
            r == self.spec_id(),
    {
        match self {
            TargetType::Aarch64 => 0xaa64,
            TargetType::I386 => 0x014c,
            TargetType::X86_64 => 0x8664,
        }
    }
}

/// The kind of a relocation.
#[derive(Debug, Copy, Clone, PartialEq, Eq, Structural)]
pub enum RelocationType {
    /// A 32-bit address relative to the image base.
    Rva32,
}

impl RelocationType {
    /// The type field of a relocation record for `target`.
    pub open spec fn spec_id(self, target: TargetType) -> u16 {
        match target {
            TargetType::Aarch64 => 0x0002,
            TargetType::I386 => 0x0007,
            TargetType::X86_64 => 0x0003,
        }
    }

    /// The type field of a relocation record: `IMAGE_REL_ARM64_ADDR32NB`,
    /// `IMAGE_REL_I386_DIR32NB` or `IMAGE_REL_AMD64_ADDR32NB`.
    #[verifier::when_used_as_spec(spec_id)]
    pub fn id(self, target: TargetType) -> (r: u16)
        ensures
            r == self.spec_id(target),
    {
        match self {
            RelocationType::Rva32 => match target {
                TargetType::Aarch64 => 0x0002,
                TargetType::I386 => 0x0007,
                TargetType::X86_64 => 0x0003,
            },
        }
    }
}

/// `std::time::SystemTime`: a reading of the system clock, of which nothing is known.
#[verifier::external_type_specification]
#[verifier::external_body]
pub struct ExSystemTime(std::time::SystemTime);

/// `SystemTime::now`: what the system clock reads. Nothing is claimed of it.
#[verifier::external_body]
fn clock_now() -> std::time::SystemTime {
    std::time::SystemTime::now()
}

/// `SystemTime::duration_since` with `UNIX_EPOCH`: how long after the epoch
/// the time lies; `None` where it lies before. Nothing is claimed of the span.
#[verifier::external_body]
fn since_epoch(time: &std::time::SystemTime) -> Option<std::time::Duration> {
    match time.duration_since(std::time::SystemTime::UNIX_EPOCH) {
        Ok(span) => Some(span),
        Err(_) => None,
    }
}

/// `Duration::as_secs`: the whole seconds of a span. Nothing is claimed of the number.
#[verifier::external_body]
fn whole_seconds(span: &std::time::Duration) -> u64 {
    span.as_secs()
}

/// The timestamp for a file header from a reading of the clock: the low 32
/// bits of the seconds since the epoch, and zero where the clock gave none.
pub open spec fn timestamp_of(reading: Option<u64>) -> u32 {
    match reading {
        Some(seconds) => (seconds % 0x1_0000_0000) as u32,
        None => 0,
    }
}

/// The timestamp for a file header from a reading of the clock.
pub fn timestamp_from(reading: Option<u64>) -> (r: u32)
    ensures
        r == timestamp_of(reading),
{
    match reading {
        Some(seconds) => (seconds % 0x1_0000_0000) as u32,
        None => 0,
    }
}

/// The timestamp for a file header, from the system clock.
pub fn current_timestamp() -> u32 {
    let now = clock_now();
    let reading = match since_epoch(&now) {
        Some(span) => Some(whole_seconds(&span)),
        None => None,
    };
    timestamp_from(reading)
}

/// The size of the file header and the section header.
pub const HEADER_SIZE: usize = 60;

/// The name of the section: `.rsrc`, padded with zero bytes.
pub open spec fn section_name() -> Seq<u8> {
    seq![46u8, 114, 115, 114, 99, 0, 0, 0]
}

/// The file header of an object with one section and two symbol records.
pub open spec fn file_header(target: TargetType, timestamp: u32, symbols_pointer: u32) -> Seq<u8> {
    le16(target.spec_id()) + le16(1) + le32(timestamp) + le32(symbols_pointer) + le32(2) + le16(0)
        + le16(IMAGE_FILE_32BIT_MACHINE)
}

/// The symbol table: the symbol of the section and its auxiliary record.
pub open spec fn section_symbols(size: u32, relocations: u16) -> Seq<u8> {
    symbol_bytes(SymbolView::Section { name: section_name(), section_number: 1 }) + symbol_bytes(
        SymbolView::SectionAux { length: size, number_of_relocations: relocations },
    )
}

/// The object file: the headers over the room left for them, what was
/// written behind, the symbol table, and an empty string table.
pub open spec fn object_image(
    target: TargetType,
    timestamp: u32,
    written: Seq<u8>,
    relocation_start: nat,
    relocations: u16,
) -> Seq<u8> {
    file_header(target, timestamp, written.len() as u32) + section_header(
        section_name(),
        (relocation_start - 60) as u32,
        60,
        relocation_start as u32,
        relocations,
    ) + written.skip(60) + section_symbols((relocation_start - 60) as u32, relocations) + zeros(4)
}

/// Writes an object with one section front to back.
pub struct CoffWriter {
    /// What is written: room for the headers, then the section and its relocation records.
    pub out: Buffer,
    pub relocations: u16,
    pub data_start: usize,
    pub relocation_start: usize,
    pub target: TargetType,
}

impl View for CoffWriter {
    type V = Seq<u8>;

    open spec fn view(&self) -> Seq<u8> {
        self.out@
    }
}

impl BinaryWriter for CoffWriter {
    /// Alignment counts from the start of the section, behind the headers.
    open spec fn state(&self) -> WriterState {
        self.out.state()
    }

    open spec fn wf(&self) -> bool {
        &&& self.out.wf()
        &&& self.out.origin == HEADER_SIZE
        &&& self.data_start == HEADER_SIZE
    }

    proof fn lemma_cursor_in_content(&self) {
        assert(self.out.data@.len() == self.out.data.len());
    }

    fn pos(&self) -> (p: usize) {
        self.out.pos()
    }

    fn reserve(&mut self, amount: usize) {
        self.out.reserve(amount)
    }

    fn write_bytes(&mut self, data: &[u8]) {
        self.out.write_bytes(data)
    }

    fn write_bytes_at(&mut self, index: usize, data: &[u8]) {
        self.out.write_bytes_at(index, data)
    }

    fn align_to(&mut self, i: usize) {
        self.out.align_to(i)
    }
}

impl CoffWriter {
    /// A writer with room for the headers and nothing behind them.
    pub fn new(target: TargetType) -> (r: Self)
        ensures
            r.wf(),
            r@ == zeros(60),
            r.relocations == 0,
            r.relocation_start == 0,
            r.target == target,
    {
        Self {
            out: Buffer::new(HEADER_SIZE),
            relocations: 0,
            data_start: HEADER_SIZE,
            relocation_start: 0,
            target,
        }
    }

    /// Appends a directory with room for `entries` entries.
    pub fn write_directory(&mut self, entries: u16) -> (r: CoffDirectoryWriter)
        requires
            old(self).wf(),
        ensures
            final(self).wf(),
            final(self)@ == old(self)@ + dir_header(entries) + zeros(8 * entries as nat),
            final(self)@.len() == old(self)@.len() + 16 + 8 * entries,
            final(self).relocations == old(self).relocations,
            final(self).relocation_start == old(self).relocation_start,
            final(self).target == old(self).target,
            r.current_index == old(self)@.len() + 16,
            r.final_index == final(self)@.len(),
            r.wf(final(self)),
    {
        CoffDirectoryWriter::allocate(self, entries)
    }

    /// Appends a relocation record for the place `address` of the section,
    /// against the symbol of the section.
    pub fn write_relocation(&mut self, address: u32, ty: RelocationType)
        requires
            old(self).wf(),
            old(self).relocations < 0xFFFF,
        ensures
            final(self).wf(),
            final(self)@ == old(self)@ + le32(address) + le32(0) + le16(
                ty.spec_id(old(self).target),
            ),
            final(self).relocations == old(self).relocations + 1,
            final(self).relocation_start == old(self).relocation_start,
            final(self).target == old(self).target,
    {
        let ghost s0 = self.state();
        proof {
            s0.lemma_wrote_at_end(le32(address));
            s0.lemma_appended_wrote(le32(address), le32(0));
            s0.lemma_appended_wrote(
                le32(address) + le32(0),
                le16(ty.spec_id(self.target)),
            );
            lemma_concat_assoc(self@, le32(address), le32(0));
            lemma_concat_assoc(self@, le32(address) + le32(0), le16(ty.spec_id(self.target)));
        }
        self.relocations += 1;
        self.out.write_u32(address);
        self.out.write_u32(0);
        self.out.write_u16(ty.id(self.target));
    }

    /// Marks the end of the section: what follows are relocation records.
    pub fn start_relocations(&mut self)
        ensures
            final(self).out == old(self).out,
            final(self).relocations == old(self).relocations,
            final(self).data_start == old(self).data_start,
            final(self).relocation_start == old(self)@.len(),
            final(self).target == old(self).target,
    {
        self.relocation_start = self.out.data.len();
    }
}

impl CoffWriter {
    /// Whether the object can be finished: the end of the section is
    /// marked behind the headers, and the offset of the symbol table fits 32 bits.
    pub open spec fn finishable(&self) -> bool {
        &&& self.wf()
        &&& HEADER_SIZE <= self.relocation_start <= self@.len()
        &&& self@.len() <= u32::MAX
    }

    /// Appends the symbol table and the string table and fills in the
    /// headers, with the time of the system clock in the file header.
    pub fn finish(self) -> (r: Vec<u8>)
        requires
            self.finishable(),
        ensures
            exists|timestamp: u32|
                r@ == object_image(
                    self.target,
                    timestamp,
                    self@,
                    self.relocation_start as nat,
                    self.relocations,
                ),
    {
        let timestamp = current_timestamp();
        self.finish_at(timestamp)
    }

    /// Appends the symbol table and the string table and fills in the
    /// headers, with `timestamp` in the file header.
    #[verifier::rlimit(40)]
    pub fn finish_at(self, timestamp: u32) -> (r: Vec<u8>)
        requires
            self.finishable(),
        ensures
            r@ == object_image(
                self.target,
                timestamp,
                self@,
                self.relocation_start as nat,
                self.relocations,
            ),
    {
        let mut object = self;
        let ghost written = self@;
        let target = object.target;
        let relocations = object.relocations;
        let pointer_to_symbol_table = object.out.pos();
        let relocation_start = object.relocation_start;
        let data_size = relocation_start - object.data_start;
        let ghost s0 = object.out.state();
        let ghost size = data_size as u32;

        // The symbol of the section and its auxiliary record.
        let name: [u8; 8] = [46, 114, 115, 114, 99, 0, 0, 0];
        let ghost x = name@;
        proof {
            assert(name@ =~= section_name());
            s0.lemma_wrote_at_end(x);
            s0.lemma_appended_wrote(x, le32(0));
            s0.lemma_appended_wrote(x + le32(0), le16(1));
            s0.lemma_appended_wrote(x + le32(0) + le16(1), le16(0));
            s0.lemma_appended_wrote(x + le32(0) + le16(1) + le16(0), seq![IMAGE_SYM_CLASS_STATIC]);
            s0.lemma_appended_wrote(
                x + le32(0) + le16(1) + le16(0) + seq![IMAGE_SYM_CLASS_STATIC],
                seq![1u8],
            );
        }
        object.out.write_bytes(name.as_slice());  // name
        object.out.write_u32(0);  // address
        object.out.write_u16(1);  // section number (1-based)
        object.out.write_u16(0);  // type
        object.out.write_u8(IMAGE_SYM_CLASS_STATIC);  // class
        object.out.write_u8(1);  // aux symbols
        let ghost symbol = symbol_bytes(
            SymbolView::Section { name: section_name(), section_number: 1 },
        );
        assert(object.out.state() == s0.appended(symbol));
        proof {
            s0.lemma_appended_wrote(symbol, le32(size));
            s0.lemma_appended_wrote(symbol + le32(size), le16(relocations));
            s0.lemma_appended_wrote(symbol + le32(size) + le16(relocations), le16(0));
            s0.lemma_appended_skipped(symbol + le32(size) + le16(relocations) + le16(0), 10);
            lemma_symbols_joined(symbol, size, relocations);
            s0.lemma_appended_skipped(section_symbols(size, relocations), 4);
        }
        object.out.write_u32(data_size as u32);
        object.out.write_u16(relocations);
        object.out.write_u16(0);
        object.out.reserve(10);

        // The empty string table.
        object.out.reserve(4);
        let ghost tail = section_symbols(size, relocations) + zeros(4);
        assert(object.out.state() == s0.appended(tail));

        let ghost s1 = object.out.state();
        let ghost head = file_header(target, timestamp, pointer_to_symbol_table as u32);
        let ghost section = section_header(
            section_name(),
            size,
            60,
            relocation_start as u32,
            relocations,
        );
        proof {
            lemma_headers_filled(written, tail, head + section);
        }
        write_headers(
            &mut object.out,
            target,
            timestamp,
            pointer_to_symbol_table as u32,
            data_size as u32,
            relocation_start as u32,
            relocations,
        );
        object.out.data
    }
}

/// Fills the first sixty bytes of `out` with the file header and the section header.
fn write_headers(
    out: &mut Buffer,
    target: TargetType,
    timestamp: u32,
    symbols_pointer: u32,
    size: u32,
    relocation_start: u32,
    relocations: u16,
)
    requires
        old(out).wf(),
        old(out)@.len() >= 60,
    ensures
        final(out)@ == placed(
            old(out)@,
            0,
            file_header(target, timestamp, symbols_pointer) + section_header(
                section_name(),
                size,
                60,
                relocation_start,
                relocations,
            ),
        ),
{
    let ghost s0 = out.state();
    let name: [u8; 8] = [46, 114, 115, 114, 99, 0, 0, 0];
    let ghost x = le16(target.spec_id());
    proof {
        assert(name@ =~= section_name());
        s0.lemma_patched_twice(0, x, le16(1));
        s0.lemma_patched_twice(0, x + le16(1), le32(timestamp));
        s0.lemma_patched_twice(0, x + le16(1) + le32(timestamp), le32(symbols_pointer));
        s0.lemma_patched_twice(
            0,
            x + le16(1) + le32(timestamp) + le32(symbols_pointer),
            le32(2),
        );
        s0.lemma_patched_twice(
            0,
            x + le16(1) + le32(timestamp) + le32(symbols_pointer) + le32(2),
            le16(0),
        );
        s0.lemma_patched_twice(
            0,
            x + le16(1) + le32(timestamp) + le32(symbols_pointer) + le32(2) + le16(0),
            le16(IMAGE_FILE_32BIT_MACHINE),
        );
    }
    let mut h = ScopedSlice::new(out, 0, HEADER_SIZE);
    h.write_u16(target.id());
    h.write_u16(1);  // number of sections
    h.write_u32(timestamp);
    h.write_u32(symbols_pointer);
    h.write_u32(2);  // number of symbol table entries
    h.write_u16(0);  // optional header size
    h.write_u16(IMAGE_FILE_32BIT_MACHINE);  // characteristics
    let ghost f = file_header(target, timestamp, symbols_pointer);
    assert(h.inner.state() == s0.patched(0, f));
    proof {
        s0.lemma_patched_twice(0, f, name@);
        s0.lemma_patched_twice(0, f + name@, le32(0));
        s0.lemma_patched_twice(0, f + name@ + le32(0), le32(0));
        s0.lemma_patched_twice(0, f + name@ + le32(0) + le32(0), le32(size));
        s0.lemma_patched_twice(0, f + name@ + le32(0) + le32(0) + le32(size), le32(60));
        s0.lemma_patched_twice(
            0,
            f + name@ + le32(0) + le32(0) + le32(size) + le32(60),
            le32(relocation_start),
        );
        s0.lemma_patched_twice(
            0,
            f + name@ + le32(0) + le32(0) + le32(size) + le32(60) + le32(relocation_start),
            le32(0),
        );
        s0.lemma_patched_twice(
            0,
            f + name@ + le32(0) + le32(0) + le32(size) + le32(60) + le32(relocation_start) + le32(
                0,
            ),
            le16(relocations),
        );
        s0.lemma_patched_twice(
            0,
            f + name@ + le32(0) + le32(0) + le32(size) + le32(60) + le32(relocation_start) + le32(
                0,
            ) + le16(relocations),
            le16(0),
        );
        s0.lemma_patched_twice(
            0,
            f + name@ + le32(0) + le32(0) + le32(size) + le32(60) + le32(relocation_start) + le32(
                0,
            ) + le16(relocations) + le16(0),
            le32(SECTION_CHARACTERISTICS),
        );
        lemma_section_header_joined(f, name@, size, relocation_start, relocations);
    }
    h.write_bytes(name.as_slice());
    h.write_u32(0);  // physical address
    h.write_u32(0);  // virtual address
    h.write_u32(size);
    h.write_u32(60);  // pointer to raw data
    h.write_u32(relocation_start);  // pointer to relocations
    h.write_u32(0);  // pointer to line numbers
    h.write_u16(relocations);
    h.write_u16(0);  // number of line numbers
    h.write_u32(SECTION_CHARACTERISTICS);
    h.finish();
}

proof fn lemma_section_header_joined(
    f: Seq<u8>,
    name: Seq<u8>,
    size: u32,
    relocation_start: u32,
    relocations: u16,
)
    ensures
        f + name + le32(0) + le32(0) + le32(size) + le32(60) + le32(relocation_start) + le32(0)
            + le16(relocations) + le16(0) + le32(SECTION_CHARACTERISTICS) == f + section_header(
            name,
            size,
            60,
            relocation_start,
            relocations,
        ),
{
    assert(f + name + le32(0) + le32(0) + le32(size) + le32(60) + le32(relocation_start) + le32(0)
        + le16(relocations) + le16(0) + le32(SECTION_CHARACTERISTICS) =~= f + section_header(
        name,
        size,
        60,
        relocation_start,
        relocations,
    ));
}

proof fn lemma_symbols_joined(symbol: Seq<u8>, size: u32, relocations: u16)
    requires
        symbol == symbol_bytes(SymbolView::Section { name: section_name(), section_number: 1 }),
    ensures
        symbol + le32(size) + le16(relocations) + le16(0) + zeros(10) == section_symbols(
            size,
            relocations,
        ),
{
    assert(symbol + le32(size) + le16(relocations) + le16(0) + zeros(10) =~= section_symbols(
        size,
        relocations,
    ));
}

/// Headers laid over the first bytes of what was written, with a tail behind it.
proof fn lemma_headers_filled(written: Seq<u8>, tail: Seq<u8>, headers: Seq<u8>)
    requires
        written.len() >= 60,
        headers.len() == 60,
    ensures
        placed(written + tail, 0, headers) == headers + written.skip(60) + tail,
{
    lemma_placed_inside(Seq::empty(), written.take(60), written.skip(60) + tail, headers);
    assert(Seq::<u8>::empty() + written.take(60) + (written.skip(60) + tail) =~= written + tail);
    assert(Seq::<u8>::empty() + headers + (written.skip(60) + tail) =~= headers + written.skip(60)
        + tail);
}

/// Fills in the entries of a directory, one after the other.
pub struct CoffDirectoryWriter {
    /// Where the next entry goes.
    pub current_index: usize,
    /// Where the entries end.
    pub final_index: usize,
}

impl CoffDirectoryWriter {
    /// The size of a directory entry.
    pub const ENTRY_SIZE: usize = 8;

    /// Whether the entries lie in what `cw` has written, and a whole number of them is open.
    pub open spec fn wf(&self, cw: &CoffWriter) -> bool {
        &&& self.current_index <= self.final_index <= cw@.len()
        &&& (self.final_index - self.current_index) % 8 == 0
    }

    /// Whether every entry is filled in.
    pub open spec fn complete(&self) -> bool {
        self.current_index == self.final_index
    }

    fn allocate(cw: &mut CoffWriter, entries: u16) -> (r: Self)
        requires
            old(cw).wf(),
        ensures
            final(cw).wf(),
            final(cw)@ == old(cw)@ + dir_header(entries) + zeros(8 * entries as nat),
            final(cw).relocations == old(cw).relocations,
            final(cw).relocation_start == old(cw).relocation_start,
            final(cw).target == old(cw).target,
            r.current_index == old(cw)@.len() + 16,
            r.final_index == final(cw)@.len(),
            r.wf(final(cw)),
    {
        let ghost s0 = cw.state();
        proof {
            s0.lemma_wrote_at_end(le32(0));
            s0.lemma_appended_wrote(le32(0), le32(0));
            s0.lemma_appended_wrote(le32(0) + le32(0), le16(0));
            s0.lemma_appended_wrote(le32(0) + le32(0) + le16(0), le16(0));
            s0.lemma_appended_wrote(le32(0) + le32(0) + le16(0) + le16(0), le16(0));
            s0.lemma_appended_wrote(le32(0) + le32(0) + le16(0) + le16(0) + le16(0), le16(entries));
            s0.lemma_appended_skipped(dir_header(entries), 8 * entries as nat);
            lemma_concat_assoc(cw@, dir_header(entries), zeros(8 * entries as nat));
        }
        cw.out.write_u32(0);  // Characteristics
        cw.out.write_u32(0);  // TimeDateStamp
        cw.out.write_u16(0);  // MajorVersion
        cw.out.write_u16(0);  // MinorVersion
        cw.out.write_u16(0);  // NumberOfNamedEntries
        cw.out.write_u16(entries);  // NumberOfIdEntries
        let current = cw.out.pos();
        cw.out.reserve(entries as usize * Self::ENTRY_SIZE);
        Self { current_index: current, final_index: cw.out.pos() }
    }

    /// Fills in the next entry: it stands for what `cw` lays down next, a
    /// data entry where `leaf` holds and else a directory.
    fn write_entry(&mut self, cw: &mut CoffWriter, id: u32, leaf: bool)
        requires
            old(cw).wf(),
            old(self).wf(old(cw)),
            !old(self).complete(),
            old(cw)@.len() - HEADER_SIZE < 0x8000_0000,
        ensures
            final(cw).wf(),
            final(self).wf(final(cw)),
            final(self).current_index == old(self).current_index + 8,
            final(self).final_index == old(self).final_index,
            final(cw)@ == placed(
                old(cw)@,
                old(self).current_index as nat,
                dir_entry(id, entry_target((old(cw)@.len() - HEADER_SIZE) as nat, leaf)),
            ),
            final(cw)@.len() == old(cw)@.len(),
            final(cw).relocations == old(cw).relocations,
            final(cw).relocation_start == old(cw).relocation_start,
            final(cw).target == old(cw).target,
    {
        let ghost s0 = cw.state();
        let offset = cw.pos() - HEADER_SIZE;
        let low = offset as u32;
        let target = if leaf {
            low
        } else {
            assert(low | 0x8000_0000u32 == low + 0x8000_0000u32) by (bit_vector)
                requires
                    low < 0x8000_0000u32,
            ;
            low | 0x8000_0000u32
        };
        proof {
            s0.lemma_patched_twice(self.current_index as nat, le32(id), le32(target));
            reveal(placed);
        }
        let mut slice = ScopedSlice::new(&mut cw.out, self.current_index, Self::ENTRY_SIZE);
        slice.write_u32(id);
        slice.write_u32(target);
        slice.finish();
        self.current_index += Self::ENTRY_SIZE;
    }

    /// Fills in the next entry with a directory of `entries` entries, which is appended.
    pub fn subdirectory(&mut self, cw: &mut CoffWriter, id: u32, entries: u16) -> (r:
        CoffDirectoryWriter)
        requires
            old(cw).wf(),
            old(self).wf(old(cw)),
            !old(self).complete(),
            old(cw)@.len() - HEADER_SIZE < 0x8000_0000,
        ensures
            final(cw).wf(),
            final(self).wf(final(cw)),
            final(self).current_index == old(self).current_index + 8,
            final(self).final_index == old(self).final_index,
            final(cw)@ == placed(
                old(cw)@,
                old(self).current_index as nat,
                dir_entry(id, subdir((old(cw)@.len() - HEADER_SIZE) as nat)),
            ) + dir_header(entries) + zeros(8 * entries as nat),
            final(cw)@.len() == old(cw)@.len() + 16 + 8 * entries,
            final(cw).relocations == old(cw).relocations,
            final(cw).relocation_start == old(cw).relocation_start,
            final(cw).target == old(cw).target,
            r.current_index == old(cw)@.len() + 16,
            r.final_index == final(cw)@.len(),
            r.wf(final(cw)),
    {
        self.write_entry(cw, id, false);
        Self::allocate(cw, entries)
    }

    /// Fills in the next entry with a data entry, for which room is appended.
    pub fn data_entry(&mut self, cw: &mut CoffWriter, id: u32) -> (r: CoffDataEntry)
        requires
            old(cw).wf(),
            old(self).wf(old(cw)),
            !old(self).complete(),
            old(cw)@.len() - HEADER_SIZE < 0x8000_0000,
        ensures
            final(cw).wf(),
            final(self).wf(final(cw)),
            final(self).current_index == old(self).current_index + 8,
            final(self).final_index == old(self).final_index,
            final(cw)@ == placed(
                old(cw)@,
                old(self).current_index as nat,
                dir_entry(id, (old(cw)@.len() - HEADER_SIZE) as u32),
            ) + zeros(16),
            final(cw)@.len() == old(cw)@.len() + 16,
            final(cw).relocations == old(cw).relocations,
            final(cw).relocation_start == old(cw).relocation_start,
            final(cw).target == old(cw).target,
            r.index == old(cw)@.len(),
            !r.written,
    {
        self.write_entry(cw, id, true);
        CoffDataEntry::allocate(cw)
    }

    /// Closes the directory, every entry of which must be filled in.
    pub fn finish(self)
        requires
            self.complete(),
    {
    }
}

/// The target of a directory entry for what lies at `offset`: the offset
/// itself for a data entry, and with the high bit set for a directory.
pub open spec fn entry_target(offset: nat, leaf: bool) -> u32 {
    if leaf {
        offset as u32
    } else {
        subdir(offset)
    }
}

/// Room for a data entry, to be filled in when the payload is written.
pub struct CoffDataEntry {
    /// Where the data entry lies.
    pub index: usize,
    /// Whether the payload is written.
    pub written: bool,
}

impl CoffDataEntry {
    /// The size of a data entry.
    pub const ENTRY_SIZE: usize = 16;

    fn allocate(cw: &mut CoffWriter) -> (r: Self)
        requires
            old(cw).wf(),
        ensures
            final(cw).wf(),
            final(cw)@ == old(cw)@ + zeros(16),
            final(cw).relocations == old(cw).relocations,
            final(cw).relocation_start == old(cw).relocation_start,
            final(cw).target == old(cw).target,
            r.index == old(cw)@.len(),
            !r.written,
    {
        proof {
            cw.state().lemma_skipped_at_end(16);
        }
        let current = cw.out.pos();
        cw.out.reserve(Self::ENTRY_SIZE);
        Self { index: current, written: false }
    }

    /// Appends the payload, at a multiple of eight bytes from the start of
    /// the section and padded to one, and fills in the data entry: the
    /// address, which the linker fills in, stays zero, and the size is that
    /// of the payload.
    pub fn write_data<B: BinaryWritable + ?Sized>(&mut self, coff: &mut CoffWriter, data: &B)
        requires
            old(coff).wf(),
            old(self).index >= HEADER_SIZE,
            old(self).index + 16 <= old(coff)@.len(),
            data.writable(),
            data.payload().len() <= u32::MAX,
        ensures
            final(coff).wf(),
            final(self).index == old(self).index,
            final(self).written,
            final(coff)@ == placed(
                old(coff)@ + payload_block((old(coff)@.len() - HEADER_SIZE) as nat, data.payload()),
                old(self).index as nat,
                data_entry(data.payload().len() as u32),
            ),
            final(coff)@.len() == old(coff)@.len() + payload_block(
                (old(coff)@.len() - HEADER_SIZE) as nat,
                data.payload(),
            ).len(),
            final(coff)@.subrange(old(self).index as int, old(self).index + 16) == data_entry(
                data.payload().len() as u32,
            ),
            final(coff)@.subrange(
                payload_start(old(coff)@.len()) as int,
                (payload_start(old(coff)@.len()) + data.payload().len()) as int,
            ) == data.payload(),
            (payload_start(old(coff)@.len()) - HEADER_SIZE) % 8 == 0,
            payload_start(old(coff)@.len()) - old(coff)@.len() < 8,
            (final(coff)@.len() - HEADER_SIZE) % 8 == 0,
            final(coff).relocations == old(coff).relocations,
            final(coff).relocation_start == old(coff).relocation_start,
            final(coff).target == old(coff).target,
    {
        let ghost s0 = coff.state();
        let ghost base = (coff@.len() - HEADER_SIZE) as nat;
        let ghost payload = data.payload();
        let ghost pad0 = padding(base, 8);
        proof {
            lemma_pad_len(base, 8);
            lemma_pad_len(base + pad0.len() + payload.len(), 8);
            s0.lemma_skipped_at_end(pad0.len());
            s0.lemma_appended_at_end(pad0);
            s0.lemma_appended_twice(pad0, payload);
            s0.lemma_appended_at_end(pad0 + payload);
            s0.lemma_appended_skipped(
                pad0 + payload,
                pad_len(base + pad0.len() + payload.len(), 8),
            );
        }
        coff.out.align_to(8);
        let start = coff.out.pos();
        data.write_to(&mut coff.out);
        let length = coff.out.pos() - start;
        coff.out.align_to(8);
        let ghost s1 = coff.state();
        proof {
            let at = self.index as nat;
            s1.lemma_patched_twice(at, le32(0), le32(length as u32));
            s1.lemma_patched_twice(at, le32(0) + le32(length as u32), le32(0));
            s1.lemma_patched_twice(at, le32(0) + le32(length as u32) + le32(0), le32(0));
            assert(s1.content == old(coff)@ + payload_block(base, payload));
            lemma_payload_block(base, payload);
            lemma_entry_and_payload(
                old(coff)@,
                payload_block(base, payload),
                self.index as nat,
                data_entry(length as u32),
                pad0.len(),
                payload,
            );
        }
        let mut slice = ScopedSlice::new(&mut coff.out, self.index, Self::ENTRY_SIZE);
        slice.write_u32(0);  // OffsetToData, for the linker
        slice.write_u32(length as u32);  // Size
        slice.write_u32(0);  // CodePage
        slice.write_u32(0);  // Reserved
        slice.finish();
        self.written = true;
    }

    /// Appends the relocation record for the address in the data entry.
    pub fn write_relocation(&self, coff: &mut CoffWriter)
        requires
            old(coff).wf(),
            old(coff).relocations < 0xFFFF,
            HEADER_SIZE <= self.index <= u32::MAX,
        ensures
            final(coff).wf(),
            final(coff)@ == old(coff)@ + le32((self.index - HEADER_SIZE) as u32) + le32(0) + le16(
                RelocationType::Rva32.spec_id(old(coff).target),
            ),
            final(coff).relocations == old(coff).relocations + 1,
            final(coff).relocation_start == old(coff).relocation_start,
            final(coff).target == old(coff).target,
    {
        coff.write_relocation((self.index - coff.data_start) as u32, RelocationType::Rva32)
    }

    /// Closes the data entry, whose payload must be written.
    pub fn finish(self)
        requires
            self.written,
    {
    }
}

/// Where the payload goes that is written behind `len` bytes: at the next
/// multiple of eight bytes from the start of the section.
pub open spec fn payload_start(len: nat) -> nat {
    len + pad_len((len - HEADER_SIZE) as nat, 8)
}

/// With a block appended and an entry before it filled in, the entry
/// holds what was filled in and the payload lies in the block as it was.
proof fn lemma_entry_and_payload(
    before: Seq<u8>,
    block: Seq<u8>,
    index: nat,
    entry: Seq<u8>,
    pad: nat,
    payload: Seq<u8>,
)
    requires
        index + entry.len() <= before.len(),
        pad + payload.len() <= block.len(),
        block.subrange(pad as int, (pad + payload.len()) as int) == payload,
    ensures
        placed(before + block, index, entry).len() == before.len() + block.len(),
        placed(before + block, index, entry).subrange(index as int, (index + entry.len()) as int)
            == entry,
        placed(before + block, index, entry).subrange(
            (before.len() + pad) as int,
            (before.len() + pad + payload.len()) as int,
        ) == payload,
{
    reveal(placed);
    let r = placed(before + block, index, entry);
    assert(r.subrange(index as int, (index + entry.len()) as int) =~= entry);
    assert(r.subrange((before.len() + pad) as int, (before.len() + pad + payload.len()) as int)
        =~= block.subrange(pad as int, (pad + payload.len()) as int));
}

/// A payload lies in its block at a multiple of eight bytes from the start
/// of the section, behind fewer than eight bytes of padding, and the block
/// ends at a multiple of eight.
pub proof fn lemma_payload_block(base: nat, payload: Seq<u8>)
    ensures
        pad_len(base, 8) < 8,
        (base + pad_len(base, 8)) % 8 == 0,
        payload_block(base, payload).len() == pad_len(base, 8) + payload.len() + pad_len(
            base + pad_len(base, 8) + payload.len(),
            8,
        ),
        (base + payload_block(base, payload).len()) % 8 == 0,
        payload_block(base, payload).subrange(
            pad_len(base, 8) as int,
            (pad_len(base, 8) + payload.len()) as int,
        ) == payload,
{
    lemma_pad_len(base, 8);
    lemma_pad_len(base + pad_len(base, 8) + payload.len(), 8);
    assert(payload_block(base, payload).subrange(
        pad_len(base, 8) as int,
        (pad_len(base, 8) + payload.len()) as int,
    ) =~= payload);
}

/// A payload as it lies in the section behind offset `base`: padded before
/// and behind to a multiple of eight bytes from the start of the section.
pub open spec fn payload_block(base: nat, payload: Seq<u8>) -> Seq<u8> {
    padding(base, 8) + payload + padding(base + pad_len(base, 8) + payload.len(), 8)
}

} // verus!
