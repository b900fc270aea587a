//! The `.res` stream: resource records, each behind a back-patched header.

use vstd::prelude::*;
use crate::binary::{
    BinaryWriter,
    BinaryWritable,
    WriterState,
    version_info_bytes,
    icon_group_bytes,
    lemma_icon_entries_len,
    lemma_version_info_len,
};
use crate::encoding::{
    le16,
    le32,
    zeros,
    pad_len,
    padding,
    placed,
    read16,
    read32,
    padding_for,
    overwrite,
    append_zeros,
    u32_le,
    lemma_pad_len,
    lemma_pad_len_shift,
    lemma_placed_inside,
    lemma_concat_assoc,
    lemma_le16_round_trip,
    lemma_le32_round_trip,
    lemma_read_subrange,
};
use crate::{Icon, IconGroupEntry, ResourceType, VersionInfo};

verus! {

/// A growable byte stream that frames `.res` records.
pub struct ResWriter {
    pub data: Vec<u8>,
}

impl View for ResWriter {
    type V = Seq<u8>;

    open spec fn view(&self) -> Seq<u8> {
        self.data@
    }
}

impl Default for ResWriter {
    fn default() -> (r: Self)
        ensures
            r@ == Seq::<u8>::empty(),
    {
        ResWriter { data: Vec::new() }
    }
}

impl BinaryWriter for ResWriter {
    open spec fn state(&self) -> WriterState {
        WriterState { content: self@, cursor: self@.len(), origin: 0, limit: None }
    }

    open spec fn wf(&self) -> bool {
        true
    }

    proof fn lemma_cursor_in_content(&self) {
        assert(self.data@.len() == self.data.len());
    }

    fn pos(&self) -> (p: usize) {
        self.data.len()
    }

    fn reserve(&mut self, amount: usize) {
        append_zeros(&mut self.data, amount);
    }

    fn write_bytes(&mut self, data: &[u8]) {
        self.data.extend_from_slice(data);
        proof {
            reveal(placed);
            assert(self@ =~= placed(old(self)@, old(self)@.len(), data@));
        }
    }

    fn write_bytes_at(&mut self, index: usize, data: &[u8]) {
        overwrite(&mut self.data, index, data);
    }

    fn align_to(&mut self, i: usize) {
        let pad = padding_for(self.data.len(), i);
        assert(old(self).state().offset() == self@.len());
        self.reserve(pad);
    }
}

/// The header of a record that starts at offset `pos`, with the two size
/// words as given: sizes, type and name as numeric identifiers, padding to
/// four bytes, format version, memory flags, language, data version and
/// characteristics.
pub open spec fn res_header(
    pos: nat,
    ty: ResourceType,
    name: u16,
    data_size: u32,
    header_size: u32,
) -> Seq<u8> {
    le32(data_size) + le32(header_size) + le16(0xFFFF) + le16(ty.spec_id()) + le16(0xFFFF) + le16(
        name,
    ) + padding(pos + 16, 4) + le32(0) + le16(ty.spec_flags()) + le16(ty.spec_language()) + le32(0)
        + le32(0)
}

/// The size of the header of a record that starts at offset `pos`: 32 bytes
/// where `pos` is a multiple of four.
pub open spec fn res_header_len(pos: nat) -> nat {
    32 + pad_len(pos + 16, 4)
}

/// The padding behind the payload of a record that starts at offset `pos`.
pub open spec fn res_trailer_len(pos: nat, data_size: nat) -> nat {
    pad_len(pos + res_header_len(pos) + data_size, 4)
}

/// A record that starts at offset `pos`: header, payload, padding to four bytes.
#[verifier::opaque]
pub open spec fn res_record(pos: nat, ty: ResourceType, name: u16, payload: Seq<u8>) -> Seq<u8> {
    res_header(pos, ty, name, payload.len() as u32, res_header_len(pos) as u32) + payload + zeros(
        res_trailer_len(pos, payload.len()),
    )
}

/// The header has the size that [`res_header_len`] gives, and differs from a
/// header with other size words in those words alone.
#[verifier::rlimit(40)]
pub proof fn lemma_res_header(
    pos: nat,
    ty: ResourceType,
    name: u16,
    data_size: u32,
    header_size: u32,
)
    ensures
        res_header(pos, ty, name, data_size, header_size).len() == res_header_len(pos),
        32 <= res_header_len(pos) <= 35,
        pos % 4 == 0 ==> res_header_len(pos) == 32,
        (pos + res_header_len(pos)) % 4 == 0,
        res_header(pos, ty, name, data_size, header_size) == le32(data_size) + le32(header_size)
            + res_header(pos, ty, name, 0, 0).skip(8),
        res_header(pos, ty, name, 0, 0).skip(8).len() + 8 == res_header_len(pos),
{
    lemma_pad_len(pos + 16, 4);
    lemma_pad_len_shift((pos + 16 + pad_len(pos + 16, 4)) as nat, 16, 4);
    if pos % 4 == 0 {
        lemma_pad_len_shift(pos, 16, 4);
    }
    assert(res_header(pos, ty, name, data_size, header_size) =~= le32(data_size) + le32(
        header_size,
    ) + res_header(pos, ty, name, 0, 0).skip(8));
}

proof fn lemma_patch_header_size(
    before: Seq<u8>,
    pos: nat,
    ty: ResourceType,
    name: u16,
    h: u32,
    after: Seq<u8>,
)
    ensures
        placed(before + res_header(pos, ty, name, 0, 0) + after, before.len() + 4, le32(h))
            == before + res_header(pos, ty, name, 0, h) + after,
        before.len() + 8 <= (before + res_header(pos, ty, name, 0, 0) + after).len(),
{
    let k = res_header(pos, ty, name, 0, 0).skip(8);
    lemma_res_header(pos, ty, name, 0, 0);
    lemma_res_header(pos, ty, name, 0, h);
    lemma_placed_inside(before + le32(0), le32(0), k + after, le32(h));
    assert(before + res_header(pos, ty, name, 0, 0) + after =~= before + le32(0) + le32(0) + (k
        + after));
    assert(before + res_header(pos, ty, name, 0, h) + after =~= before + le32(0) + le32(h) + (k
        + after));
}

proof fn lemma_patch_data_size(
    before: Seq<u8>,
    pos: nat,
    ty: ResourceType,
    name: u16,
    d: u32,
    h: u32,
    after: Seq<u8>,
)
    ensures
        placed(before + res_header(pos, ty, name, 0, h) + after, before.len(), le32(d)) == before
            + res_header(pos, ty, name, d, h) + after,
        before.len() + 8 <= (before + res_header(pos, ty, name, 0, h) + after).len(),
{
    let k = res_header(pos, ty, name, 0, 0).skip(8);
    lemma_res_header(pos, ty, name, 0, h);
    lemma_res_header(pos, ty, name, d, h);
    lemma_placed_inside(before, le32(0), le32(h) + k + after, le32(d));
    assert(before + res_header(pos, ty, name, 0, h) + after =~= before + le32(0) + (le32(h) + k
        + after));
    assert(before + res_header(pos, ty, name, d, h) + after =~= before + le32(d) + (le32(h) + k
        + after));
}

/// A record's first word holds the size of its payload and its second the
/// size of its header; header, payload and trailing padding make up the
/// record, so the next record starts that many bytes on.
pub proof fn lemma_res_record_lengths(pos: nat, ty: ResourceType, name: u16, payload: Seq<u8>)
    requires
        payload.len() <= u32::MAX,
    ensures
        read32(res_record(pos, ty, name, payload), 0) == payload.len(),
        read32(res_record(pos, ty, name, payload), 4) == res_header_len(pos),
        res_record(pos, ty, name, payload).len() == res_header_len(pos) + payload.len()
            + res_trailer_len(pos, payload.len()),
        res_trailer_len(pos, payload.len()) < 4,
        (pos + res_record(pos, ty, name, payload).len()) % 4 == 0,
{
    reveal(res_record);
    let d = payload.len() as u32;
    let h = res_header_len(pos) as u32;
    lemma_res_header(pos, ty, name, d, h);
    lemma_pad_len(pos + res_header_len(pos) + payload.len(), 4);
    lemma_le32_round_trip(d);
    lemma_le32_round_trip(h);
    let rec = res_record(pos, ty, name, payload);
    assert(rec[0] == le32(d)[0] && rec[1] == le32(d)[1] && rec[2] == le32(d)[2] && rec[3] == le32(
        d,
    )[3]);
    assert(rec[4] == le32(h)[0] && rec[5] == le32(h)[1] && rec[6] == le32(h)[2] && rec[7] == le32(
        h,
    )[3]);
}

/// In a record that starts at a multiple of four, the language word lies at
/// offset 22: 0x0409 for every type but the sentinel, whose language is zero.
pub proof fn lemma_res_record_language(pos: nat, ty: ResourceType, name: u16, payload: Seq<u8>)
    requires
        pos % 4 == 0,
    ensures
        res_record(pos, ty, name, payload).len() >= 32,
        read16(res_record(pos, ty, name, payload), 22) == if ty == ResourceType::Sentinel {
            0x0000int
        } else {
            0x0409int
        },
{
    reveal(res_record);
    let d = payload.len() as u32;
    let h = res_header_len(pos) as u32;
    lemma_res_header(pos, ty, name, d, h);
    lemma_pad_len_shift(pos, 16, 4);
    let rec = res_record(pos, ty, name, payload);
    let l = le16(ty.spec_language());
    assert(padding(pos + 16, 4) =~= Seq::<u8>::empty());
    assert(rec[22] == l[0] && rec[23] == l[1]);
    lemma_le16_round_trip(ty.spec_language());
}

impl ResWriter {
    /// Pads to a multiple of four bytes.
    pub fn realign(&mut self)
        ensures
            final(self)@ == old(self)@ + padding(old(self)@.len(), 4),
    {
        proof {
            self.state().lemma_skipped_at_end(pad_len(self@.len(), 4));
        }
        self.align_to(4)
    }

    /// Writes a zero word and returns its offset, to be patched later.
    pub fn reserve_u32(&mut self) -> (at: usize)
        ensures
            at == old(self)@.len(),
            final(self)@ == old(self)@ + le32(0),
    {
        proof {
            self.state().lemma_wrote_at_end(le32(0));
        }
        let pos = self.pos();
        self.write_u32(0);
        pos
    }

    /// Patches the word at offset `location`.
    pub fn update_u32(&mut self, location: usize, v: u32)
        requires
            location + 4 <= old(self)@.len(),
        ensures
            final(self)@ == placed(old(self)@, location as nat, le32(v)),
    {
        let b = u32_le(v);
        self.write_bytes_at(location, b.as_slice())
    }

    /// Writes a numeric identifier: the marker 0xFFFF, then the number.
    pub fn write_ident(&mut self, id: u16)
        ensures
            final(self)@ == old(self)@ + le16(0xFFFF) + le16(id),
    {
        proof {
            self.state().lemma_wrote_at_end(le16(0xFFFF));
            self.state().lemma_appended_wrote(le16(0xFFFF), le16(id));
            lemma_concat_assoc(self@, le16(0xFFFF), le16(id));
        }
        self.write_u16(0xffff);
        self.write_u16(id);
    }

    /// Writes the header of a record with both size words zero.
    fn begin_resource(&mut self, ty: ResourceType, name: u16) -> (header_start: usize)
        ensures
            header_start == old(self)@.len(),
            final(self)@ == old(self)@ + res_header(old(self)@.len(), ty, name, 0, 0),
    {
        let ghost s0 = self.state();
        let ghost pos = self@.len();
        let ghost x = Seq::<u8>::empty();
        let header_start = self.pos();
        let data_size_loc = self.reserve_u32();
        let header_size_loc = self.reserve_u32();
        self.write_ident(ty.id());
        self.write_ident(name);
        proof {
            lemma_pad_len_shift(0, pos + 16, 4);
        }
        self.realign();
        proof {
            x = le32(0) + le32(0) + le16(0xFFFF) + le16(ty.spec_id()) + le16(0xFFFF) + le16(name)
                + padding(pos + 16, 4);
            assert(self@ =~= s0.content + x);
            s0.lemma_appended_wrote(x, le32(0));
            s0.lemma_appended_wrote(x + le32(0), le16(ty.spec_flags()));
            s0.lemma_appended_wrote(
                x + le32(0) + le16(ty.spec_flags()),
                le16(ty.spec_language()),
            );
            s0.lemma_appended_wrote(
                x + le32(0) + le16(ty.spec_flags()) + le16(ty.spec_language()),
                le32(0),
            );
            s0.lemma_appended_wrote(
                x + le32(0) + le16(ty.spec_flags()) + le16(ty.spec_language()) + le32(0),
                le32(0),
            );
        }
        self.write_u32(0);  // format version
        self.write_u16(ty.flags());
        self.write_u16(ty.language());
        self.write_u32(0);  // data version
        self.write_u32(0);  // characteristics
        header_start
    }

    /// Appends one record: [`res_record`] at the current offset. The stream
    /// then ends at a multiple of four bytes.
    pub fn write_resource<B: BinaryWritable + ?Sized>(
        &mut self,
        ty: ResourceType,
        name: u16,
        data: &B,
    )
        requires
            data.writable(),
            data.payload().len() <= u32::MAX,
        ensures
            final(self)@ == old(self)@ + res_record(old(self)@.len(), ty, name, data.payload()),
            final(self)@.len() % 4 == 0,
    {
        let ghost s0 = self.state();
        let ghost pos = self@.len();
        let ghost before = self@;
        let ghost payload = data.payload();
        let ghost h = res_header_len(pos) as u32;
        let ghost d = payload.len() as u32;
        proof {
            lemma_res_record_lengths(pos, ty, name, payload);
            reveal(res_record);
            lemma_res_header(pos, ty, name, 0, 0);
            lemma_res_header(pos, ty, name, 0, h);
            lemma_res_header(pos, ty, name, d, h);
        }
        let header_start = self.begin_resource(ty, name);
        let header_len = self.pos() - header_start;
        proof {
            lemma_patch_header_size(before, pos, ty, name, h, Seq::empty());
            assert(before + res_header(pos, ty, name, 0, 0) + Seq::<u8>::empty() =~= before
                + res_header(pos, ty, name, 0, 0));
            assert(before + res_header(pos, ty, name, 0, h) + Seq::<u8>::empty() =~= before
                + res_header(pos, ty, name, 0, h));
        }
        self.update_u32(header_start + 4, header_len as u32);
        let data_start = self.pos();
        proof {
            s0.lemma_appended_twice(res_header(pos, ty, name, 0, h), payload);
            s0.lemma_appended_at_end(res_header(pos, ty, name, 0, h));
        }
        data.write_to(self);
        let data_len = self.pos() - data_start;
        proof {
            lemma_concat_assoc(before, res_header(pos, ty, name, 0, h), payload);
            lemma_patch_data_size(before, pos, ty, name, d, h, payload);
        }
        self.update_u32(header_start, data_len as u32);
        self.realign();
        proof {
            lemma_pad_len_shift(0, pos + res_header_len(pos) + payload.len(), 4);
            lemma_concat_assoc(
                before,
                res_header(pos, ty, name, d, h) + payload,
                zeros(res_trailer_len(pos, payload.len())),
            );
            lemma_concat_assoc(before, res_header(pos, ty, name, d, h), payload);
        }
    }

    /// Appends the empty record that opens a stream.
    pub fn write_empty(&mut self)
        ensures
            final(self)@ == old(self)@ + res_record(
                old(self)@.len(),
                ResourceType::Sentinel,
                0,
                Seq::empty(),
            ),
    {
        self.write_resource(ResourceType::Sentinel, 0, &())
    }

    /// Appends the version resource, whose name is 1.
    pub fn write_version(&mut self, info: &VersionInfo)
        requires
            info.writable(),
        ensures
            final(self)@ == old(self)@ + res_record(
                old(self)@.len(),
                ResourceType::Version,
                1,
                version_info_bytes(info@),
            ),
    {
        proof {
            lemma_version_info_len(info@);
        }
        self.write_resource(ResourceType::Version, 1, info)
    }

    /// Appends an icon group.
    pub fn write_icon_group(&mut self, id: u16, entries: &[IconGroupEntry])
        requires
            entries.writable(),
        ensures
            final(self)@ == old(self)@ + res_record(
                old(self)@.len(),
                ResourceType::IconGroup,
                id,
                icon_group_bytes(entries@),
            ),
    {
        proof {
            lemma_icon_entries_len(entries@);
        }
        self.write_resource(ResourceType::IconGroup, id, entries)
    }

    /// Appends an icon.
    pub fn write_icon(&mut self, id: u16, icon: &Icon)
        requires
            icon@.len() <= u32::MAX,
        ensures
            final(self)@ == old(self)@ + res_record(
                old(self)@.len(),
                ResourceType::Icon,
                id,
                icon@,
            ),
    {
        self.write_resource(ResourceType::Icon, id, icon)
    }

    /// The stream written so far.
    pub fn finish(self) -> (r: Vec<u8>)
        ensures
            r@ == self@,
    {
        self.data
    }
}

/// One resource of a stream: type, numeric name, payload.
pub struct ResRecord {
    pub ty: ResourceType,
    pub name: u16,
    pub payload: Seq<u8>,
}

/// The stream that holds `records` in their order.
pub open spec fn res_stream(records: Seq<ResRecord>) -> Seq<u8>
    decreases records.len(),
{
    if records.len() == 0 {
        Seq::empty()
    } else {
        let before = res_stream(records.drop_last());
        let r = records.last();
        before + res_record(before.len(), r.ty, r.name, r.payload)
    }
}

/// The offset at which record `i` of a stream starts; with `i` the number
/// of records, the length of the stream.
pub open spec fn record_start(records: Seq<ResRecord>, i: int) -> nat {
    res_stream(records.take(i)).len()
}

/// Whether every payload fits the 32-bit size word.
pub open spec fn payloads_fit(records: Seq<ResRecord>) -> bool {
    forall|i: int| 0 <= i < records.len() ==> (#[trigger] records[i]).payload.len() <= u32::MAX
}

/// Every record of a stream, and the end of the stream, lies at a multiple
/// of four bytes.
pub proof fn lemma_record_start_aligned(records: Seq<ResRecord>, i: int)
    requires
        0 <= i <= records.len(),
        payloads_fit(records),
    ensures
        record_start(records, i) % 4 == 0,
    decreases i,
{
    if i > 0 {
        let head = records.take(i);
        assert(head.drop_last() =~= records.take(i - 1));
        lemma_record_start_aligned(records, i - 1);
        let r = head.last();
        assert(r == records[i - 1]);
        lemma_res_record_lengths(record_start(records, i - 1), r.ty, r.name, r.payload);
    } else {
        assert(records.take(0) =~= Seq::<ResRecord>::empty());
    }
}

/// Record `i` of a stream lies in it as it was written: from its start to
/// the start of the next, the stream holds [`res_record`] of the record.
pub proof fn lemma_record_in_stream(records: Seq<ResRecord>, i: int)
    requires
        0 <= i < records.len(),
    ensures
        record_start(records, i) <= record_start(records, i + 1) <= res_stream(records).len(),
        res_stream(records).subrange(
            record_start(records, i) as int,
            record_start(records, i + 1) as int,
        ) == res_record(
            record_start(records, i),
            records[i].ty,
            records[i].name,
            records[i].payload,
        ),
    decreases records.len(),
{
    let before = res_stream(records.drop_last());
    let last = records.last();
    let rec = res_record(before.len(), last.ty, last.name, last.payload);
    if i == records.len() - 1 {
        assert(records.take(i) =~= records.drop_last());
        assert(records.take(i + 1) =~= records);
        assert((before + rec).subrange(before.len() as int, (before + rec).len() as int) =~= rec);
    } else {
        assert(records.drop_last().take(i) =~= records.take(i));
        assert(records.drop_last().take(i + 1) =~= records.take(i + 1));
        lemma_record_in_stream(records.drop_last(), i);
        let a = record_start(records, i) as int;
        let b = record_start(records, i + 1) as int;
        assert((before + rec).subrange(a, b) =~= before.subrange(a, b));
    }
}

/// Length self-consistency: the two size words that open record `i`, read
/// back from the stream, and the padding to four bytes add up to the distance
/// to the next record.
pub proof fn lemma_record_extent(records: Seq<ResRecord>, i: int)
    requires
        0 <= i < records.len(),
        payloads_fit(records),
    ensures
        record_start(records, i) + 8 <= res_stream(records).len(),
        read32(res_stream(records), record_start(records, i) as int) == records[i].payload.len(),
        read32(res_stream(records), (record_start(records, i) + 4) as int) == 32,
        record_start(records, i + 1) - record_start(records, i) == 32 + records[i].payload.len()
            + pad_len(records[i].payload.len(), 4),
{
    let start = record_start(records, i);
    let next = record_start(records, i + 1);
    let r = records[i];
    lemma_record_in_stream(records, i);
    lemma_record_start_aligned(records, i);
    lemma_res_record_lengths(start, r.ty, r.name, r.payload);
    lemma_res_header(start, r.ty, r.name, 0, 0);
    assert(res_header_len(start) == 32);
    assert((start + 32) % 4 == 0) by {
        lemma_pad_len_shift(start, 32, 4);
        lemma_pad_len(start + 32, 4);
        lemma_pad_len(32, 4);
    }
    lemma_pad_len_shift(start + 32, r.payload.len(), 4);
    lemma_read_subrange(res_stream(records), start as int, next as int, 0);
    lemma_read_subrange(res_stream(records), start as int, next as int, 4);
}

/// Language tag: the language word of record `i`, read back from the stream,
/// is 0x0409, and zero for the sentinel.
pub proof fn lemma_record_language(records: Seq<ResRecord>, i: int)
    requires
        0 <= i < records.len(),
        payloads_fit(records),
    ensures
        record_start(records, i) + 24 <= res_stream(records).len(),
        read16(res_stream(records), (record_start(records, i) + 22) as int) == if records[i].ty
            == ResourceType::Sentinel {
            0x0000int
        } else {
            0x0409int
        },
{
    let start = record_start(records, i);
    let next = record_start(records, i + 1);
    let r = records[i];
    lemma_record_in_stream(records, i);
    lemma_record_start_aligned(records, i);
    lemma_res_record_language(start, r.ty, r.name, r.payload);
    lemma_read_subrange(res_stream(records), start as int, next as int, 22);
}

} // verus!
