//! The byte sink behind every emitter, and the layout of each payload.

use vstd::prelude::*;
use vstd::slice::slice_to_vec;
use vstd::string::StringSliceAdditionalSpecFns;
use vstd::utf8::encode_utf8;
use crate::binary::version::{
    FieldType,
    FieldValue,
    FieldValueView,
    VersionWriter,
    field_bytes,
    field_len,
    lemma_field_bytes_len,
};
use crate::encoding::{
    le16,
    le32,
    zeros,
    pad_len,
    padding,
    placed,
    utf16,
    utf16z,
    u16_le,
    u32_le,
    utf16_units,
    padding_for,
    overwrite,
    append_zeros,
    lemma_pad_len,
    lemma_pad_len_shift,
    lemma_concat_assoc,
    lemma_le16_seq_len,
    lemma_ascii_utf16,
};
use crate::res::ResWriter;
use crate::strings::{Entries, StringTable};
use crate::{Icon, IconGroupEntry, Version, VersionInfo, VersionInfoView, flags_word};

pub mod version;

verus! {

/// What a sink holds, as plain values.
pub struct WriterState {
    /// The bytes laid down so far, continued with zero bytes up to the cursor
    /// where the cursor is ahead of them.
    pub content: Seq<u8>,
    /// The offset at which the next byte goes.
    pub cursor: nat,
    /// The offset that alignment is measured from.
    pub origin: nat,
    /// The largest value the cursor may take, where the sink has one.
    pub limit: Option<nat>,
}

impl WriterState {
    /// Whether `n` more bytes stay within the limit.
    pub open spec fn fits(self, n: nat) -> bool {
        self.limit is Some ==> self.cursor + n <= self.limit->0
    }

    /// Whether the cursor stands at the end of the content.
    pub open spec fn at_end(self) -> bool {
        self.cursor == self.content.len()
    }

    /// The cursor's distance from the origin.
    pub open spec fn offset(self) -> nat {
        (self.cursor - self.origin) as nat
    }

    /// The state after `d` was laid down at the cursor.
    pub open spec fn wrote(self, d: Seq<u8>) -> WriterState {
        WriterState {
            content: placed(self.content, self.cursor, d),
            cursor: self.cursor + d.len(),
            origin: self.origin,
            limit: self.limit,
        }
    }

    /// The state after the cursor moved `n` bytes on.
    pub open spec fn skipped(self, n: nat) -> WriterState {
        WriterState {
            content: placed(self.content, self.cursor + n, Seq::empty()),
            cursor: self.cursor + n,
            origin: self.origin,
            limit: self.limit,
        }
    }

    /// The state after the region at offset `at` was overwritten with `d`.
    pub open spec fn patched(self, at: nat, d: Seq<u8>) -> WriterState {
        WriterState {
            content: placed(self.content, at, d),
            cursor: self.cursor,
            origin: self.origin,
            limit: self.limit,
        }
    }

    /// The state with alignment measured from `origin`.
    pub open spec fn with_origin(self, origin: nat) -> WriterState {
        WriterState {
            content: self.content,
            cursor: self.cursor,
            origin,
            limit: self.limit,
        }
    }

    /// The state after `d` was appended to a sink that stood at its end.
    pub open spec fn appended(self, d: Seq<u8>) -> WriterState {
        WriterState {
            content: self.content + d,
            cursor: self.cursor + d.len(),
            origin: self.origin,
            limit: self.limit,
        }
    }
}

/// An append-or-patch byte sink with a cursor.
pub trait BinaryWriter {
    /// The sink as plain values.
    spec fn state(&self) -> WriterState;

    /// The sink's own invariant.
    spec fn wf(&self) -> bool;

    /// In a well-formed sink the cursor never runs ahead of the content,
    /// and it fits `usize`.
    proof fn lemma_cursor_in_content(&self)
        requires
            self.wf(),
        ensures
            self.state().cursor <= self.state().content.len(),
            self.state().cursor <= usize::MAX,
    ;

    /// Current offset.
    fn pos(&self) -> (p: usize)
        requires
            self.wf(),
        ensures
            p == self.state().cursor,
    ;

    /// Moves the cursor `amount` bytes on; a region that held nothing reads as zero.
    fn reserve(&mut self, amount: usize)
        requires
            old(self).wf(),
            old(self).state().fits(amount as nat),
        ensures
            final(self).wf(),
            final(self).state() == old(self).state().skipped(amount as nat),
    ;

    /// Lays `data` down at the cursor and moves the cursor behind it.
    fn write_bytes(&mut self, data: &[u8])
        requires
            old(self).wf(),
            old(self).state().fits(data@.len()),
        ensures
            final(self).wf(),
            final(self).state() == old(self).state().wrote(data@),
    ;

    /// Overwrites an earlier region; the cursor stays.
    fn write_bytes_at(&mut self, index: usize, data: &[u8])
        requires
            old(self).wf(),
            index + data@.len() <= old(self).state().cursor,
        ensures
            final(self).wf(),
            final(self).state() == old(self).state().patched(index as nat, data@),
    ;

    /// Reserves what brings the cursor to a multiple of `i`, counted from the origin.
    fn align_to(&mut self, i: usize)
        requires
            old(self).wf(),
            i > 0,
            old(self).state().origin <= old(self).state().cursor,
            old(self).state().fits(pad_len(old(self).state().offset(), i as nat)),
        ensures
            final(self).wf(),
            final(self).state() == old(self).state().skipped(
                pad_len(old(self).state().offset(), i as nat),
            ),
    ;

    fn write_u32(&mut self, v: u32)
        requires
            old(self).wf(),
            old(self).state().fits(4),
        ensures
            final(self).wf(),
            final(self).state() == old(self).state().wrote(le32(v)),
    {
        let b = u32_le(v);
        self.write_bytes(b.as_slice())
    }

    fn write_u16(&mut self, v: u16)
        requires
            old(self).wf(),
            old(self).state().fits(2),
        ensures
            final(self).wf(),
            final(self).state() == old(self).state().wrote(le16(v)),
    {
        let b = u16_le(v);
        self.write_bytes(b.as_slice())
    }

    fn write_u8(&mut self, v: u8)
        requires
            old(self).wf(),
            old(self).state().fits(1),
        ensures
            final(self).wf(),
            final(self).state() == old(self).state().wrote(seq![v]),
    {
        let b: [u8; 1] = [v];
        assert(b@ =~= seq![v]);
        self.write_bytes(b.as_slice())
    }
}

impl WriterState {
    /// At the end of the content, laying bytes down appends them.
    pub proof fn lemma_wrote_at_end(self, d: Seq<u8>)
        requires
            self.at_end(),
        ensures
            self.wrote(d) == self.appended(d),
            self.appended(d).at_end(),
    {
        reveal(placed);
        assert(placed(self.content, self.cursor, d) =~= self.content + d);
    }

    /// At the end of the content, moving the cursor on appends zero bytes.
    pub proof fn lemma_skipped_at_end(self, n: nat)
        requires
            self.at_end(),
        ensures
            self.skipped(n) == self.appended(zeros(n)),
            self.appended(zeros(n)).at_end(),
    {
        reveal(placed);
        assert(placed(self.content, self.cursor + n, Seq::empty()) =~= self.content + zeros(n));
    }

    /// Two patches, the second right behind the first, are one patch with the concatenation.
    pub proof fn lemma_patched_twice(self, at: nat, a: Seq<u8>, b: Seq<u8>)
        ensures
            self.patched(at, a).patched(at + a.len(), b) == self.patched(at, a + b),
    {
        reveal(placed);
        assert(placed(placed(self.content, at, a), at + a.len(), b) =~= placed(
            self.content,
            at,
            a + b,
        ));
    }

    /// Laying bytes down in two steps lays down the concatenation.
    pub proof fn lemma_wrote_twice(self, a: Seq<u8>, b: Seq<u8>)
        ensures
            self.wrote(a).wrote(b) == self.wrote(a + b),
    {
        reveal(placed);
        assert(placed(placed(self.content, self.cursor, a), self.cursor + a.len(), b) =~= placed(
            self.content,
            self.cursor,
            a + b,
        ));
    }

    /// Laying nothing down changes nothing.
    pub proof fn lemma_wrote_nothing(self)
        requires
            self.cursor <= self.content.len(),
        ensures
            self.wrote(Seq::empty()) == self,
    {
        reveal(placed);
        assert(placed(self.content, self.cursor, Seq::empty()) =~= self.content);
    }

    /// Bytes laid down behind appended ones extend what was appended.
    pub proof fn lemma_appended_wrote(self, x: Seq<u8>, d: Seq<u8>)
        requires
            self.at_end(),
        ensures
            self.appended(x).wrote(d) == self.appended(x + d),
            self.appended(x + d).at_end(),
    {
        reveal(placed);
        assert(placed(self.content + x, self.cursor + x.len(), d) =~= self.content + (x + d));
    }

    /// A cursor moved on behind appended bytes extends them with zero bytes.
    pub proof fn lemma_appended_skipped(self, x: Seq<u8>, n: nat)
        requires
            self.at_end(),
        ensures
            self.appended(x).skipped(n) == self.appended(x + zeros(n)),
            self.appended(x + zeros(n)).at_end(),
    {
        reveal(placed);
        assert(placed(self.content + x, self.cursor + x.len() + n, Seq::empty()) =~= self.content + (
        x + zeros(n)));
    }

    /// A patch inside appended bytes is a patch of what was appended.
    pub proof fn lemma_appended_patched(self, x: Seq<u8>, at: nat, off: nat, d: Seq<u8>)
        requires
            self.at_end(),
            at == self.content.len() + off,
            off + d.len() <= x.len(),
        ensures
            self.appended(x).patched(at, d) == self.appended(placed(x, off, d)),
            placed(x, off, d).len() == x.len(),
    {
        reveal(placed);
        assert(placed(self.content + x, at, d) =~= self.content + placed(x, off, d));
    }

    /// Appending in two steps appends the concatenation.
    pub proof fn lemma_appended_twice(self, a: Seq<u8>, b: Seq<u8>)
        ensures
            self.appended(a).appended(b) == self.appended(a + b),
    {
        assert(self.content + a + b =~= self.content + (a + b));
    }

    /// Appending to a sink at its end leaves the sink at its end.
    pub proof fn lemma_appended_at_end(self, d: Seq<u8>)
        requires
            self.at_end(),
        ensures
            self.appended(d).at_end(),
    {
    }

    /// Appending nothing changes nothing.
    pub proof fn lemma_appended_nothing(self)
        ensures
            self.appended(Seq::empty()) == self,
    {
        assert(self.content + Seq::<u8>::empty() =~= self.content);
    }
}

/// A growable byte vector. The cursor stands at its end, and alignment counts from `origin`.
pub struct Buffer {
    pub data: Vec<u8>,
    pub origin: usize,
}

impl View for Buffer {
    type V = Seq<u8>;

    open spec fn view(&self) -> Seq<u8> {
        self.data@
    }
}

impl Buffer {
    /// A buffer of `origin` zero bytes, with that origin.
    pub fn new(origin: usize) -> (r: Self)
        ensures
            r.wf(),
            r@ == zeros(origin as nat),
            r.origin == origin,
    {
        let mut data: Vec<u8> = Vec::new();
        append_zeros(&mut data, origin);
        assert(data@ =~= zeros(origin as nat));
        Buffer { data, origin }
    }
}

impl BinaryWriter for Buffer {
    open spec fn state(&self) -> WriterState {
        WriterState {
            content: self@,
            cursor: self@.len(),
            origin: self.origin as nat,
            limit: None,
        }
    }

    open spec fn wf(&self) -> bool {
        self.origin <= self@.len()
    }

    proof fn lemma_cursor_in_content(&self) {
        assert(self.data@.len() == self.data.len());
    }

    fn pos(&self) -> (p: usize) {
        self.data.len()
    }

    fn reserve(&mut self, amount: usize) {
        append_zeros(&mut self.data, amount);
    }

    fn write_bytes(&mut self, data: &[u8]) {
        self.data.extend_from_slice(data);
        proof {
            reveal(placed);
            assert(self@ =~= placed(old(self)@, old(self)@.len(), data@));
        }
    }

    fn write_bytes_at(&mut self, index: usize, data: &[u8]) {
        overwrite(&mut self.data, index, data);
    }

    fn align_to(&mut self, i: usize) {
        let pad = padding_for(self.data.len() - self.origin, i);
        self.reserve(pad);
    }
}

/// A window of fixed length over a region that a sink has already laid
/// down: writes go to the window, front to back, and none goes past its end.
pub struct ScopedSlice<'a, W: BinaryWriter> {
    pub inner: &'a mut W,
    /// Where the window begins, as `pos` of the sink counts.
    pub offset: usize,
    /// The length of the window.
    pub length: usize,
    /// How many bytes of the window are written.
    pub written: usize,
}

impl<'a, W: BinaryWriter> ScopedSlice<'a, W> {
    /// Whether the window lies in what the sink has laid down.
    pub open spec fn wf(&self) -> bool {
        &&& self.inner.wf()
        &&& self.written <= self.length
        &&& self.offset + self.length <= self.inner.state().cursor
    }

    /// Whether every byte of the window is written.
    pub open spec fn filled(&self) -> bool {
        self.written == self.length
    }

    /// A window of `length` bytes at `offset`, which must lie before the cursor.
    pub fn new(inner: &'a mut W, offset: usize, length: usize) -> (r: Self)
        requires
            old(inner).wf(),
            offset + length <= old(inner).state().cursor,
        ensures
            r.wf(),
            *r.inner == *old(inner),
            *final(inner) == *final(r.inner),
            r.offset == offset,
            r.length == length,
            r.written == 0,
    {
        Self { inner, offset, length, written: 0 }
    }

    /// Offset within the window.
    pub fn pos(&self) -> (p: usize)
        ensures
            p == self.written,
    {
        self.written
    }

    /// Writes `data` to the window, behind what is written there.
    pub fn write_bytes(&mut self, data: &[u8])
        requires
            old(self).wf(),
            old(self).written + data@.len() <= old(self).length,
        ensures
            final(self).wf(),
            final(self).offset == old(self).offset,
            final(self).length == old(self).length,
            final(self).written == old(self).written + data@.len(),
            *final(final(self).inner) == *final(old(self).inner),
            final(self).inner.state() == old(self).inner.state().patched(
                (old(self).offset + old(self).written) as nat,
                data@,
            ),
    {
        proof {
            self.inner.lemma_cursor_in_content();
        }
        self.inner.write_bytes_at(self.offset + self.written, data);
        self.written = self.written + data.len();
    }

    /// Writes `v` to the window, least significant byte first.
    pub fn write_u32(&mut self, v: u32)
        requires
            old(self).wf(),
            old(self).written + 4 <= old(self).length,
        ensures
            final(self).wf(),
            final(self).offset == old(self).offset,
            final(self).length == old(self).length,
            final(self).written == old(self).written + 4,
            *final(final(self).inner) == *final(old(self).inner),
            final(self).inner.state() == old(self).inner.state().patched(
                (old(self).offset + old(self).written) as nat,
                le32(v),
            ),
    {
        let b = u32_le(v);
        self.write_bytes(b.as_slice())
    }

    /// Writes `v` to the window, least significant byte first.
    pub fn write_u16(&mut self, v: u16)
        requires
            old(self).wf(),
            old(self).written + 2 <= old(self).length,
        ensures
            final(self).wf(),
            final(self).offset == old(self).offset,
            final(self).length == old(self).length,
            final(self).written == old(self).written + 2,
            *final(final(self).inner) == *final(old(self).inner),
            final(self).inner.state() == old(self).inner.state().patched(
                (old(self).offset + old(self).written) as nat,
                le16(v),
            ),
    {
        let b = u16_le(v);
        self.write_bytes(b.as_slice())
    }

    /// Closes the window, every byte of which must be written.
    pub fn finish(self)
        requires
            self.wf(),
            self.filled(),
        ensures
            *final(self.inner) == *old(self.inner),
    {
    }
}

/// A payload with a fixed layout.
pub trait BinaryWritable {
    /// The bytes of the payload.
    spec fn payload(&self) -> Seq<u8>;

    /// Whether every length in the payload fits the field that holds it.
    spec fn writable(&self) -> bool;

    /// Appends the payload to a sink that stands at its end.
    fn write_to<W: BinaryWriter>(&self, writer: &mut W)
        requires
            self.writable(),
            old(writer).wf(),
            old(writer).state().at_end(),
            old(writer).state().fits(self.payload().len()),
        ensures
            final(writer).wf(),
            final(writer).state() == old(writer).state().appended(self.payload()),
    ;
}

impl BinaryWritable for Vec<u8> {
    open spec fn payload(&self) -> Seq<u8> {
        self@
    }

    open spec fn writable(&self) -> bool {
        true
    }

    fn write_to<W: BinaryWriter>(&self, writer: &mut W) {
        proof {
            old(writer).state().lemma_wrote_at_end(self@);
        }
        writer.write_bytes(self.as_slice())
    }
}

impl BinaryWritable for String {
    /// The UTF-8 encoding of the text.
    open spec fn payload(&self) -> Seq<u8> {
        encode_utf8(self@)
    }

    open spec fn writable(&self) -> bool {
        true
    }

    fn write_to<W: BinaryWriter>(&self, writer: &mut W) {
        proof {
            old(writer).state().lemma_wrote_at_end(encode_utf8(self@));
        }
        writer.write_bytes(self.as_str().as_bytes())
    }
}

impl BinaryWritable for [u8] {
    open spec fn payload(&self) -> Seq<u8> {
        self@
    }

    open spec fn writable(&self) -> bool {
        true
    }

    fn write_to<W: BinaryWriter>(&self, writer: &mut W) {
        proof {
            old(writer).state().lemma_wrote_at_end(self@);
        }
        writer.write_bytes(self)
    }
}

impl BinaryWritable for Icon {
    /// The bytes of the PNG file, as they are.
    open spec fn payload(&self) -> Seq<u8> {
        self@
    }

    open spec fn writable(&self) -> bool {
        true
    }

    fn write_to<W: BinaryWriter>(&self, writer: &mut W) {
        proof {
            old(writer).state().lemma_wrote_at_end(self@);
        }
        writer.write_bytes(self.0.as_slice())
    }
}

impl BinaryWritable for () {
    open spec fn payload(&self) -> Seq<u8> {
        Seq::empty()
    }

    open spec fn writable(&self) -> bool {
        true
    }

    fn write_to<W: BinaryWriter>(&self, writer: &mut W) {
        proof {
            old(writer).state().lemma_appended_nothing();
        }
    }
}

/// A version number as `VS_FIXEDFILEINFO` holds it: minor, major, build, patch.
pub open spec fn version_bytes(v: Version) -> Seq<u8> {
    le16(v.minor) + le16(v.major) + le16(v.build) + le16(v.patch)
}

impl BinaryWritable for Version {
    open spec fn payload(&self) -> Seq<u8> {
        version_bytes(*self)
    }

    open spec fn writable(&self) -> bool {
        true
    }

    fn write_to<W: BinaryWriter>(&self, writer: &mut W) {
        let ghost s0 = old(writer).state();
        proof {
            s0.lemma_wrote_at_end(le16(self.minor));
            s0.lemma_appended_wrote(le16(self.minor), le16(self.major));
            s0.lemma_appended_wrote(le16(self.minor) + le16(self.major), le16(self.build));
            s0.lemma_appended_wrote(
                le16(self.minor) + le16(self.major) + le16(self.build),
                le16(self.patch),
            );
        }
        writer.write_u16(self.minor);
        writer.write_u16(self.major);
        writer.write_u16(self.build);
        writer.write_u16(self.patch);
    }
}

/// One `GRPICONDIRENTRY`: width, height, colour count and a reserved byte, all
/// zero; one plane; 32 bits per pixel; the size of the icon; its identifier.
pub open spec fn icon_entry_bytes(e: IconGroupEntry) -> Seq<u8> {
    seq![0u8, 0u8, 0u8, 0u8] + le16(1) + le16(32) + le32(e.icon_size as u32) + le16(e.icon_id)
}

/// The entries of an icon group, one behind the other.
pub open spec fn icon_entries_bytes(entries: Seq<IconGroupEntry>) -> Seq<u8>
    decreases entries.len(),
{
    if entries.len() == 0 {
        Seq::empty()
    } else {
        icon_entries_bytes(entries.drop_last()) + icon_entry_bytes(entries.last())
    }
}

/// An icon group: a `GRPICONDIR` of type 1 with the number of entries, then the entries.
pub open spec fn icon_group_bytes(entries: Seq<IconGroupEntry>) -> Seq<u8> {
    le16(0) + le16(1) + le16(entries.len() as u16) + icon_entries_bytes(entries)
}

/// Whether the number of entries fits 16 bits and the size of each icon 32.
pub open spec fn entries_fit(entries: Seq<IconGroupEntry>) -> bool {
    &&& entries.len() <= 0xFFFF
    &&& forall|i: int| 0 <= i < entries.len() ==> (#[trigger] entries[i]).icon_size <= 0xFFFF_FFFF
}

/// The entries of an icon group take fourteen bytes each.
pub proof fn lemma_icon_entries_len(entries: Seq<IconGroupEntry>)
    ensures
        icon_entries_bytes(entries).len() == 14 * entries.len(),
    decreases entries.len(),
{
    if entries.len() > 0 {
        lemma_icon_entries_len(entries.drop_last());
    }
}

impl BinaryWritable for [IconGroupEntry] {
    open spec fn payload(&self) -> Seq<u8> {
        icon_group_bytes(self@)
    }

    /// The number of entries fits 16 bits and the size of each icon 32.
    open spec fn writable(&self) -> bool {
        entries_fit(self@)
    }

    fn write_to<W: BinaryWriter>(&self, w: &mut W) {
        let ghost s0 = old(w).state();
        let n = self.len();
        assert(n <= 0xFFFF);
        let ghost head = le16(0) + le16(1) + le16(n as u16);
        proof {
            lemma_icon_entries_len(self@);
            s0.lemma_wrote_at_end(le16(0));
            s0.lemma_appended_wrote(le16(0), le16(1));
            s0.lemma_appended_wrote(le16(0) + le16(1), le16(n as u16));
        }
        w.write_u16(0x0);  // idReserved
        w.write_u16(0x1);  // idType
        w.write_u16(n as u16);  // idCount
        proof {
            assert(self@.take(0) =~= Seq::<IconGroupEntry>::empty());
            assert(head + icon_entries_bytes(self@.take(0)) =~= head);
        }
        let mut k: usize = 0;
        while k < n
            invariant
                k <= n,
                n == self@.len(),
                self.writable(),
                s0.at_end(),
                head.len() == 6,
                w.wf(),
                w.state() == s0.appended(head + icon_entries_bytes(self@.take(k as int))),
                s0.fits((6 + 14 * n) as nat),
            decreases n - k,
        {
            let entry = self[k];
            let ghost done = head + icon_entries_bytes(self@.take(k as int));
            let ghost zero = seq![0u8];
            proof {
                lemma_icon_entries_len(self@.take(k as int));
                assert(self@.take(k + 1).drop_last() =~= self@.take(k as int));
                s0.lemma_appended_wrote(done, zero);
                s0.lemma_appended_wrote(done + zero, zero);
                s0.lemma_appended_wrote(done + zero + zero, zero);
                s0.lemma_appended_wrote(done + zero + zero + zero, zero);
                s0.lemma_appended_wrote(done + zero + zero + zero + zero, le16(1));
                s0.lemma_appended_wrote(done + zero + zero + zero + zero + le16(1), le16(32));
                s0.lemma_appended_wrote(
                    done + zero + zero + zero + zero + le16(1) + le16(32),
                    le32(entry.icon_size as u32),
                );
                s0.lemma_appended_wrote(
                    done + zero + zero + zero + zero + le16(1) + le16(32) + le32(
                        entry.icon_size as u32,
                    ),
                    le16(entry.icon_id),
                );
                lemma_icon_entry_appended(head, self@.take(k as int), entry);
                assert(self@.take(k + 1) =~= self@.take(k as int).push(entry));
            }
            w.write_u8(0x0);  // bWidth
            w.write_u8(0x0);  // bHeight
            w.write_u8(0x0);  // bColorCount
            w.write_u8(0x0);  // bReserved
            w.write_u16(0x1);  // wPlanes
            w.write_u16(32);  // wBitCount
            w.write_u32(entry.icon_size as u32);  // dwBytesInRes
            w.write_u16(entry.icon_id);
            k += 1;
        }
        proof {
            assert(self@.take(n as int) =~= self@);
        }
    }
}

proof fn lemma_icon_entry_appended(head: Seq<u8>, before: Seq<IconGroupEntry>, e: IconGroupEntry)
    ensures
        head + icon_entries_bytes(before) + seq![0u8] + seq![0u8] + seq![0u8] + seq![0u8] + le16(1)
            + le16(32) + le32(e.icon_size as u32) + le16(e.icon_id) == head + icon_entries_bytes(
            before.push(e),
        ),
{
    assert(before.push(e).drop_last() =~= before);
    assert(head + icon_entries_bytes(before) + seq![0u8] + seq![0u8] + seq![0u8] + seq![0u8] + le16(
        1,
    ) + le16(32) + le32(e.icon_size as u32) + le16(e.icon_id) =~= head + (icon_entries_bytes(before)
        + icon_entry_bytes(e)));
}

/// The `VS_FIXEDFILEINFO` block: signature, structure version, file and
/// product version, flags mask, flags, operating system (`VOS_NT_WINDOWS32`),
/// file type, subtype, and a zero timestamp.
pub open spec fn fixed_info_bytes(info: VersionInfoView) -> Seq<u8> {
    le32(0xFEEF04BD) + le32(0x10000) + version_bytes(info.file_version) + version_bytes(
        info.product_version,
    ) + le32(0x3f) + le32(flags_word(info.flags)) + le32(0x00040004) + le32(
        info.file_type.spec_id(),
    ) + le32(0) + le32(0) + le32(0)
}

/// A `String` record: the value is the text, counted in UTF-16 units with its terminator.
pub open spec fn string_record(key: Seq<char>, value: Seq<char>) -> Seq<u8> {
    field_bytes(
        FieldType::Text,
        key,
        FieldValueView::Other((utf16(value).len() + 1) as u16),
        utf16z(value),
    )
}

/// The `String` records of a table, each aligned to four bytes.
pub open spec fn string_records(entries: Entries) -> Seq<u8>
    decreases entries.len(),
{
    if entries.len() == 0 {
        Seq::empty()
    } else {
        let before = string_records(entries.drop_last());
        before + padding(before.len(), 4) + string_record(entries.last().0, entries.last().1)
    }
}

/// The `StringTable` record of language 0x0000 and code page 0x04B0.
pub open spec fn string_table_record(entries: Entries) -> Seq<u8> {
    field_bytes(FieldType::Text, "000004b0"@, FieldValueView::Absent, string_records(entries))
}

/// The `StringFileInfo` record.
pub open spec fn string_file_info(entries: Entries) -> Seq<u8> {
    field_bytes(
        FieldType::Text,
        "StringFileInfo"@,
        FieldValueView::Absent,
        string_table_record(entries),
    )
}

/// The `Translation` record: one binary value, 0x04B00000.
pub open spec fn translation_record() -> Seq<u8> {
    field_bytes(
        FieldType::Binary,
        "Translation"@,
        FieldValueView::Header(le32(0x04b00000)),
        Seq::empty(),
    )
}

/// The `VarFileInfo` record.
pub open spec fn var_file_info() -> Seq<u8> {
    field_bytes(FieldType::Text, "VarFileInfo"@, FieldValueView::Absent, translation_record())
}

/// The children of `VS_VERSIONINFO`: `StringFileInfo`, then `VarFileInfo` aligned to four bytes.
pub open spec fn version_children(entries: Entries) -> Seq<u8> {
    string_file_info(entries) + padding(string_file_info(entries).len(), 4) + var_file_info()
}

/// The `VS_VERSIONINFO` record.
pub open spec fn version_record(info: VersionInfoView) -> Seq<u8> {
    field_bytes(
        FieldType::Binary,
        "VS_VERSION_INFO"@,
        FieldValueView::Header(fixed_info_bytes(info)),
        version_children(info.strings),
    )
}

/// The payload of a version resource: the `VS_VERSIONINFO` record, padded to four bytes.
pub open spec fn version_info_bytes(info: VersionInfoView) -> Seq<u8> {
    version_record(info) + padding(version_record(info).len(), 4)
}

/// The payload of a version resource is at most four bytes longer than its
/// `VS_VERSIONINFO` record.
pub proof fn lemma_version_info_len(info: VersionInfoView)
    ensures
        version_info_bytes(info).len() < version_record(info).len() + 4,
        version_info_bytes(info).len() % 4 == 0,
{
    lemma_pad_len(version_record(info).len(), 4);
}

/// The records of a prefix of a table are no longer than those of the table.
pub proof fn lemma_string_records_prefix(entries: Entries, k: int)
    requires
        0 <= k <= entries.len(),
    ensures
        string_records(entries.take(k)).len() <= string_records(entries).len(),
    decreases entries.len(),
{
    if k == entries.len() {
        assert(entries.take(k) =~= entries);
    } else {
        assert(entries.drop_last().take(k) =~= entries.take(k));
        lemma_string_records_prefix(entries.drop_last(), k);
    }
}

/// The text of a `String` record as null-terminated UTF-16.
fn string_value(value: &str) -> (r: Vec<u8>)
    ensures
        r@ == utf16z(value@),
{
    let mut buffer = ResWriter::default();
    proof {
        buffer.state().lemma_wrote_at_end(utf16z(value@));
        assert(Seq::<u8>::empty() + utf16z(value@) =~= utf16z(value@));
    }
    let mut w = VersionWriter::new(&mut buffer);
    w.write_utf16(value);
    buffer.data
}

/// Writes the `String` records of a table.
fn write_string_records<W: BinaryWriter>(w: &mut VersionWriter<W>, table: &StringTable)
    requires
        old(w).wf(),
        old(w).inner.state().at_end(),
        old(w).local() == 0,
        string_records(table@).len() <= 0xFFFF,
        old(w).inner.state().fits(string_records(table@).len()),
    ensures
        final(w).wf(),
        final(w).start == old(w).start,
        *final(final(w).inner) == *final(old(w).inner),
        final(w).inner.state() == old(w).inner.state().appended(string_records(table@)),
{
    let ghost s0 = old(w).inner.state();
    let ghost entries = table@;
    let n = table.entries.len();
    proof {
        assert(entries.take(0) =~= Entries::empty());
        s0.lemma_appended_nothing();
        old(w).inner.lemma_cursor_in_content();
    }
    let mut k: usize = 0;
    while k < n
        invariant
            k <= n,
            n == table.entries@.len(),
            entries == table@,
            s0.at_end(),
            w.start == s0.content.len(),
            s0 == old(w).inner.state(),
            w.wf(),
            w.start == old(w).start,
            *final(w.inner) == *final(old(w).inner),
            w.inner.state() == s0.appended(string_records(entries.take(k as int))),
            string_records(entries).len() <= 0xFFFF,
            s0.fits(string_records(entries).len()),
        decreases n - k,
    {
        let key = table.entries[k].0.as_str();
        let text = string_value(table.entries[k].1.as_str());
        let ghost before = string_records(entries.take(k as int));
        let ghost value = FieldValueView::Other((utf16(entries[k as int].1).len() + 1) as u16);
        proof {
            assert(entries.take(k + 1).drop_last() =~= entries.take(k as int));
            lemma_string_records_prefix(entries, k + 1);
            lemma_field_bytes_len(FieldType::Text, key@, value, text@);
            lemma_le16_seq_len(utf16(entries[k as int].1));
            lemma_pad_len(before.len(), 4);
            s0.lemma_appended_twice(
                before,
                padding(before.len(), 4) + string_record(key@, entries[k as int].1),
            );
            lemma_concat_assoc(
                before,
                padding(before.len(), 4),
                string_record(key@, entries[k as int].1),
            );
            s0.lemma_appended_at_end(before);
        }
        let units = text.len() / 2;
        w.write_field(FieldType::Text, key, FieldValue::other(units as u16), text.as_slice());
        k += 1;
    }
    proof {
        assert(entries.take(n as int) =~= entries);
    }
}

/// One record in a buffer of its own.
fn field_record(field_type: FieldType, key: &str, value: FieldValue, body: &[u8]) -> (r: Vec<u8>)
    requires
        field_len(key@, value@, body@) <= 0xFFFF,
    ensures
        r@ == field_bytes(field_type, key@, value@, body@),
{
    let mut buffer = ResWriter::default();
    proof {
        lemma_pad_len(0, 4);
        assert(Seq::<u8>::empty() + (padding(0, 4) + field_bytes(field_type, key@, value@, body@))
            =~= field_bytes(field_type, key@, value@, body@));
    }
    let mut w = VersionWriter::new(&mut buffer);
    w.write_field(field_type, key, value, body);
    buffer.data
}

/// The `StringFileInfo` record of a table.
fn string_file_info_record(table: &StringTable) -> (r: Vec<u8>)
    requires
        string_file_info(table@).len() <= 0xFFFF,
    ensures
        r@ == string_file_info(table@),
{
    proof {
        lemma_field_bytes_len(
            FieldType::Text,
            "StringFileInfo"@,
            FieldValueView::Absent,
            string_table_record(table@),
        );
        lemma_field_bytes_len(
            FieldType::Text,
            "000004b0"@,
            FieldValueView::Absent,
            string_records(table@),
        );
    }
    let mut records = ResWriter::default();
    proof {
        assert(Seq::<u8>::empty() + string_records(table@) =~= string_records(table@));
    }
    let mut w = VersionWriter::new(&mut records);
    write_string_records(&mut w, table);
    let inner = field_record(
        FieldType::Text,
        "000004b0",
        FieldValue::none(),
        records.data.as_slice(),
    );
    field_record(FieldType::Text, "StringFileInfo", FieldValue::none(), inner.as_slice())
}

/// The `VarFileInfo` record is 68 bytes long.
pub proof fn lemma_var_file_info_len()
    ensures
        translation_record().len() == 36,
        var_file_info().len() == 68,
{
    reveal_strlit("Translation");
    reveal_strlit("VarFileInfo");
    lemma_ascii_utf16("Translation"@);
    lemma_ascii_utf16("VarFileInfo"@);
    lemma_le16_seq_len(utf16("Translation"@));
    lemma_le16_seq_len(utf16("VarFileInfo"@));
    lemma_field_bytes_len(
        FieldType::Binary,
        "Translation"@,
        FieldValueView::Header(le32(0x04b00000)),
        Seq::empty(),
    );
    lemma_field_bytes_len(
        FieldType::Text,
        "VarFileInfo"@,
        FieldValueView::Absent,
        translation_record(),
    );
    assert(pad_len(30, 4) == 2);
    assert(pad_len(4, 4) == 0);
}

/// The `VarFileInfo` record.
fn var_file_info_record() -> (r: Vec<u8>)
    ensures
        r@ == var_file_info(),
{
    proof {
        lemma_var_file_info_len();
        lemma_field_bytes_len(
            FieldType::Binary,
            "Translation"@,
            FieldValueView::Header(le32(0x04b00000)),
            Seq::empty(),
        );
        lemma_field_bytes_len(
            FieldType::Text,
            "VarFileInfo"@,
            FieldValueView::Absent,
            translation_record(),
        );
    }
    let value = u32_le(0x04b00000);
    let empty: [u8; 0] = [];
    let translation = field_record(
        FieldType::Binary,
        "Translation",
        FieldValue::header(slice_to_vec(value.as_slice())),
        empty.as_slice(),
    );
    field_record(FieldType::Text, "VarFileInfo", FieldValue::none(), translation.as_slice())
}

/// The `VS_FIXEDFILEINFO` block of `info`.
fn fixed_info(info: &VersionInfo) -> (r: Vec<u8>)
    ensures
        r@ == fixed_info_bytes(info@),
        r@.len() == 52,
{
    let mut w = ResWriter::default();
    let ghost s0 = w.state();
    let ghost x = Seq::<u8>::empty();
    proof {
        s0.lemma_appended_nothing();
        s0.lemma_appended_wrote(x, le32(0xFEEF04BD));
    }
    w.write_u32(0xFEEF04BD);
    proof {
        x = x + le32(0xFEEF04BD);
        s0.lemma_appended_wrote(x, le32(0x10000));
    }
    w.write_u32(0x10000);
    proof {
        x = x + le32(0x10000);
        s0.lemma_appended_twice(x, version_bytes(info.file_version));
        s0.lemma_appended_at_end(x);
    }
    info.file_version.write_to(&mut w);
    proof {
        x = x + version_bytes(info.file_version);
        s0.lemma_appended_twice(x, version_bytes(info.product_version));
        s0.lemma_appended_at_end(x);
    }
    info.product_version.write_to(&mut w);
    proof {
        x = x + version_bytes(info.product_version);
        s0.lemma_appended_wrote(x, le32(0x3f));
    }
    w.write_u32(0x3f);
    proof {
        x = x + le32(0x3f);
        s0.lemma_appended_wrote(x, le32(flags_word(info.flags@)));
    }
    w.write_u32(info.flags.word());
    proof {
        x = x + le32(flags_word(info.flags@));
        s0.lemma_appended_wrote(x, le32(0x00040004));
    }
    w.write_u32(0x00040004);
    proof {
        x = x + le32(0x00040004);
        s0.lemma_appended_wrote(x, le32(info.file_type.spec_id()));
    }
    w.write_u32(info.file_type.id());
    proof {
        x = x + le32(info.file_type.spec_id());
        s0.lemma_appended_wrote(x, le32(0));
    }
    w.write_u32(0x0);
    proof {
        x = x + le32(0);
        s0.lemma_appended_wrote(x, le32(0));
    }
    w.write_u32(0x0);
    proof {
        x = x + le32(0);
        s0.lemma_appended_wrote(x, le32(0));
    }
    w.write_u32(0x0);
    proof {
        x = x + le32(0);
        assert(Seq::<u8>::empty() + x =~= fixed_info_bytes(info@));
    }
    w.data
}

impl BinaryWritable for VersionInfo {
    open spec fn payload(&self) -> Seq<u8> {
        version_info_bytes(self@)
    }

    /// The `VS_VERSIONINFO` record, and with it every record inside, is at
    /// most 65535 bytes long.
    open spec fn writable(&self) -> bool {
        version_record(self@).len() <= 0xFFFF
    }

    #[verifier::rlimit(40)]
    fn write_to<W: BinaryWriter>(&self, writer: &mut W) {
        let ghost s0 = old(writer).state();
        let ghost fixed_view = FieldValueView::Header(fixed_info_bytes(self@));
        let ghost sfi = string_file_info(self.strings@);
        proof {
            lemma_field_bytes_len(
                FieldType::Binary,
                "VS_VERSION_INFO"@,
                fixed_view,
                version_children(self.strings@),
            );
            lemma_var_file_info_len();
            lemma_pad_len(sfi.len(), 4);
            lemma_pad_len(0, 4);
            lemma_pad_len(version_record(self@).len(), 4);
            old(writer).lemma_cursor_in_content();
        }
        let fixed = fixed_info(self);
        let mut children = ResWriter::default();
        let ghost c0 = children.state();
        string_file_info_record(&self.strings).write_to(&mut children);
        proof {
            c0.lemma_appended_skipped(sfi, pad_len(sfi.len(), 4));
        }
        children.align_to(4);
        var_file_info_record().write_to(&mut children);
        proof {
            assert(children@ =~= version_children(self.strings@));
            let rec = version_record(self@);
            assert(padding(0, 4) + rec =~= rec);
            s0.lemma_appended_skipped(rec, pad_len(rec.len(), 4));
        }

        let mut w = VersionWriter::new(writer);
        w.write_field(
            FieldType::Binary,
            "VS_VERSION_INFO",
            FieldValue::header(fixed),
            children.data.as_slice(),
        );
        w.align_to(4);
    }
}

/// The size of a `String` record.
pub open spec fn string_record_len(key: Seq<char>, value: Seq<char>) -> nat {
    8 + 2 * utf16(key).len() + pad_len(8 + 2 * utf16(key).len(), 4) + 2 * utf16(value).len() + 2
}

/// A `String` record has the size that [`string_record_len`] gives.
pub proof fn lemma_string_record_len(key: Seq<char>, value: Seq<char>)
    ensures
        string_record(key, value).len() == string_record_len(key, value),
{
    let v = FieldValueView::Other((utf16(value).len() + 1) as u16);
    lemma_field_bytes_len(FieldType::Text, key, v, utf16z(value));
    lemma_le16_seq_len(utf16(key));
    lemma_le16_seq_len(utf16(value));
}

/// The `VS_VERSIONINFO` record is 220 bytes long without its `String`
/// records, which are padded to four bytes.
#[verifier::rlimit(40)]
pub proof fn lemma_version_record_len(info: VersionInfoView)
    ensures
        version_record(info).len() == 220 + string_records(info.strings).len() + pad_len(
            string_records(info.strings).len(),
            4,
        ),
{
    let records = string_records(info.strings);
    reveal_strlit("VS_VERSION_INFO");
    reveal_strlit("StringFileInfo");
    reveal_strlit("000004b0");
    lemma_ascii_utf16("VS_VERSION_INFO"@);
    lemma_ascii_utf16("StringFileInfo"@);
    lemma_ascii_utf16("000004b0"@);
    lemma_le16_seq_len(utf16("VS_VERSION_INFO"@));
    lemma_le16_seq_len(utf16("StringFileInfo"@));
    lemma_le16_seq_len(utf16("000004b0"@));
    lemma_var_file_info_len();
    lemma_field_bytes_len(
        FieldType::Binary,
        "VS_VERSION_INFO"@,
        FieldValueView::Header(fixed_info_bytes(info)),
        version_children(info.strings),
    );
    lemma_field_bytes_len(
        FieldType::Text,
        "StringFileInfo"@,
        FieldValueView::Absent,
        string_table_record(info.strings),
    );
    lemma_field_bytes_len(FieldType::Text, "000004b0"@, FieldValueView::Absent, records);
    assert(pad_len(38, 4) == 2);
    assert(pad_len(36, 4) == 0);
    assert(pad_len(24, 4) == 0);
    assert(pad_len(52, 4) == 0);
    assert(fixed_info_bytes(info).len() == 52);
    lemma_pad_len_shift(60, records.len(), 4);
}

/// The size of the `String` records of a table, or 0x10000 where they are longer.
fn string_records_len(table: &StringTable) -> (r: usize)
    ensures
        r == if string_records(table@).len() < 0x1_0000 {
            string_records(table@).len()
        } else {
            0x1_0000
        },
{
    let ghost entries = table@;
    let n = table.entries.len();
    let mut total: usize = 0;
    let mut k: usize = 0;
    proof {
        assert(entries.take(0) =~= Entries::empty());
    }
    while k < n
        invariant
            k <= n,
            n == table.entries@.len(),
            entries == table@,
            total == if string_records(entries.take(k as int)).len() < 0x1_0000 {
                string_records(entries.take(k as int)).len()
            } else {
                0x1_0000
            },
        decreases n - k,
    {
        let ghost before = string_records(entries.take(k as int));
        let ghost key = entries[k as int].0;
        let ghost value = entries[k as int].1;
        proof {
            assert(entries.take(k + 1).drop_last() =~= entries.take(k as int));
            lemma_string_record_len(key, value);
            lemma_pad_len(before.len(), 4);
            lemma_pad_len(8 + 2 * utf16(key).len(), 4);
        }
        let key_units = utf16_units(table.entries[k].0.as_str()).len();
        let value_units = utf16_units(table.entries[k].1.as_str()).len();
        if total >= 0x1_0000 || key_units >= 0x8000 || value_units >= 0x8000 {
            total = 0x1_0000;
        } else {
            let head = 8 + 2 * key_units;
            let record = head + padding_for(head, 4) + 2 * value_units + 2;
            let sum = total + padding_for(total, 4) + record;
            total = if sum < 0x1_0000 {
                sum
            } else {
                0x1_0000
            };
        }
        k += 1;
    }
    proof {
        assert(entries.take(n as int) =~= entries);
    }
    total
}

impl VersionInfo {
    /// The size of the payload, where it can be written: where the
    /// `VS_VERSIONINFO` record is at most 65535 bytes long.
    pub fn payload_len(&self) -> (r: Option<usize>)
        ensures
            r is Some == self.writable(),
            r is Some ==> r->0 == self.payload().len(),
    {
        proof {
            lemma_version_record_len(self@);
            lemma_pad_len(string_records(self.strings@).len(), 4);
            lemma_pad_len(version_record(self@).len(), 4);
        }
        let records = string_records_len(&self.strings);
        let record = 220 + records + padding_for(records, 4);
        if record <= 0xFFFF {
            Some(record + padding_for(record, 4))
        } else {
            None
        }
    }
}

} // verus!
