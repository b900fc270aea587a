//! The records of a version resource: a six-byte header, a UTF-16 key, a
//! value and child records, each part aligned to four bytes from the start of
//! the resource.

use vstd::prelude::*;
use crate::binary::{BinaryWriter, WriterState};
use crate::encoding::{
    le16,
    le16_seq,
    utf16z,
    pad_len,
    padding,
    placed,
    lemma_placed_inside,
    lemma_concat_assoc,
    padding_for,
    lemma_pad_len,
    lemma_pad_len_shift,
    lemma_le16_seq_len,
    lemma_le16_round_trip,
    read16,
    utf16_units,
};

verus! {

/// Whether a record's value is binary or text.
#[derive(Debug, Copy, Clone, PartialEq, Eq)]
pub enum FieldType {
    Binary,
    Text,
}

impl FieldType {
    /// The `wType` word.
    pub open spec fn spec_id(self) -> u16 {
        match self {
            FieldType::Binary => 0,
            FieldType::Text => 1,
        }
    }

    /// The `wType` word.
    #[verifier::when_used_as_spec(spec_id)]
    pub fn id(self) -> (r: u16)
        ensures
            r == self.spec_id(),
    {
        match self {
            FieldType::Binary => 0,
            FieldType::Text => 1,
        }
    }
}

/// The value of a record.
pub enum FieldValue {
    /// No value; `wValueLength` is zero.
    Absent,
    /// These bytes, padded to four; `wValueLength` is their count.
    Header(Vec<u8>),
    /// A value that the record's body carries; `wValueLength` is this word.
    Other(u16),
}

impl FieldValue {
    /// A value of these bytes.
    pub fn header(bytes: Vec<u8>) -> (r: Self)
        ensures
            r == FieldValue::Header(bytes),
    {
        FieldValue::Header(bytes)
    }

    /// No value.
    pub fn none() -> (r: Self)
        ensures
            r == FieldValue::Absent,
    {
        FieldValue::Absent
    }

    /// A value that the body of the record carries, of length `v`.
    pub fn other(v: u16) -> (r: Self)
        ensures
            r == FieldValue::Other(v),
    {
        FieldValue::Other(v)
    }

}

/// The value of a record, as plain values.
pub enum FieldValueView {
    Absent,
    Header(Seq<u8>),
    Other(u16),
}

impl View for FieldValue {
    type V = FieldValueView;

    open spec fn view(&self) -> FieldValueView {
        match self {
            FieldValue::Absent => FieldValueView::Absent,
            FieldValue::Header(bytes) => FieldValueView::Header(bytes@),
            FieldValue::Other(v) => FieldValueView::Other(*v),
        }
    }
}

impl FieldValueView {
    /// What `wValueLength` holds.
    pub open spec fn length_word(self) -> nat {
        match self {
            FieldValueView::Absent => 0,
            FieldValueView::Header(bytes) => bytes.len(),
            FieldValueView::Other(v) => v as nat,
        }
    }

    /// The bytes that the value takes between key and body.
    pub open spec fn laid_out(self) -> Seq<u8> {
        match self {
            FieldValueView::Header(bytes) => bytes + padding(bytes.len(), 4),
            _ => Seq::empty(),
        }
    }
}

/// A record up to its value: the two length words, the type word, the key,
/// and what pads them to a multiple of four.
pub open spec fn field_head(
    field_type: FieldType,
    key: Seq<char>,
    length: u16,
    value_length: u16,
) -> Seq<u8> {
    le16(length) + le16(value_length) + le16(field_type.spec_id()) + utf16z(key) + padding(
        6 + utf16z(key).len(),
        4,
    )
}

/// The size of a record up to its value.
pub open spec fn field_head_len(key: Seq<char>) -> nat {
    6 + utf16z(key).len() + pad_len(6 + utf16z(key).len(), 4)
}

/// The size of a record, which its `wLength` word holds.
pub open spec fn field_len(key: Seq<char>, value: FieldValueView, body: Seq<u8>) -> nat {
    field_head_len(key) + value.laid_out().len() + body.len()
}

/// A whole record.
pub open spec fn field_bytes(
    field_type: FieldType,
    key: Seq<char>,
    value: FieldValueView,
    body: Seq<u8>,
) -> Seq<u8> {
    field_head(
        field_type,
        key,
        field_len(key, value, body) as u16,
        value.length_word() as u16,
    ) + value.laid_out() + body
}

/// The head of a record has the size that [`field_head_len`] gives and
/// differs from a head with other length words in those words alone.
pub proof fn lemma_field_head(
    field_type: FieldType,
    key: Seq<char>,
    length: u16,
    value_length: u16,
)
    ensures
        field_head(field_type, key, length, value_length).len() == field_head_len(key),
        field_head_len(key) % 4 == 0,
        field_head(field_type, key, length, value_length) == le16(length) + le16(value_length)
            + field_head(field_type, key, 0, 0).skip(4),
        field_head(field_type, key, 0, 0).skip(4).len() + 4 == field_head_len(key),
{
    lemma_pad_len(6 + utf16z(key).len(), 4);
    assert(field_head(field_type, key, length, value_length) =~= le16(length) + le16(value_length)
        + field_head(field_type, key, 0, 0).skip(4));
}

/// A record has the size that its `wLength` word holds.
pub proof fn lemma_field_bytes_len(
    field_type: FieldType,
    key: Seq<char>,
    value: FieldValueView,
    body: Seq<u8>,
)
    ensures
        field_bytes(field_type, key, value, body).len() == field_len(key, value, body),
        field_len(key, value, body) >= 8 + body.len(),
        field_len(key, value, body) >= 8 + value.laid_out().len(),
{
    lemma_field_head(
        field_type,
        key,
        field_len(key, value, body) as u16,
        value.length_word() as u16,
    );
    lemma_pad_len(6 + utf16z(key).len(), 4);
}

/// Length self-consistency: the `wLength` word of a record, read back from
/// it, is the size of the record, and the `wValueLength` word is the length
/// of its value.
pub proof fn lemma_field_length_words(
    field_type: FieldType,
    key: Seq<char>,
    value: FieldValueView,
    body: Seq<u8>,
)
    requires
        field_len(key, value, body) <= 0xFFFF,
    ensures
        field_bytes(field_type, key, value, body).len() >= 6,
        read16(field_bytes(field_type, key, value, body), 0) == field_bytes(
            field_type,
            key,
            value,
            body,
        ).len(),
        read16(field_bytes(field_type, key, value, body), 2) == value.length_word(),
        read16(field_bytes(field_type, key, value, body), 4) == field_type.spec_id(),
{
    let total = field_len(key, value, body) as u16;
    let word = value.length_word() as u16;
    let record = field_bytes(field_type, key, value, body);
    lemma_field_bytes_len(field_type, key, value, body);
    lemma_pad_len(match value {
        FieldValueView::Header(bytes) => bytes.len(),
        _ => 0,
    }, 4);
    lemma_le16_round_trip(total);
    lemma_le16_round_trip(word);
    lemma_le16_round_trip(field_type.spec_id());
    assert(record[0] == le16(total)[0] && record[1] == le16(total)[1]);
    assert(record[2] == le16(word)[0] && record[3] == le16(word)[1]);
    assert(record[4] == le16(field_type.spec_id())[0] && record[5] == le16(
        field_type.spec_id(),
    )[1]);
}

/// Patching the `wValueLength` word of a record that is being written.
proof fn lemma_patch_value_length(
    pad: Seq<u8>,
    field_type: FieldType,
    key: Seq<char>,
    v: u16,
    after: Seq<u8>,
)
    ensures
        placed(pad + field_head(field_type, key, 0, 0) + after, pad.len() + 2, le16(v)) == pad
            + field_head(field_type, key, 0, v) + after,
        pad.len() + 4 <= (pad + field_head(field_type, key, 0, 0) + after).len(),
{
    let k = field_head(field_type, key, 0, 0).skip(4);
    lemma_field_head(field_type, key, 0, 0);
    lemma_field_head(field_type, key, 0, v);
    lemma_placed_inside(pad + le16(0), le16(0), k + after, le16(v));
    assert(pad + field_head(field_type, key, 0, 0) + after =~= pad + le16(0) + le16(0) + (k
        + after));
    assert(pad + field_head(field_type, key, 0, v) + after =~= pad + le16(0) + le16(v) + (k
        + after));
}

/// Patching the `wLength` word of a record that is being written.
proof fn lemma_patch_length(
    pad: Seq<u8>,
    field_type: FieldType,
    key: Seq<char>,
    l: u16,
    v: u16,
    after: Seq<u8>,
)
    ensures
        placed(pad + field_head(field_type, key, 0, v) + after, pad.len(), le16(l)) == pad
            + field_head(field_type, key, l, v) + after,
        pad.len() + 4 <= (pad + field_head(field_type, key, 0, v) + after).len(),
{
    let k = field_head(field_type, key, 0, 0).skip(4);
    lemma_field_head(field_type, key, 0, v);
    lemma_field_head(field_type, key, l, v);
    lemma_placed_inside(pad, le16(0), le16(v) + k + after, le16(l));
    assert(pad + field_head(field_type, key, 0, v) + after =~= pad + le16(0) + (le16(v) + k
        + after));
    assert(pad + field_head(field_type, key, l, v) + after =~= pad + le16(l) + (le16(v) + k
        + after));
}

/// A sink seen from a local origin: offsets and alignment count from where
/// the sink stood when the view was taken.
pub struct VersionWriter<'a, W: BinaryWriter> {
    pub inner: &'a mut W,
    pub start: usize,
}

impl<'a, W: BinaryWriter> VersionWriter<'a, W> {
    /// Whether the sink is well-formed and the origin lies at or before its cursor.
    pub open spec fn wf(&self) -> bool {
        &&& self.inner.wf()
        &&& self.start <= self.inner.state().cursor
    }

    /// The cursor's distance from the local origin.
    pub open spec fn local(&self) -> nat {
        (self.inner.state().cursor - self.start) as nat
    }

    /// A view of `inner` whose origin is where `inner` stands.
    pub fn new(inner: &'a mut W) -> (r: Self)
        requires
            old(inner).wf(),
        ensures
            r.wf(),
            *r.inner == *old(inner),
            *final(inner) == *final(r.inner),
            r.start == old(inner).state().cursor,
    {
        let start = inner.pos();
        Self { inner, start }
    }

    /// Offset from the local origin.
    pub fn pos(&self) -> (p: usize)
        requires
            self.wf(),
        ensures
            p == self.local(),
    {
        self.inner.pos() - self.start
    }

    /// Moves the cursor `amount` bytes on.
    pub fn reserve(&mut self, amount: usize)
        requires
            old(self).wf(),
            old(self).inner.state().fits(amount as nat),
        ensures
            final(self).wf(),
            final(self).start == old(self).start,
            *final(final(self).inner) == *final(old(self).inner),
            final(self).inner.state() == old(self).inner.state().skipped(amount as nat),
    {
        proof {
            self.inner.lemma_cursor_in_content();
        }
        self.inner.reserve(amount)
    }

    /// Lays `data` down at the cursor.
    pub fn write_bytes(&mut self, data: &[u8])
        requires
            old(self).wf(),
            old(self).inner.state().fits(data@.len()),
        ensures
            final(self).wf(),
            final(self).start == old(self).start,
            *final(final(self).inner) == *final(old(self).inner),
            final(self).inner.state() == old(self).inner.state().wrote(data@),
    {
        proof {
            self.inner.lemma_cursor_in_content();
        }
        self.inner.write_bytes(data)
    }

    /// Overwrites the region at local offset `index`.
    pub fn write_bytes_at(&mut self, index: usize, data: &[u8])
        requires
            old(self).wf(),
            index + data@.len() <= old(self).local(),
        ensures
            final(self).wf(),
            final(self).start == old(self).start,
            *final(final(self).inner) == *final(old(self).inner),
            final(self).inner.state() == old(self).inner.state().patched(
                old(self).start as nat + index as nat,
                data@,
            ),
    {
        proof {
            self.inner.lemma_cursor_in_content();
        }
        self.inner.write_bytes_at(index + self.start, data)
    }

    /// Lays `v` down at the cursor, least significant byte first.
    pub fn write_u16(&mut self, v: u16)
        requires
            old(self).wf(),
            old(self).inner.state().fits(2),
        ensures
            final(self).wf(),
            final(self).start == old(self).start,
            *final(final(self).inner) == *final(old(self).inner),
            final(self).inner.state() == old(self).inner.state().wrote(le16(v)),
    {
        proof {
            self.inner.lemma_cursor_in_content();
        }
        self.inner.write_u16(v)
    }

    /// Reserves what brings the local offset to a multiple of `i`.
    pub fn align_to(&mut self, i: usize)
        requires
            old(self).wf(),
            i > 0,
            old(self).inner.state().fits(pad_len(old(self).local(), i as nat)),
        ensures
            final(self).wf(),
            final(self).start == old(self).start,
            *final(final(self).inner) == *final(old(self).inner),
            final(self).inner.state() == old(self).inner.state().skipped(
                pad_len(old(self).local(), i as nat),
            ),
    {
        let pad = padding_for(self.pos(), i);
        self.reserve(pad)
    }

    /// Writes a zero word and returns its local offset, to be patched later.
    pub fn reserve_u16(&mut self) -> (at: usize)
        requires
            old(self).wf(),
            old(self).inner.state().fits(2),
        ensures
            final(self).wf(),
            final(self).start == old(self).start,
            *final(final(self).inner) == *final(old(self).inner),
            at == old(self).local(),
            final(self).inner.state() == old(self).inner.state().wrote(le16(0)),
    {
        let pos = self.pos();
        self.write_u16(0);
        pos
    }

    /// Patches the word at local offset `location`.
    pub fn update_u16(&mut self, location: usize, v: u16)
        requires
            old(self).wf(),
            location + 2 <= old(self).local(),
        ensures
            final(self).wf(),
            final(self).start == old(self).start,
            *final(final(self).inner) == *final(old(self).inner),
            final(self).inner.state() == old(self).inner.state().patched(
                old(self).start as nat + location as nat,
                le16(v),
            ),
    {
        let b = crate::encoding::u16_le(v);
        self.write_bytes_at(location, b.as_slice())
    }

    /// Writes a text as null-terminated UTF-16.
    pub fn write_utf16(&mut self, text: &str)
        requires
            old(self).wf(),
            old(self).inner.state().fits(utf16z(text@).len()),
        ensures
            final(self).wf(),
            final(self).start == old(self).start,
            *final(final(self).inner) == *final(old(self).inner),
            final(self).inner.state() == old(self).inner.state().wrote(utf16z(text@)),
    {
        let ghost s0 = old(self).inner.state();
        let units = utf16_units(text);
        let n = units.len();
        proof {
            lemma_le16_seq_len(units@);
            assert(units@.take(0) =~= Seq::<u16>::empty());
            old(self).inner.lemma_cursor_in_content();
            s0.lemma_wrote_nothing();
        }
        let mut k: usize = 0;
        while k < n
            invariant
                k <= n,
                n == units@.len(),
                self.wf(),
                self.start == old(self).start,
                *final(self.inner) == *final(old(self).inner),
                s0 == old(self).inner.state(),
                self.inner.state() == s0.wrote(le16_seq(units@.take(k as int))),
                s0.fits((2 * n + 2) as nat),
            decreases n - k,
        {
            let ghost done = le16_seq(units@.take(k as int));
            proof {
                lemma_le16_seq_len(units@.take(k as int));
                assert(units@.take(k + 1).drop_last() =~= units@.take(k as int));
                assert(le16_seq(units@.take(k + 1)) == done + le16(units@[k as int]));
                s0.lemma_wrote_twice(done, le16(units@[k as int]));
            }
            self.write_u16(units[k]);
            k += 1;
        }
        proof {
            assert(units@.take(n as int) =~= units@);
            s0.lemma_wrote_twice(le16_seq(units@), le16(0));
        }
        self.write_u16(0);
    }

    /// Opens a record: padding to a multiple of four, the two length words
    /// as zero, the type word, the key, and padding again. Returns the local
    /// offset of the record, which is that of its `wLength` word.
    fn begin_field(&mut self, field_type: FieldType, key: &str) -> (field_start: usize)
        requires
            old(self).wf(),
            old(self).inner.state().at_end(),
            old(self).inner.state().fits(
                pad_len(old(self).local(), 4) + field_head_len(key@),
            ),
        ensures
            final(self).wf(),
            final(self).start == old(self).start,
            *final(final(self).inner) == *final(old(self).inner),
            field_start == old(self).local() + pad_len(old(self).local(), 4),
            field_start % 4 == 0,
            final(self).inner.state() == old(self).inner.state().appended(
                padding(old(self).local(), 4) + field_head(field_type, key@, 0, 0),
            ),
            final(self).inner.state().at_end(),
    {
        let ghost s0 = old(self).inner.state();
        let ghost pad0 = padding(old(self).local(), 4);
        let ghost key_bytes = utf16z(key@);
        let ghost pad1 = padding(6 + key_bytes.len(), 4);
        let ghost ty = le16(field_type.spec_id());
        proof {
            old(self).inner.lemma_cursor_in_content();
            lemma_pad_len(old(self).local(), 4);
            lemma_pad_len(6 + key_bytes.len(), 4);
            s0.lemma_skipped_at_end(pad0.len());
        }
        self.align_to(4);
        proof {
            s0.lemma_appended_wrote(pad0, le16(0));
        }
        let field_start = self.reserve_u16();
        proof {
            s0.lemma_appended_wrote(pad0 + le16(0), le16(0));
        }
        let value_length_pos = self.reserve_u16();
        proof {
            s0.lemma_appended_wrote(pad0 + le16(0) + le16(0), ty);
        }
        self.write_u16(field_type.id());
        proof {
            s0.lemma_appended_wrote(pad0 + le16(0) + le16(0) + ty, key_bytes);
        }
        self.write_utf16(key);
        proof {
            lemma_pad_len_shift(field_start as nat, 6 + key_bytes.len(), 4);
            s0.lemma_appended_skipped(pad0 + le16(0) + le16(0) + ty + key_bytes, pad1.len());
        }
        self.align_to(4);
        proof {
            assert(pad0 + le16(0) + le16(0) + ty + key_bytes + pad1 =~= pad0 + field_head(
                field_type,
                key@,
                0,
                0,
            ));
        }
        field_start
    }

    /// Writes the value of the record opened at `field_start` and patches
    /// its `wValueLength` word.
    fn put_value(
        &mut self,
        value: FieldValue,
        field_start: usize,
        Ghost(s0): Ghost<WriterState>,
        Ghost(pad0): Ghost<Seq<u8>>,
        Ghost(field_type): Ghost<FieldType>,
        Ghost(key): Ghost<Seq<char>>,
    )
        requires
            old(self).wf(),
            s0.at_end(),
            old(self).start + field_start == s0.content.len() + pad0.len(),
            field_start % 4 == 0,
            old(self).inner.state() == s0.appended(pad0 + field_head(field_type, key, 0, 0)),
            value@.length_word() <= 0xFFFF,
            old(self).inner.state().fits(value@.laid_out().len()),
        ensures
            final(self).wf(),
            final(self).start == old(self).start,
            *final(final(self).inner) == *final(old(self).inner),
            final(self).inner.state() == s0.appended(
                pad0 + field_head(field_type, key, 0, value@.length_word() as u16)
                    + value@.laid_out(),
            ),
    {
        let ghost vl = value@.length_word() as u16;
        let ghost laid = value@.laid_out();
        let ghost head = pad0 + field_head(field_type, key, 0, 0);
        let ghost headv = pad0 + field_head(field_type, key, 0, vl);
        proof {
            lemma_field_head(field_type, key, 0, 0);
            lemma_field_head(field_type, key, 0, vl);
            self.inner.lemma_cursor_in_content();
        }
        match value {
            FieldValue::Absent => {
                proof {
                    lemma_concat_assoc(pad0, field_head(field_type, key, 0, 0), Seq::empty());
                    assert(field_head(field_type, key, 0, 0) + Seq::<u8>::empty()
                        =~= field_head(field_type, key, 0, 0));
                }
            },
            FieldValue::Header(bytes) => {
                let header_start = self.pos();
                proof {
                    lemma_pad_len(bytes@.len(), 4);
                    lemma_pad_len_shift(header_start as nat, bytes@.len(), 4);
                    s0.lemma_appended_wrote(head, bytes@);
                    lemma_patch_value_length(pad0, field_type, key, vl, bytes@);
                    s0.lemma_appended_patched(
                        head + bytes@,
                        (self.start + field_start + 2) as nat,
                        pad0.len() + 2,
                        le16(vl),
                    );
                    s0.lemma_appended_skipped(headv + bytes@, pad_len(bytes@.len(), 4));
                    lemma_concat_assoc(headv, bytes@, padding(bytes@.len(), 4));
                }
                self.write_bytes(bytes.as_slice());
                let header_length = self.pos() - header_start;
                self.update_u16(field_start + 2, header_length as u16);
                self.align_to(4);
            },
            FieldValue::Other(i) => {
                proof {
                    lemma_patch_value_length(pad0, field_type, key, vl, Seq::empty());
                    assert(head + Seq::<u8>::empty() =~= head);
                    assert(headv + Seq::<u8>::empty() =~= headv);
                    s0.lemma_appended_patched(
                        head,
                        (self.start + field_start + 2) as nat,
                        pad0.len() + 2,
                        le16(vl),
                    );
                }
                self.update_u16(field_start + 2, i);
            },
        }
    }

    /// Writes one record: padding to a multiple of four, then
    /// [`field_bytes`] of the arguments. The first word of the record holds
    /// its size, and the third its type.
    pub fn write_field(&mut self, field_type: FieldType, key: &str, value: FieldValue, body: &[u8])
        requires
            old(self).wf(),
            old(self).inner.state().at_end(),
            field_len(key@, value@, body@) <= 0xFFFF,
            old(self).inner.state().fits(
                pad_len(old(self).local(), 4) + field_len(key@, value@, body@),
            ),
        ensures
            final(self).wf(),
            final(self).start == old(self).start,
            *final(final(self).inner) == *final(old(self).inner),
            final(self).inner.state() == old(self).inner.state().appended(
                padding(old(self).local(), 4) + field_bytes(field_type, key@, value@, body@),
            ),
            final(self).local() == old(self).local() + pad_len(old(self).local(), 4) + field_len(
                key@,
                value@,
                body@,
            ),
            read16(field_bytes(field_type, key@, value@, body@), 0) == field_len(
                key@,
                value@,
                body@,
            ),
            read16(field_bytes(field_type, key@, value@, body@), 4) == field_type.spec_id(),
    {
        let ghost s0 = old(self).inner.state();
        let ghost pad0 = padding(old(self).local(), 4);
        let ghost vl = value@.length_word() as u16;
        proof {
            lemma_field_length_words(field_type, key@, value@, body@);
            lemma_field_bytes_len(field_type, key@, value@, body@);
        }
        let ghost total = field_len(key@, value@, body@) as u16;
        let ghost laid = value@.laid_out();
        let ghost headv = pad0 + field_head(field_type, key@, 0, vl);
        proof {
            lemma_pad_len(old(self).local(), 4);
            lemma_field_head(field_type, key@, 0, 0);
            lemma_field_head(field_type, key@, 0, vl);
            old(self).inner.lemma_cursor_in_content();
        }
        let field_start = self.begin_field(field_type, key);
        self.put_value(value, field_start, Ghost(s0), Ghost(pad0), Ghost(field_type), Ghost(key@));
        proof {
            let full = field_head(field_type, key@, total, vl);
            s0.lemma_appended_wrote(headv + laid, body@);
            lemma_patch_length(pad0, field_type, key@, total, vl, laid + body@);
            lemma_concat_assoc(headv, laid, body@);
            s0.lemma_appended_patched(
                headv + laid + body@,
                (self.start + field_start) as nat,
                pad0.len(),
                le16(total),
            );
            lemma_concat_assoc(pad0 + full, laid, body@);
            lemma_concat_assoc(pad0, full, laid);
            lemma_concat_assoc(pad0, full + laid, body@);
        }
        self.write_bytes(body);
        let field_length = self.pos() - field_start;
        self.update_u16(field_start, field_length as u16);
    }
}

} // verus!
