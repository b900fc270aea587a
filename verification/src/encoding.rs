//! Byte-level vocabulary shared by every emitter: little-endian integers,
//! zero padding, alignment arithmetic and UTF-16 code units.

use vstd::prelude::*;

verus! {

/// The two bytes of `v`, least significant first.
pub open spec fn le16(v: u16) -> Seq<u8> {
    seq![(v % 256) as u8, (v / 256) as u8]
}

/// The four bytes of `v`, least significant first.
pub open spec fn le32(v: u32) -> Seq<u8> {
    seq![
        (v % 256) as u8,
        (v / 256 % 256) as u8,
        (v / 65536 % 256) as u8,
        (v / 16777216) as u8,
    ]
}

/// `n` zero bytes.
pub open spec fn zeros(n: nat) -> Seq<u8> {
    Seq::new(n, |i: int| 0u8)
}

/// Number of padding bytes that bring offset `pos` up to a multiple of `k`.
pub open spec fn pad_len(pos: nat, k: nat) -> nat
    recommends
        k > 0,
{
    ((k - pos % k) % (k as int)) as nat
}

/// The padding that brings a structure of `len` bytes to a multiple of `k`.
pub open spec fn padding(len: nat, k: nat) -> Seq<u8>
    recommends
        k > 0,
{
    zeros(pad_len(len, k))
}

/// `c` with `d` laid over it at offset `at`; where `c` is too short it is
/// continued with zero bytes first.
#[verifier::opaque]
pub open spec fn placed(c: Seq<u8>, at: nat, d: Seq<u8>) -> Seq<u8> {
    Seq::new(
        if c.len() >= at + d.len() {
            c.len()
        } else {
            at + d.len()
        },
        |i: int|
            if at <= i < at + d.len() {
                d[i - at]
            } else if i < c.len() {
                c[i]
            } else {
                0u8
            },
    )
}

/// The little-endian 16-bit value stored at offset `at` of `bytes`.
pub open spec fn read16(bytes: Seq<u8>, at: int) -> int
    recommends
        0 <= at,
        at + 2 <= bytes.len(),
{
    bytes[at] as int + 256 * (bytes[at + 1] as int)
}

/// The little-endian 32-bit value stored at offset `at` of `bytes`.
pub open spec fn read32(bytes: Seq<u8>, at: int) -> int
    recommends
        0 <= at,
        at + 4 <= bytes.len(),
{
    bytes[at] as int + 256 * (bytes[at + 1] as int) + 65536 * (bytes[at + 2] as int) + 16777216 * (
    bytes[at + 3] as int)
}

/// The UTF-16 code units of one character: itself below U+10000, a surrogate
/// pair from there on.
pub open spec fn utf16_char(c: char) -> Seq<u16> {
    let v = c as u32;
    if v < 0x10000 {
        seq![v as u16]
    } else {
        seq![(0xD800 + (v - 0x10000) / 0x400) as u16, (0xDC00 + (v - 0x10000) % 0x400) as u16]
    }
}

/// The UTF-16 code units of a text.
pub open spec fn utf16(s: Seq<char>) -> Seq<u16>
    decreases s.len(),
{
    if s.len() == 0 {
        Seq::empty()
    } else {
        utf16(s.drop_last()) + utf16_char(s.last())
    }
}

/// The bytes of a run of 16-bit units, each little-endian.
pub open spec fn le16_seq(units: Seq<u16>) -> Seq<u8>
    decreases units.len(),
{
    if units.len() == 0 {
        Seq::empty()
    } else {
        le16_seq(units.drop_last()) + le16(units.last())
    }
}

/// A text as null-terminated little-endian UTF-16.
pub open spec fn utf16z(s: Seq<char>) -> Seq<u8> {
    le16_seq(utf16(s)) + le16(0)
}

/// Two bytes written least significant first read back as the value.
pub proof fn lemma_le16_round_trip(v: u16)
    ensures
        le16(v).len() == 2,
        read16(le16(v), 0) == v,
{
}

/// Four bytes written least significant first read back as the value.
pub proof fn lemma_le32_round_trip(v: u32)
    ensures
        le32(v).len() == 4,
        read32(le32(v), 0) == v,
{
}

/// A run of 16-bit units takes two bytes for each.
pub proof fn lemma_le16_seq_len(units: Seq<u16>)
    ensures
        le16_seq(units).len() == 2 * units.len(),
    decreases units.len(),
{
    if units.len() > 0 {
        lemma_le16_seq_len(units.drop_last());
    }
}

/// A text of characters below U+10000 has one UTF-16 unit for each.
pub proof fn lemma_ascii_utf16(s: Seq<char>)
    requires
        forall|i: int| 0 <= i < s.len() ==> (#[trigger] s[i]) as u32 <= 0xFFFF,
    ensures
        utf16(s).len() == s.len(),
        forall|i: int| 0 <= i < s.len() ==> #[trigger] utf16(s)[i] == s[i] as u32 as u16,
    decreases s.len(),
{
    if s.len() > 0 {
        lemma_ascii_utf16(s.drop_last());
        assert forall|i: int| 0 <= i < s.len() implies #[trigger] utf16(s)[i] == s[i] as u32 as u16 by {
            if i < s.len() - 1 {
                assert(utf16(s)[i] == utf16(s.drop_last())[i]);
                assert(s.drop_last()[i] == s[i]);
            }
        }
    }
}

/// Reading inside a part of a sequence reads the sequence itself.
pub proof fn lemma_read_subrange(s: Seq<u8>, a: int, b: int, k: int)
    requires
        0 <= a <= b <= s.len(),
        0 <= k,
        k + 4 <= b - a,
    ensures
        read32(s.subrange(a, b), k) == read32(s, a + k),
        read16(s.subrange(a, b), k) == read16(s, a + k),
{
    let t = s.subrange(a, b);
    assert(t[k] == s[a + k]);
    assert(t[k + 1] == s[a + k + 1]);
    assert(t[k + 2] == s[a + k + 2]);
    assert(t[k + 3] == s[a + k + 3]);
}

/// Concatenation may be bracketed either way.
pub proof fn lemma_concat_assoc(a: Seq<u8>, b: Seq<u8>, c: Seq<u8>)
    ensures
        (a + b) + c == a + (b + c),
{
    assert((a + b) + c =~= a + (b + c));
}

/// Overwriting a part of a sequence replaces that part and nothing else.
pub proof fn lemma_placed_inside(pre: Seq<u8>, was: Seq<u8>, post: Seq<u8>, d: Seq<u8>)
    requires
        was.len() == d.len(),
    ensures
        placed(pre + was + post, pre.len(), d) == pre + d + post,
{
    reveal(placed);
    assert(placed(pre + was + post, pre.len(), d) =~= pre + d + post);
}

/// Padding never exceeds `k - 1` bytes and completes a multiple of `k`.
pub proof fn lemma_pad_len(pos: nat, k: nat)
    requires
        k > 0,
    ensures
        pad_len(pos, k) < k,
        (pos + pad_len(pos, k)) % k == 0,
        pos % k == 0 ==> pad_len(pos, k) == 0,
{
    let r = pos % k;
    if r == 0 {
        assert((k - r) % (k as int) == 0) by (nonlinear_arith)
            requires
                r == 0,
                k > 0,
        ;
    } else {
        assert((k - r) % (k as int) == k - r) by (nonlinear_arith)
            requires
                0 < r < k,
        ;
        assert((pos + (k - r)) % (k as int) == 0) by (nonlinear_arith)
            requires
                r == pos % k,
                0 < r < k,
        ;
    }
}

/// Padding does not depend on a whole number of `k` put in front.
pub proof fn lemma_pad_len_shift(base: nat, pos: nat, k: nat)
    requires
        k > 0,
        base % k == 0,
    ensures
        pad_len(base + pos, k) == pad_len(pos, k),
{
    vstd::arithmetic::div_mod::lemma_add_mod_noop(base as int, pos as int, k as int);
    vstd::arithmetic::div_mod::lemma_mod_twice(pos as int, k as int);
}

/// Overwrites the bytes of `target` from `index` on with `bytes`.
pub fn overwrite(target: &mut Vec<u8>, index: usize, bytes: &[u8])
    requires
        index + bytes@.len() <= old(target)@.len(),
    ensures
        final(target)@ == placed(old(target)@, index as nat, bytes@),
        final(target)@.len() == old(target)@.len(),
{
    let n = bytes.len();
    let mut k: usize = 0;
    while k < n
        invariant
            n == bytes@.len(),
            k <= n,
            index + n <= target.len(),
            target@.len() == old(target)@.len(),
            forall|j: int|
                0 <= j < target@.len() ==> target@[j] == if index <= j < index + k {
                    bytes@[j - index]
                } else {
                    old(target)@[j]
                },
        decreases n - k,
    {
        target[index + k] = bytes[k];
        k += 1;
    }
    proof {
        reveal(placed);
        assert(target@ =~= placed(old(target)@, index as nat, bytes@));
    }
}

/// Appends `n` zero bytes to `target`.
pub fn append_zeros(target: &mut Vec<u8>, n: usize)
    ensures
        final(target)@ == old(target)@ + zeros(n as nat),
        final(target)@ == placed(old(target)@, old(target)@.len() + n as nat, Seq::empty()),
{
    let pad: Vec<u8> = vec![0u8; n];
    target.extend_from_slice(pad.as_slice());
    proof {
        reveal(placed);
        assert(target@ =~= old(target)@ + zeros(n as nat));
        assert(target@ =~= placed(old(target)@, old(target)@.len() + n as nat, Seq::empty()));
    }
}

/// The UTF-16 code units of a text.
pub fn utf16_units(text: &str) -> (r: Vec<u16>)
    ensures
        r@ == utf16(text@),
{
    let mut r: Vec<u16> = Vec::new();
    for c in it: text.chars()
        invariant
            it.seq() == text@,
            r@ == utf16(text@.take(it.index() as int)),
    {
        proof {
            assert(text@.take(it.index() + 1).drop_last() =~= text@.take(it.index() as int));
        }
        let v = c as u32;
        if v < 0x10000 {
            r.push(v as u16);
        } else {
            let t = v - 0x10000;
            r.push((0xD800 + t / 0x400) as u16);
            r.push((0xDC00 + t % 0x400) as u16);
        }
        assert(r@ =~= utf16(text@.take(it.index() + 1)));
    }
    assert(text@.take(text@.len() as int) =~= text@);
    r
}

/// The two bytes of `v`, least significant first.
pub fn u16_le(v: u16) -> (r: [u8; 2])
    ensures
        r@ == le16(v),
{
    let r: [u8; 2] = [(v % 256) as u8, (v / 256) as u8];
    assert(r@ =~= le16(v));
    r
}

/// The four bytes of `v`, least significant first.
pub fn u32_le(v: u32) -> (r: [u8; 4])
    ensures
        r@ == le32(v),
{
    let r: [u8; 4] = [
        (v % 256) as u8,
        (v / 256 % 256) as u8,
        (v / 65536 % 256) as u8,
        (v / 16777216) as u8,
    ];
    assert(r@ =~= le32(v));
    r
}

/// Number of padding bytes that bring offset `pos` up to a multiple of `k`.
pub fn padding_for(pos: usize, k: usize) -> (r: usize)
    requires
        k > 0,
    ensures
        r == pad_len(pos as nat, k as nat),
        r < k,
{
    proof {
        lemma_pad_len(pos as nat, k as nat);
    }
    (k - pos % k) % k
}

} // verus!
