//! The string table of a version resource: keys in the byte order of their
//! UTF-8 encodings, each key once.

use vstd::prelude::*;
use vstd::utf8::{encode_utf8, encode_utf8_decode_utf8};
use vstd::string::StringSliceAdditionalSpecFns;

verus! {

/// Lexicographic order of byte strings, decided from offset `i` on.
pub open spec fn bytes_lt_from(a: Seq<u8>, b: Seq<u8>, i: int) -> bool
    decreases a.len() - i,
{
    if i < 0 || i >= b.len() {
        false
    } else if i >= a.len() {
        true
    } else if a[i] != b[i] {
        a[i] < b[i]
    } else {
        bytes_lt_from(a, b, i + 1)
    }
}

/// Lexicographic order of byte strings.
pub open spec fn bytes_lt(a: Seq<u8>, b: Seq<u8>) -> bool {
    bytes_lt_from(a, b, 0)
}

/// The order of keys: that of their UTF-8 encodings, byte by byte.
pub open spec fn key_lt(a: Seq<char>, b: Seq<char>) -> bool {
    bytes_lt(encode_utf8(a), encode_utf8(b))
}

proof fn lemma_bytes_lt_from_transitive(a: Seq<u8>, b: Seq<u8>, c: Seq<u8>, i: int)
    requires
        0 <= i,
        bytes_lt_from(a, b, i),
        bytes_lt_from(b, c, i),
    ensures
        bytes_lt_from(a, c, i),
    decreases a.len() - i,
{
    if i < a.len() && a[i] == b[i] && b[i] == c[i] {
        lemma_bytes_lt_from_transitive(a, b, c, i + 1);
    }
}

proof fn lemma_bytes_lt_from_irreflexive(a: Seq<u8>, i: int)
    requires
        0 <= i,
    ensures
        !bytes_lt_from(a, a, i),
    decreases a.len() - i,
{
    if i < a.len() {
        lemma_bytes_lt_from_irreflexive(a, i + 1);
    }
}

proof fn lemma_bytes_lt_from_total(a: Seq<u8>, b: Seq<u8>, i: int)
    requires
        0 <= i <= a.len(),
        i <= b.len(),
        a.take(i) == b.take(i),
        !bytes_lt_from(a, b, i),
        !bytes_lt_from(b, a, i),
    ensures
        a == b,
    decreases a.len() - i,
{
    if i < a.len() && i < b.len() {
        assert(a.take(i + 1) =~= a.take(i).push(a[i]));
        assert(b.take(i + 1) =~= b.take(i).push(b[i]));
        lemma_bytes_lt_from_total(a, b, i + 1);
    } else {
        assert(a.take(i) =~= a);
        assert(b.take(i) =~= b);
    }
}

/// The order of keys is transitive.
pub proof fn lemma_key_lt_transitive(a: Seq<char>, b: Seq<char>, c: Seq<char>)
    requires
        key_lt(a, b),
        key_lt(b, c),
    ensures
        key_lt(a, c),
{
    lemma_bytes_lt_from_transitive(encode_utf8(a), encode_utf8(b), encode_utf8(c), 0);
}

/// No key comes before itself.
pub proof fn lemma_key_lt_irreflexive(a: Seq<char>)
    ensures
        !key_lt(a, a),
{
    lemma_bytes_lt_from_irreflexive(encode_utf8(a), 0);
}

/// Of two different keys one comes before the other.
pub proof fn lemma_key_lt_total(a: Seq<char>, b: Seq<char>)
    requires
        !key_lt(a, b),
        !key_lt(b, a),
    ensures
        a == b,
{
    let x = encode_utf8(a);
    let y = encode_utf8(b);
    assert(x.take(0) =~= y.take(0));
    lemma_bytes_lt_from_total(x, y, 0);
    encode_utf8_decode_utf8(a);
    encode_utf8_decode_utf8(b);
}

/// Whether `a` comes before `b` in the order of keys.
pub fn key_less(a: &str, b: &str) -> (r: bool)
    ensures
        r == key_lt(a@, b@),
{
    let x = a.as_bytes();
    let y = b.as_bytes();
    let mut i: usize = 0;
    while i < x.len() && i < y.len()
        invariant
            i <= x@.len(),
            i <= y@.len(),
            x@ == encode_utf8(a@),
            y@ == encode_utf8(b@),
            bytes_lt_from(x@, y@, i as int) == bytes_lt(x@, y@),
        decreases x@.len() - i,
    {
        if x[i] != y[i] {
            return x[i] < y[i];
        }
        i += 1;
    }
    i < y.len()
}

/// The entries of a table as plain values.
pub type Entries = Seq<(Seq<char>, Seq<char>)>;

/// Whether the keys of `s` ascend strictly.
pub open spec fn sorted(s: Entries) -> bool {
    forall|i: int, j: int| 0 <= i < j < s.len() ==> key_lt(#[trigger] s[i].0, #[trigger] s[j].0)
}

/// The number of leading entries of `s` whose key comes before `key`.
pub open spec fn rank(s: Entries, key: Seq<char>) -> nat
    decreases s.len(),
{
    if s.len() == 0 || !key_lt(s[0].0, key) {
        0
    } else {
        1 + rank(s.skip(1), key)
    }
}

/// Whether `s` binds `key`.
pub open spec fn has_key(s: Entries, key: Seq<char>) -> bool {
    exists|i: int| 0 <= i < s.len() && (#[trigger] s[i]).0 == key
}

/// `s` with `key` bound to `value`: in place of the entry with that key, or
/// as a new entry behind the keys that come before it.
pub open spec fn inserted(s: Entries, key: Seq<char>, value: Seq<char>) -> Entries {
    let i = rank(s, key) as int;
    if i < s.len() && s[i].0 == key {
        s.update(i, (key, value))
    } else {
        s.insert(i, (key, value))
    }
}

proof fn lemma_rank_at(s: Entries, key: Seq<char>, i: int)
    requires
        0 <= i <= s.len(),
        forall|j: int| 0 <= j < i ==> key_lt(#[trigger] s[j].0, key),
        i < s.len() ==> !key_lt(s[i].0, key),
    ensures
        rank(s, key) == i,
    decreases i,
{
    if i > 0 {
        let t = s.skip(1);
        assert forall|j: int| 0 <= j < i - 1 implies key_lt(#[trigger] t[j].0, key) by {
            assert(t[j] == s[j + 1]);
        }
        lemma_rank_at(t, key, i - 1);
    }
}

/// Binding a key in a sorted table leaves it sorted.
pub proof fn lemma_inserted_sorted(s: Entries, key: Seq<char>, value: Seq<char>)
    requires
        sorted(s),
    ensures
        sorted(inserted(s, key, value)),
        rank(s, key) <= s.len(),
        forall|j: int| 0 <= j < rank(s, key) ==> key_lt(#[trigger] s[j].0, key),
        rank(s, key) < s.len() ==> !key_lt(s[rank(s, key) as int].0, key),
{
    lemma_rank_bounds(s, key);
    let i = rank(s, key) as int;
    let r = inserted(s, key, value);
    if i < s.len() && s[i].0 == key {
        assert forall|a: int, b: int| 0 <= a < b < r.len() implies key_lt(
            #[trigger] r[a].0,
            #[trigger] r[b].0,
        ) by {
            assert(r[a].0 == s[a].0);
            assert(r[b].0 == s[b].0);
        }
    } else {
        assert forall|j: int| i <= j < s.len() implies key_lt(key, #[trigger] s[j].0) by {
            if !key_lt(key, s[i].0) {
                lemma_key_lt_total(s[i].0, key);
            }
            if j > i {
                lemma_key_lt_transitive(key, s[i].0, s[j].0);
            }
        }
        assert forall|a: int, b: int| 0 <= a < b < r.len() implies key_lt(
            #[trigger] r[a].0,
            #[trigger] r[b].0,
        ) by {
            if a < i {
                assert(r[a] == s[a]);
            } else if a > i {
                assert(r[a] == s[a - 1]);
            }
            if b < i {
                assert(r[b] == s[b]);
            } else if b > i {
                assert(r[b] == s[b - 1]);
            }
        }
    }
}

proof fn lemma_rank_bounds(s: Entries, key: Seq<char>)
    ensures
        rank(s, key) <= s.len(),
        forall|j: int| 0 <= j < rank(s, key) ==> key_lt(#[trigger] s[j].0, key),
        rank(s, key) < s.len() ==> !key_lt(s[rank(s, key) as int].0, key),
    decreases s.len(),
{
    if s.len() == 0 || !key_lt(s[0].0, key) {
    } else {
        let t = s.skip(1);
        lemma_rank_bounds(t, key);
        assert forall|j: int| 0 <= j < rank(s, key) implies key_lt(#[trigger] s[j].0, key) by {
            if j > 0 {
                assert(s[j] == t[j - 1]);
            }
        }
        if rank(s, key) < s.len() {
            assert(s[rank(s, key) as int] == t[rank(t, key) as int]);
        }
    }
}

/// In a table in order, a key that is bound stands where its rank says;
/// binding a key leaves one entry for it, at that place, and the other
/// entries as many as they were.
pub proof fn lemma_inserted_at_rank(s: Entries, key: Seq<char>, value: Seq<char>)
    requires
        sorted(s),
    ensures
        has_key(s, key) <==> rank(s, key) < s.len() && s[rank(s, key) as int].0 == key,
        rank(s, key) < inserted(s, key, value).len(),
        inserted(s, key, value)[rank(s, key) as int] == (key, value),
        inserted(s, key, value).len() == if has_key(s, key) {
            s.len()
        } else {
            s.len() + 1
        },
{
    lemma_rank_bounds(s, key);
    lemma_key_lt_irreflexive(key);
    let i = rank(s, key) as int;
    if has_key(s, key) {
        let j = choose|j: int| 0 <= j < s.len() && (#[trigger] s[j]).0 == key;
        if j < i {
            assert(key_lt(s[j].0, key));
        } else if j > i {
            assert(key_lt(s[i].0, s[j].0));
        }
    }
}

/// The keys of a table in order are distinct.
pub proof fn lemma_sorted_distinct(s: Entries, i: int, j: int)
    requires
        sorted(s),
        0 <= i < s.len(),
        0 <= j < s.len(),
        i != j,
    ensures
        s[i].0 != s[j].0,
{
    lemma_key_lt_irreflexive(s[i].0);
    if i < j {
        assert(key_lt(s[i].0, s[j].0));
    } else {
        assert(key_lt(s[j].0, s[i].0));
    }
}

/// What a table with a key bound holds: the new binding, and the bindings
/// of the other keys that it held.
pub proof fn lemma_inserted_contains(
    s: Entries,
    key: Seq<char>,
    value: Seq<char>,
    x: (Seq<char>, Seq<char>),
)
    requires
        sorted(s),
    ensures
        inserted(s, key, value).contains(x) <==> x == (key, value) || (s.contains(x) && x.0
            != key),
{
    lemma_rank_bounds(s, key);
    lemma_key_lt_irreflexive(key);
    let i = rank(s, key) as int;
    let r = inserted(s, key, value);
    let replace = i < s.len() && s[i].0 == key;
    assert(r[i] == (key, value));
    if r.contains(x) && x != (key, value) {
        let j = choose|j: int| 0 <= j < r.len() && r[j] == x;
        if replace {
            assert(s[j] == x);
            lemma_sorted_distinct(s, i, j);
        } else if j < i {
            assert(s[j] == x);
            assert(key_lt(s[j].0, key));
        } else {
            assert(s[j - 1] == x);
            if j - 1 > i {
                assert(key_lt(s[i].0, s[j - 1].0));
            }
        }
    }
    if s.contains(x) && x.0 != key {
        let j = choose|j: int| 0 <= j < s.len() && s[j] == x;
        if replace || j < i {
            assert(r[j] == x);
        } else {
            assert(r[j + 1] == x);
        }
    }
}

/// Two tables in order that hold the same bindings are the same.
pub proof fn lemma_sorted_unique(a: Entries, b: Entries)
    requires
        sorted(a),
        sorted(b),
        forall|x: (Seq<char>, Seq<char>)| a.contains(x) <==> b.contains(x),
    ensures
        a == b,
    decreases a.len(),
{
    if a.len() == 0 {
        if b.len() > 0 {
            assert(b.contains(b[0]));
        }
        assert(a =~= b);
    } else {
        assert(a.contains(a[0]));
        let j = choose|j: int| 0 <= j < b.len() && b[j] == a[0];
        assert(b.contains(b[0]));
        let i = choose|i: int| 0 <= i < a.len() && a[i] == b[0];
        lemma_key_lt_irreflexive(a[0].0);
        if j > 0 {
            assert(key_lt(b[0].0, b[j].0));
            if i > 0 {
                assert(key_lt(a[0].0, a[i].0));
                lemma_key_lt_transitive(a[0].0, b[0].0, a[0].0);
            }
        }
        assert(a[0] == b[0]);
        let at = a.skip(1);
        let bt = b.skip(1);
        assert forall|x: (Seq<char>, Seq<char>)| at.contains(x) <==> bt.contains(x) by {
            if at.contains(x) {
                let m = choose|m: int| 0 <= m < at.len() && at[m] == x;
                assert(a[m + 1] == x);
                assert(a.contains(x));
                let n = choose|n: int| 0 <= n < b.len() && b[n] == x;
                if n == 0 {
                    lemma_sorted_distinct(a, 0, m + 1);
                }
                assert(bt[n - 1] == x);
            }
            if bt.contains(x) {
                let m = choose|m: int| 0 <= m < bt.len() && bt[m] == x;
                assert(b[m + 1] == x);
                assert(b.contains(x));
                let n = choose|n: int| 0 <= n < a.len() && a[n] == x;
                if n == 0 {
                    lemma_sorted_distinct(b, 0, m + 1);
                }
                assert(at[n - 1] == x);
            }
        }
        assert(sorted(at)) by {
            assert forall|p: int, q: int| 0 <= p < q < at.len() implies key_lt(
                #[trigger] at[p].0,
                #[trigger] at[q].0,
            ) by {
                assert(at[p] == a[p + 1]);
                assert(at[q] == a[q + 1]);
            }
        }
        assert(sorted(bt)) by {
            assert forall|p: int, q: int| 0 <= p < q < bt.len() implies key_lt(
                #[trigger] bt[p].0,
                #[trigger] bt[q].0,
            ) by {
                assert(bt[p] == b[p + 1]);
                assert(bt[q] == b[q + 1]);
            }
        }
        lemma_sorted_unique(at, bt);
        assert(a =~= seq![a[0]] + at);
        assert(b =~= seq![b[0]] + bt);
    }
}

/// The order in which two keys are bound does not matter: a table is
/// given by its bindings.
pub proof fn lemma_insert_order(
    s: Entries,
    key1: Seq<char>,
    value1: Seq<char>,
    key2: Seq<char>,
    value2: Seq<char>,
)
    requires
        sorted(s),
        key1 != key2,
    ensures
        inserted(inserted(s, key1, value1), key2, value2) == inserted(
            inserted(s, key2, value2),
            key1,
            value1,
        ),
{
    let a1 = inserted(s, key1, value1);
    let a = inserted(a1, key2, value2);
    let b1 = inserted(s, key2, value2);
    let b = inserted(b1, key1, value1);
    lemma_inserted_sorted(s, key1, value1);
    lemma_inserted_sorted(a1, key2, value2);
    lemma_inserted_sorted(s, key2, value2);
    lemma_inserted_sorted(b1, key1, value1);
    assert forall|x: (Seq<char>, Seq<char>)| a.contains(x) <==> b.contains(x) by {
        lemma_inserted_contains(s, key1, value1, x);
        lemma_inserted_contains(a1, key2, value2, x);
        lemma_inserted_contains(s, key2, value2, x);
        lemma_inserted_contains(b1, key1, value1, x);
    }
    lemma_sorted_unique(a, b);
}

/// Strings in the order of their keys, each key once.
#[derive(Debug, Clone)]
pub struct StringTable {
    pub entries: Vec<(String, String)>,
}

impl View for StringTable {
    type V = Entries;

    open spec fn view(&self) -> Entries {
        Seq::new(self.entries@.len(), |i: int| (self.entries@[i].0@, self.entries@[i].1@))
    }
}

impl StringTable {
    /// Whether the keys ascend strictly.
    pub open spec fn wf(&self) -> bool {
        sorted(self@)
    }

    /// The empty table.
    pub fn new() -> (r: Self)
        ensures
            r.wf(),
            r@ == Entries::empty(),
    {
        let r = StringTable { entries: Vec::new() };
        assert(r@ =~= Entries::empty());
        r
    }

    /// The number of entries.
    pub fn len(&self) -> (n: usize)
        ensures
            n == self@.len(),
    {
        self.entries.len()
    }

    /// Binds `key` to `value`; an earlier binding of the key is replaced.
    /// The key then has one entry, behind the keys that come before it.
    pub fn insert(&mut self, key: String, value: String)
        requires
            old(self).wf(),
        ensures
            final(self).wf(),
            final(self)@ == inserted(old(self)@, key@, value@),
            rank(old(self)@, key@) < final(self)@.len(),
            final(self)@[rank(old(self)@, key@) as int] == (key@, value@),
            final(self)@.len() == if has_key(old(self)@, key@) {
                old(self)@.len()
            } else {
                old(self)@.len() + 1
            },
    {
        proof {
            lemma_inserted_at_rank(self@, key@, value@);
        }
        let n = self.entries.len();
        let mut i: usize = 0;
        while i < n && key_less(self.entries[i].0.as_str(), key.as_str())
            invariant
                i <= n,
                n == self.entries@.len(),
                *self == *old(self),
                forall|j: int| 0 <= j < i ==> key_lt(#[trigger] self@[j].0, key@),
            decreases n - i,
        {
            i += 1;
        }
        proof {
            lemma_rank_at(self@, key@, i as int);
            lemma_inserted_sorted(self@, key@, value@);
        }
        if i < n && self.entries[i].0 == key {
            self.entries.set(i, (key, value));
            assert(self@ =~= inserted(old(self)@, key@, value@));
        } else {
            self.entries.insert(i, (key, value));
            assert(self@ =~= inserted(old(self)@, key@, value@));
        }
    }
}

impl Default for StringTable {
    fn default() -> (r: Self)
        ensures
            r.wf(),
            r@ == Entries::empty(),
    {
        StringTable::new()
    }
}

} // verus!
