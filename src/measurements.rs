//! The in-memory state: the gateway's bookkeeping and the latest reading of
//! every sensor, kept in ascending order of the sensor identifier.

use vstd::prelude::*;
use vstd::utf8::{encode_utf8, encode_utf8_decode_utf8};
use crate::reading::{
    advertisement_candidates, decode_advertisement, last_reading, rejected_payloads, AdvertisementDecode, Reading,
};
use crate::rw_message::{GwMessage, TagMessage};

verus! {

/// Byte-wise lexicographic order, the order of `str`.
pub open spec fn bytes_lt(a: Seq<u8>, b: Seq<u8>) -> bool
    decreases a.len(),
{
    if a.len() == 0 {
        b.len() > 0
    } else if b.len() == 0 {
        false
    } else if a[0] != b[0] {
        a[0] < b[0]
    } else {
        bytes_lt(a.drop_first(), b.drop_first())
    }
}

/// The order of sensor identifiers: that of their UTF-8 bytes.
pub open spec fn key_lt(a: Seq<char>, b: Seq<char>) -> bool {
    bytes_lt(encode_utf8(a), encode_utf8(b))
}

proof fn lemma_bytes_lt_irreflexive(a: Seq<u8>)
    ensures
        !bytes_lt(a, a),
    decreases a.len(),
{
    if a.len() > 0 {
        lemma_bytes_lt_irreflexive(a.drop_first());
    }
}

proof fn lemma_bytes_lt_transitive(a: Seq<u8>, b: Seq<u8>, c: Seq<u8>)
    requires
        bytes_lt(a, b),
        bytes_lt(b, c),
    ensures
        bytes_lt(a, c),
    decreases a.len(),
{
    if a.len() > 0 && b.len() > 0 && c.len() > 0 && a[0] == b[0] && b[0] == c[0] {
        lemma_bytes_lt_transitive(a.drop_first(), b.drop_first(), c.drop_first());
    }
}

proof fn lemma_bytes_lt_total(a: Seq<u8>, b: Seq<u8>)
    requires
        a != b,
    ensures
        bytes_lt(a, b) || bytes_lt(b, a),
    decreases a.len(),
{
    if a.len() > 0 && b.len() > 0 && a[0] == b[0] {
        if a.drop_first() == b.drop_first() {
            assert(a =~= seq![a[0]] + a.drop_first());
            assert(b =~= seq![b[0]] + b.drop_first());
        }
        lemma_bytes_lt_total(a.drop_first(), b.drop_first());
    } else if a.len() == 0 && b.len() == 0 {
        assert(a =~= b);
    }
}

proof fn lemma_key_lt_irreflexive(a: Seq<char>)
    ensures
        !key_lt(a, a),
{
    lemma_bytes_lt_irreflexive(encode_utf8(a));
}

proof fn lemma_key_lt_transitive(a: Seq<char>, b: Seq<char>, c: Seq<char>)
    requires
        key_lt(a, b),
        key_lt(b, c),
    ensures
        key_lt(a, c),
{
    lemma_bytes_lt_transitive(encode_utf8(a), encode_utf8(b), encode_utf8(c));
}

proof fn lemma_key_lt_total(a: Seq<char>, b: Seq<char>)
    requires
        a != b,
    ensures
        key_lt(a, b) || key_lt(b, a),
{
    encode_utf8_decode_utf8(a);
    encode_utf8_decode_utf8(b);
    lemma_bytes_lt_total(encode_utf8(a), encode_utf8(b));
}

/// Compares two identifiers: negative, zero or positive as `a` sorts before,
/// equal to or after `b`.
pub fn compare_keys(a: &str, b: &str) -> (r: i8)
    ensures
        (r < 0) == key_lt(a@, b@),
        (r == 0) == (a@ == b@),
        (r > 0) == key_lt(b@, a@),
{
    let x = a.as_bytes();
    let y = b.as_bytes();
    let ghost xs = x@;
    let ghost ys = y@;
    proof {
        lemma_key_lt_irreflexive(a@);
        if a@ != b@ {
            lemma_key_lt_total(a@, b@);
        }
        if key_lt(a@, b@) && key_lt(b@, a@) {
            lemma_key_lt_transitive(a@, b@, a@);
        }
        encode_utf8_decode_utf8(a@);
        encode_utf8_decode_utf8(b@);
    }
    assert(xs.subrange(0, xs.len() as int) =~= xs);
    assert(ys.subrange(0, ys.len() as int) =~= ys);
    let mut i: usize = 0;
    while i < x.len() && i < y.len() && x[i] == y[i]
        invariant
            xs == x@,
            ys == y@,
            i <= xs.len(),
            i <= ys.len(),
            xs.subrange(0, i as int) == ys.subrange(0, i as int),
            bytes_lt(xs, ys) == bytes_lt(xs.subrange(i as int, xs.len() as int), ys.subrange(i as int, ys.len() as int)),
            bytes_lt(ys, xs) == bytes_lt(ys.subrange(i as int, ys.len() as int), xs.subrange(i as int, xs.len() as int)),
        decreases xs.len() - i,
    {
        proof {
            let xr = xs.subrange(i as int, xs.len() as int);
            let yr = ys.subrange(i as int, ys.len() as int);
            assert(xr.drop_first() =~= xs.subrange(i + 1, xs.len() as int));
            assert(yr.drop_first() =~= ys.subrange(i + 1, ys.len() as int));
            assert(xs.subrange(0, i + 1) =~= xs.subrange(0, i as int).push(xs[i as int]));
            assert(ys.subrange(0, i + 1) =~= ys.subrange(0, i as int).push(ys[i as int]));
        }
        i = i + 1;
    }
    if i == x.len() && i == y.len() {
        assert(xs =~= xs.subrange(0, i as int));
        assert(ys =~= ys.subrange(0, i as int));
        0
    } else if i == x.len() || (i < y.len() && x[i] < y[i]) {
        proof {
            if xs == ys {
                lemma_bytes_lt_irreflexive(xs);
            }
        }
        -1
    } else {
        proof {
            if xs == ys {
                lemma_bytes_lt_irreflexive(xs);
            }
        }
        1
    }
}

/// The latest record of one sensor.
#[derive(Debug, Clone, Copy, PartialEq, Eq)]
pub struct Tag {
    /// Capture time, in seconds since the Unix epoch.
    pub last_seen: u64,
    /// Signal strength in dBm.
    pub rssi: i32,
    pub values: Reading,
}

/// A store entry as the identifier's characters and the record.
pub type Entry = (Seq<char>, Tag);

/// Identifiers strictly ascending, hence unique.
pub open spec fn keys_sorted(s: Seq<Entry>) -> bool {
    forall|i: int, j: int| 0 <= i < j < s.len() ==> key_lt(#[trigger] s[i].0, #[trigger] s[j].0)
}

/// `s` with the record of `k` set to `v`: replaced where `k` is present,
/// otherwise inserted at its place in the order.
pub open spec fn sorted_insert(s: Seq<Entry>, k: Seq<char>, v: Tag) -> Seq<Entry>
    decreases s.len(),
{
    if s.len() == 0 {
        seq![(k, v)]
    } else if s[0].0 == k {
        seq![(k, v)] + s.drop_first()
    } else if key_lt(k, s[0].0) {
        seq![(k, v)] + s
    } else {
        seq![s[0]] + sorted_insert(s.drop_first(), k, v)
    }
}

/// The record of `k` in `s`, if any.
pub open spec fn entry_for(s: Seq<Entry>, k: Seq<char>) -> Option<Tag> {
    if exists|i: int| 0 <= i < s.len() && s[i].0 == k {
        Some(s[choose|i: int| 0 <= i < s.len() && s[i].0 == k].1)
    } else {
        None
    }
}

proof fn lemma_sorted_insert_contains(s: Seq<Entry>, k: Seq<char>, v: Tag)
    requires
        keys_sorted(s),
    ensures
        keys_sorted(sorted_insert(s, k, v)),
        forall|e: Entry| #[trigger] sorted_insert(s, k, v).contains(e) <==> (e == (k, v) || (
        s.contains(e) && e.0 != k)),
    decreases s.len(),
{
    let r = sorted_insert(s, k, v);
    if s.len() == 0 {
        assert forall|e: Entry| r.contains(e) <==> (e == (k, v) || (s.contains(e) && e.0 != k)) by {
            if r.contains(e) {
                assert(r[0] == e);
            }
            if e == (k, v) {
                assert(r[0] == e);
            }
        }
    } else if s[0].0 == k {
        let t = s.drop_first();
        assert forall|i: int, j: int| 0 <= i < j < r.len() implies key_lt(#[trigger] r[i].0, #[trigger] r[j].0) by {
            assert(r[i].0 == s[i].0);
            assert(r[j].0 == s[j].0);
        }
        assert forall|e: Entry| r.contains(e) <==> (e == (k, v) || (s.contains(e) && e.0 != k)) by {
            if r.contains(e) {
                let i = choose|i: int| 0 <= i < r.len() && r[i] == e;
                if i > 0 {
                    assert(s[i] == e);
                    assert(key_lt(s[0].0, s[i].0));
                    lemma_key_lt_irreflexive(k);
                }
            }
            if e == (k, v) {
                assert(r[0] == e);
            }
            if s.contains(e) && e.0 != k {
                let i = choose|i: int| 0 <= i < s.len() && s[i] == e;
                assert(i > 0);
                assert(r[i] == e);
            }
        }
    } else if key_lt(k, s[0].0) {
        assert forall|i: int, j: int| 0 <= i < j < r.len() implies key_lt(#[trigger] r[i].0, #[trigger] r[j].0) by {
            if i == 0 {
                assert(r[j].0 == s[j - 1].0);
                if j - 1 > 0 {
                    assert(key_lt(s[0].0, s[j - 1].0));
                    lemma_key_lt_transitive(k, s[0].0, s[j - 1].0);
                }
            } else {
                assert(r[i].0 == s[i - 1].0);
                assert(r[j].0 == s[j - 1].0);
            }
        }
        assert forall|e: Entry| r.contains(e) <==> (e == (k, v) || (s.contains(e) && e.0 != k)) by {
            if r.contains(e) {
                let i = choose|i: int| 0 <= i < r.len() && r[i] == e;
                if i > 0 {
                    assert(s[i - 1] == e);
                    if i - 1 > 0 {
                        assert(key_lt(s[0].0, s[i - 1].0));
                        lemma_key_lt_transitive(k, s[0].0, s[i - 1].0);
                    }
                    lemma_key_lt_irreflexive(k);
                }
            }
            if e == (k, v) {
                assert(r[0] == e);
            }
            if s.contains(e) && e.0 != k {
                let i = choose|i: int| 0 <= i < s.len() && s[i] == e;
                assert(r[i + 1] == e);
            }
        }
    } else {
        let t = s.drop_first();
        assert(keys_sorted(t)) by {
            assert forall|i: int, j: int| 0 <= i < j < t.len() implies key_lt(#[trigger] t[i].0, #[trigger] t[j].0) by {
                assert(t[i] == s[i + 1]);
                assert(t[j] == s[j + 1]);
            }
        }
        lemma_sorted_insert_contains(t, k, v);
        let rt = sorted_insert(t, k, v);
        lemma_key_lt_total(k, s[0].0);
        assert(key_lt(s[0].0, k));
        assert forall|i: int, j: int| 0 <= i < j < r.len() implies key_lt(#[trigger] r[i].0, #[trigger] r[j].0) by {
            if i == 0 {
                let e = rt[j - 1];
                assert(rt.contains(e));
                if e != (k, v) {
                    assert(t.contains(e));
                    let q = choose|q: int| 0 <= q < t.len() && t[q] == e;
                    assert(s[q + 1] == e);
                    assert(key_lt(s[0].0, s[q + 1].0));
                }
                assert(r[j] == e);
            } else {
                assert(r[i] == rt[i - 1]);
                assert(r[j] == rt[j - 1]);
            }
        }
        assert forall|e: Entry| r.contains(e) <==> (e == (k, v) || (s.contains(e) && e.0 != k)) by {
            if r.contains(e) {
                let i = choose|i: int| 0 <= i < r.len() && r[i] == e;
                if i > 0 {
                    assert(rt[i - 1] == e);
                    assert(rt.contains(e));
                    if e != (k, v) {
                        assert(t.contains(e));
                        let q = choose|q: int| 0 <= q < t.len() && t[q] == e;
                        assert(s[q + 1] == e);
                    }
                } else {
                    assert(s[0] == e);
                    lemma_key_lt_irreflexive(k);
                }
            }
            if e == (k, v) {
                assert(rt.contains(e));
                let q = choose|q: int| 0 <= q < rt.len() && rt[q] == e;
                assert(r[q + 1] == e);
            }
            if s.contains(e) && e.0 != k {
                let i = choose|i: int| 0 <= i < s.len() && s[i] == e;
                if i == 0 {
                    assert(r[0] == e);
                } else {
                    assert(t[i - 1] == e);
                    assert(t.contains(e));
                    assert(rt.contains(e));
                    let q = choose|q: int| 0 <= q < rt.len() && rt[q] == e;
                    assert(r[q + 1] == e);
                }
            }
        }
    }
}

/// Two tables with ascending identifiers and the same entries are equal.
proof fn lemma_sorted_unique(s1: Seq<Entry>, s2: Seq<Entry>)
    requires
        keys_sorted(s1),
        keys_sorted(s2),
        forall|e: Entry| s1.contains(e) <==> s2.contains(e),
    ensures
        s1 == s2,
    decreases s1.len() + s2.len(),
{
    if s1.len() == 0 {
        if s2.len() > 0 {
            assert(s2.contains(s2[0]));
        }
        assert(s1 =~= s2);
    } else if s2.len() == 0 {
        assert(s1.contains(s1[0]));
    } else {
        assert(s1.contains(s1[0]));
        assert(s2.contains(s2[0]));
        let j = choose|j: int| 0 <= j < s2.len() && s2[j] == s1[0];
        let i = choose|i: int| 0 <= i < s1.len() && s1[i] == s2[0];
        if j > 0 {
            assert(key_lt(s2[0].0, s2[j].0));
            lemma_key_lt_irreflexive(s1[0].0);
            if i > 0 {
                assert(key_lt(s1[0].0, s1[i].0));
                lemma_key_lt_transitive(s1[0].0, s2[0].0, s1[0].0);
            }
        }
        assert(s1[0] == s2[0]);
        let t1 = s1.drop_first();
        let t2 = s2.drop_first();
        assert(keys_sorted(t1)) by {
            assert forall|a: int, b: int| 0 <= a < b < t1.len() implies key_lt(#[trigger] t1[a].0, #[trigger] t1[b].0) by {
                assert(t1[a] == s1[a + 1]);
                assert(t1[b] == s1[b + 1]);
            }
        }
        assert(keys_sorted(t2)) by {
            assert forall|a: int, b: int| 0 <= a < b < t2.len() implies key_lt(#[trigger] t2[a].0, #[trigger] t2[b].0) by {
                assert(t2[a] == s2[a + 1]);
                assert(t2[b] == s2[b + 1]);
            }
        }
        lemma_key_lt_irreflexive(s1[0].0);
        assert forall|e: Entry| t1.contains(e) <==> t2.contains(e) by {
            if t1.contains(e) {
                let q = choose|q: int| 0 <= q < t1.len() && t1[q] == e;
                assert(s1[q + 1] == e);
                assert(key_lt(s1[0].0, s1[q + 1].0));
                assert(s1.contains(e));
                let m = choose|m: int| 0 <= m < s2.len() && s2[m] == e;
                assert(m != 0);
                assert(t2[m - 1] == e);
            }
            if t2.contains(e) {
                let q = choose|q: int| 0 <= q < t2.len() && t2[q] == e;
                assert(s2[q + 1] == e);
                assert(key_lt(s2[0].0, s2[q + 1].0));
                assert(s2.contains(e));
                let m = choose|m: int| 0 <= m < s1.len() && s1[m] == e;
                assert(m != 0);
                assert(t1[m - 1] == e);
            }
        }
        lemma_sorted_unique(t1, t2);
        assert(s1 =~= seq![s1[0]] + t1);
        assert(s2 =~= seq![s2[0]] + t2);
    }
}

/// Records of two different sensors give the same table whichever arrives
/// first.
pub proof fn lemma_arrival_order_irrelevant(s: Seq<Entry>, a: Seq<char>, va: Tag, b: Seq<char>, vb: Tag)
    requires
        keys_sorted(s),
        a != b,
    ensures
        sorted_insert(sorted_insert(s, a, va), b, vb) == sorted_insert(sorted_insert(s, b, vb), a, va),
{
    lemma_sorted_insert_contains(s, a, va);
    lemma_sorted_insert_contains(s, b, vb);
    let sa = sorted_insert(s, a, va);
    let sb = sorted_insert(s, b, vb);
    lemma_sorted_insert_contains(sa, b, vb);
    lemma_sorted_insert_contains(sb, a, va);
    let x = sorted_insert(sa, b, vb);
    let y = sorted_insert(sb, a, va);
    assert forall|e: Entry| x.contains(e) <==> y.contains(e) by {
        assert(x.contains(e) == (e == (b, vb) || (sa.contains(e) && e.0 != b)));
        assert(y.contains(e) == (e == (a, va) || (sb.contains(e) && e.0 != a)));
        assert(sa.contains(e) == (e == (a, va) || (s.contains(e) && e.0 != a)));
        assert(sb.contains(e) == (e == (b, vb) || (s.contains(e) && e.0 != b)));
    }
    lemma_sorted_unique(x, y);
}

pub open spec fn entries_of(tags: Seq<(String, Tag)>) -> Seq<Entry> {
    tags.map_values(|p: (String, Tag)| (p.0@, p.1))
}

/// The records of all sensors seen so far, in ascending order of identifier.
pub struct TagTable {
    tags: Vec<(String, Tag)>,
}

impl TagTable {
    pub closed spec fn entries(&self) -> Seq<Entry> {
        entries_of(self.tags@)
    }

    #[verifier::type_invariant]
    spec fn inv(self) -> bool {
        keys_sorted(self.entries())
    }

    /// An empty table.
    pub fn new() -> (r: Self)
        ensures
            r.entries() == Seq::<Entry>::empty(),
    {
        let r = TagTable { tags: Vec::new() };
        assert(r.entries() =~= Seq::<Entry>::empty());
        r
    }

    /// The number of sensors.
    pub fn len(&self) -> (r: usize)
        ensures
            r == self.entries().len(),
    {
        self.tags.len()
    }

    /// The entry at position `i` of the order.
    pub fn entry(&self, i: usize) -> (r: &(String, Tag))
        requires
            i < self.entries().len(),
        ensures
            (r.0@, r.1) == self.entries()[i as int],
    {
        &self.tags[i]
    }

    fn position(&self, id: &str) -> (r: usize)
        ensures
            r <= self.entries().len(),
            forall|j: int| 0 <= j < r ==> key_lt(#[trigger] self.entries()[j].0, id@),
            r < self.entries().len() ==> !key_lt(self.entries()[r as int].0, id@),
    {
        proof {
            use_type_invariant(self);
        }
        let ghost es = self.entries();
        let mut i: usize = 0;
        while i < self.tags.len() && compare_keys(self.tags[i].0.as_str(), id) < 0
            invariant
                es == self.entries(),
                i <= es.len(),
                forall|j: int| 0 <= j < i ==> key_lt(#[trigger] es[j].0, id@),
            decreases es.len() - i,
        {
            i = i + 1;
        }
        i
    }

    /// Whether the sensor has a record.
    pub fn contains_key(&self, id: &str) -> (r: bool)
        ensures
            r == (exists|j: int| 0 <= j < self.entries().len() && self.entries()[j].0 == id@),
    {
        match self.get(id) {
            Some(_) => true,
            None => false,
        }
    }

    /// The record of a sensor.
    pub fn get(&self, id: &str) -> (r: Option<&Tag>)
        ensures
            r is Some <==> (exists|j: int| 0 <= j < self.entries().len() && self.entries()[j].0 == id@),
            r is Some ==> self.entries().contains((id@, *r->0)),
            r is Some ==> entry_for(self.entries(), id@) == Some(*r->0),
    {
        proof {
            use_type_invariant(self);
        }
        let ghost es = self.entries();
        let i = self.position(id);
        if i < self.tags.len() && compare_keys(self.tags[i].0.as_str(), id) == 0 {
            proof {
                assert(es[i as int].0 == id@);
                assert(es.contains((id@, es[i as int].1)));
                let c = choose|j: int| 0 <= j < es.len() && es[j].0 == id@;
                if c != i {
                    if c < i {
                        assert(key_lt(es[c].0, es[i as int].0));
                    } else {
                        assert(key_lt(es[i as int].0, es[c].0));
                    }
                    lemma_key_lt_irreflexive(id@);
                }
            }
            Some(&self.tags[i].1)
        } else {
            proof {
                if exists|j: int| 0 <= j < es.len() && es[j].0 == id@ {
                    let c = choose|j: int| 0 <= j < es.len() && es[j].0 == id@;
                    lemma_key_lt_irreflexive(id@);
                    if c >= i {
                        if c > i {
                            assert(key_lt(es[i as int].0, es[c].0));
                            lemma_key_lt_total(es[i as int].0, id@);
                            lemma_key_lt_transitive(id@, es[i as int].0, id@);
                        }
                    }
                }
            }
            None
        }
    }

    /// Sets the record of a sensor, replacing any earlier one.
    pub fn insert(&mut self, id: String, tag: Tag)
        ensures
            final(self).entries() == sorted_insert(old(self).entries(), id@, tag),
    {
        proof {
            use_type_invariant(&*self);
        }
        let ghost es = self.entries();
        let i = self.position(id.as_str());
        proof {
            lemma_sorted_insert_split(es, id@, tag, i as int);
            lemma_sorted_insert_contains(es, id@, tag);
        }
        let ghost rest = es.subrange(i as int, es.len() as int);
        let mut tags = Vec::new();
        std::mem::swap(&mut tags, &mut self.tags);
        if i < tags.len() && compare_keys(tags[i].0.as_str(), id.as_str()) == 0 {
            proof {
                assert(rest[0].0 == id@);
                assert(rest.drop_first() =~= es.subrange(i + 1, es.len() as int));
            }
            tags.set(i, (id, tag));
            assert(entries_of(tags@) =~= sorted_insert(es, id@, tag));
        } else {
            proof {
                if i < es.len() {
                    lemma_key_lt_total(es[i as int].0, id@);
                    assert(rest[0] == es[i as int]);
                } else {
                    assert(rest =~= Seq::<Entry>::empty());
                }
            }
            tags.insert(i, (id, tag));
            assert(entries_of(tags@) =~= sorted_insert(es, id@, tag));
        }
        self.tags = tags;
    }
}

proof fn lemma_sorted_insert_split(s: Seq<Entry>, k: Seq<char>, v: Tag, i: int)
    requires
        0 <= i <= s.len(),
        forall|j: int| 0 <= j < i ==> key_lt(#[trigger] s[j].0, k),
    ensures
        sorted_insert(s, k, v) == s.subrange(0, i) + sorted_insert(s.subrange(i, s.len() as int), k, v),
    decreases i,
{
    if i == 0 {
        assert(s.subrange(0, s.len() as int) =~= s);
        assert(s.subrange(0, 0) + sorted_insert(s, k, v) =~= sorted_insert(s, k, v));
    } else {
        let t = s.drop_first();
        assert(key_lt(s[0].0, k));
        lemma_key_lt_irreflexive(k);
        if key_lt(k, s[0].0) {
            lemma_key_lt_transitive(k, s[0].0, k);
        }
        assert forall|j: int| 0 <= j < i - 1 implies key_lt(#[trigger] t[j].0, k) by {
            assert(t[j] == s[j + 1]);
        }
        lemma_sorted_insert_split(t, k, v, i - 1);
        assert(t.subrange(i - 1, t.len() as int) =~= s.subrange(i, s.len() as int));
        assert(seq![s[0]] + t.subrange(0, i - 1) =~= s.subrange(0, i));
        assert(sorted_insert(s, k, v) == seq![s[0]] + sorted_insert(t, k, v));
        assert(sorted_insert(s, k, v) =~= s.subrange(0, i) + sorted_insert(s.subrange(i, s.len() as int), k, v));
    }
}

/// The table after one sensor's message: when the advertisement yields a
/// reading, the sensor's record is replaced by it; otherwise nothing changes.
pub open spec fn tag_update(s: Seq<Entry>, name: Seq<char>, data: Seq<u8>, timestamp: u64, rssi: i32) -> Seq<Entry> {
    match last_reading(advertisement_candidates(data)) {
        Some(r) => sorted_insert(s, name, Tag { last_seen: timestamp, rssi, values: r }),
        None => s,
    }
}

/// The table after the sensors' messages, applied in order.
pub open spec fn tags_update(s: Seq<Entry>, msgs: Seq<TagMessage>) -> Seq<Entry>
    decreases msgs.len(),
{
    if msgs.len() == 0 {
        s
    } else {
        let m = msgs.last();
        tag_update(tags_update(s, msgs.drop_last()), m.name@, m.data@, m.timestamp, m.rssi)
    }
}

/// The gateway's bookkeeping and every sensor's latest record.
pub struct Measurements {
    /// Time of the last gateway message, in seconds since the Unix epoch;
    /// zero before the first.
    pub last_update: u64,
    pub last_nonce: Option<u64>,
    /// The gateway's identifier.
    pub mac: String,
    pub tags: TagTable,
}

/// One sensor's message after decoding, ready to be stored.
pub struct DecodedTag {
    pub name: String,
    pub timestamp: u64,
    pub rssi: i32,
    pub outcome: AdvertisementDecode,
}

/// The table after storing a decoded message: its reading, if any, replaces
/// the sensor's record.
pub open spec fn decoded_update(s: Seq<Entry>, d: DecodedTag) -> Seq<Entry> {
    match d.outcome.reading {
        Some(r) => sorted_insert(s, d.name@, Tag { last_seen: d.timestamp, rssi: d.rssi, values: r }),
        None => s,
    }
}

/// The table after storing decoded messages in order.
pub open spec fn decoded_updates(s: Seq<Entry>, ds: Seq<DecodedTag>) -> Seq<Entry>
    decreases ds.len(),
{
    if ds.len() == 0 {
        s
    } else {
        decoded_update(decoded_updates(s, ds.drop_last()), ds.last())
    }
}

/// Whether `d` is what decoding `m` gives.
pub open spec fn decodes_to(m: TagMessage, d: DecodedTag) -> bool {
    &&& d.name@ == m.name@
    &&& d.timestamp == m.timestamp
    &&& d.rssi == m.rssi
    &&& d.outcome.vendor_found == (advertisement_candidates(m.data@).len() > 0)
    &&& d.outcome.reading == last_reading(advertisement_candidates(m.data@))
    &&& d.outcome.rejected@.map_values(|v: Vec<u8>| v@) == rejected_payloads(advertisement_candidates(m.data@))
}

/// Decodes one sensor's message. Needs no access to the store.
pub fn decode_tag(tag: &TagMessage) -> (r: DecodedTag)
    ensures
        decodes_to(*tag, r),
{
    DecodedTag {
        name: tag.name.clone(),
        timestamp: tag.timestamp,
        rssi: tag.rssi,
        outcome: decode_advertisement(tag.data.as_slice()),
    }
}

/// Decodes every sensor's message of a gateway message, in order.
pub fn decode_message(data: &GwMessage) -> (r: Vec<DecodedTag>)
    ensures
        r@.len() == data.tags@.len(),
        forall|i: int| 0 <= i < r@.len() ==> decodes_to(data.tags@[i], #[trigger] r@[i]),
{
    let mut out: Vec<DecodedTag> = Vec::new();
    let mut i: usize = 0;
    while i < data.tags.len()
        invariant
            i <= data.tags@.len(),
            out@.len() == i,
            forall|j: int| 0 <= j < i ==> decodes_to(data.tags@[j], #[trigger] out@[j]),
        decreases data.tags@.len() - i,
    {
        out.push(decode_tag(&data.tags[i]));
        i = i + 1;
    }
    out
}

/// Storing what decoding gives is applying the messages.
proof fn lemma_decoded_updates(s: Seq<Entry>, msgs: Seq<TagMessage>, ds: Seq<DecodedTag>)
    requires
        ds.len() == msgs.len(),
        forall|i: int| 0 <= i < ds.len() ==> decodes_to(msgs[i], #[trigger] ds[i]),
    ensures
        decoded_updates(s, ds) == tags_update(s, msgs),
    decreases ds.len(),
{
    if ds.len() > 0 {
        let n = ds.len() - 1;
        assert(decodes_to(msgs[n], ds[n]));
        assert forall|i: int| 0 <= i < n implies decodes_to(msgs.drop_last()[i], #[trigger] ds.drop_last()[i]) by {
            assert(decodes_to(msgs[i], ds[i]));
        }
        lemma_decoded_updates(s, msgs.drop_last(), ds.drop_last());
    }
}

impl TagTable {
    /// A copy of the table.
    pub fn snapshot(&self) -> (r: TagTable)
        ensures
            r.entries() == self.entries(),
    {
        proof {
            use_type_invariant(self);
        }
        let mut tags: Vec<(String, Tag)> = Vec::new();
        let mut i: usize = 0;
        while i < self.tags.len()
            invariant
                i <= self.tags@.len(),
                tags@.len() == i,
                entries_of(tags@) == self.entries().subrange(0, i as int),
            decreases self.tags@.len() - i,
        {
            let (name, tag) = &self.tags[i];
            tags.push((name.clone(), *tag));
            assert(self.entries()[i as int] == (name@, *tag));
            assert(entries_of(tags@) =~= self.entries().subrange(0, i + 1));
            i = i + 1;
        }
        assert(self.entries().subrange(0, i as int) =~= self.entries());
        TagTable { tags }
    }
}

impl Measurements {
    /// The state before any message: the epoch as update time, no nonce, an
    /// empty gateway identifier and no sensors.
    pub fn new() -> (r: Self)
        ensures
            r.last_update == 0,
            r.last_nonce is None,
            r.mac@ == Seq::<char>::empty(),
            r.tags.entries() == Seq::<Entry>::empty(),
    {
        Measurements { last_update: 0, last_nonce: None, mac: String::new(), tags: TagTable::new() }
    }

    /// A copy of the whole state.
    pub fn snapshot(&self) -> (r: Measurements)
        ensures
            r.last_update == self.last_update,
            r.last_nonce == self.last_nonce,
            r.mac@ == self.mac@,
            r.tags.entries() == self.tags.entries(),
    {
        Measurements {
            last_update: self.last_update,
            last_nonce: self.last_nonce,
            mac: self.mac.clone(),
            tags: self.tags.snapshot(),
        }
    }

    /// Stores a decoded message: its reading, if any, replaces the sensor's
    /// record; without one the record stays as it was.
    pub fn store_tag(&mut self, tag: &DecodedTag)
        ensures
            final(self).last_update == old(self).last_update,
            final(self).last_nonce == old(self).last_nonce,
            final(self).mac@ == old(self).mac@,
            final(self).tags.entries() == decoded_update(old(self).tags.entries(), *tag),
    {
        if let Some(values) = tag.outcome.reading {
            self.tags.insert(tag.name.clone(), Tag { last_seen: tag.timestamp, rssi: tag.rssi, values });
        }
    }

    /// Applies one sensor's message: the last vendor structure that decodes
    /// replaces the sensor's record; without one the record stays as it was.
    pub fn update_tag(&mut self, tag: TagMessage) -> (r: AdvertisementDecode)
        ensures
            final(self).last_update == old(self).last_update,
            final(self).last_nonce == old(self).last_nonce,
            final(self).mac@ == old(self).mac@,
            final(self).tags.entries() == tag_update(
                old(self).tags.entries(),
                tag.name@,
                tag.data@,
                tag.timestamp,
                tag.rssi,
            ),
            r.vendor_found == (advertisement_candidates(tag.data@).len() > 0),
            r.reading == last_reading(advertisement_candidates(tag.data@)),
            r.rejected@.map_values(|v: Vec<u8>| v@) == rejected_payloads(advertisement_candidates(tag.data@)),
    {
        let decoded = decode_tag(&tag);
        self.store_tag(&decoded);
        decoded.outcome
    }

    /// Stores a gateway message whose sensor messages are already decoded:
    /// its time, nonce and identifier replace the gateway's, then each
    /// decoded message is stored in order.
    pub fn store_message(&mut self, timestamp: u64, nonce: u64, gw_mac: String, tags: &Vec<DecodedTag>)
        ensures
            final(self).last_update == timestamp,
            final(self).last_nonce == Some(nonce),
            final(self).mac@ == gw_mac@,
            final(self).tags.entries() == decoded_updates(old(self).tags.entries(), tags@),
    {
        self.last_update = timestamp;
        self.last_nonce = Some(nonce);
        self.mac = gw_mac;
        let ghost start = self.tags.entries();
        let mut i: usize = 0;
        while i < tags.len()
            invariant
                i <= tags@.len(),
                self.last_update == timestamp,
                self.last_nonce == Some(nonce),
                self.mac@ == gw_mac@,
                self.tags.entries() == decoded_updates(start, tags@.subrange(0, i as int)),
            decreases tags@.len() - i,
        {
            self.store_tag(&tags[i]);
            proof {
                let sub = tags@.subrange(0, i + 1);
                assert(sub.drop_last() =~= tags@.subrange(0, i as int));
                assert(sub.last() == tags@[i as int]);
            }
            i = i + 1;
        }
        assert(tags@.subrange(0, i as int) =~= tags@);
    }

    /// Applies a gateway message: its time, nonce and identifier replace the
    /// gateway's, then each sensor's message is applied in order. Returns each
    /// sensor's decoded message, for reporting.
    pub fn post_measurements(&mut self, data: GwMessage) -> (r: Vec<DecodedTag>)
        ensures
            final(self).last_update == data.timestamp,
            final(self).last_nonce == Some(data.nonce),
            final(self).mac@ == data.gw_mac@,
            final(self).tags.entries() == tags_update(old(self).tags.entries(), data.tags@),
            r@.len() == data.tags@.len(),
            forall|i: int| 0 <= i < r@.len() ==> decodes_to(data.tags@[i], #[trigger] r@[i]),
    {
        let decoded = decode_message(&data);
        proof {
            lemma_decoded_updates(self.tags.entries(), data.tags@, decoded@);
        }
        self.store_message(data.timestamp, data.nonce, data.gw_mac, &decoded);
        decoded
    }
}

/// A message without the vendor's data, or whose vendor structures all fail
/// to decode, leaves every record as it was; one that decodes replaces the
/// sender's record wholesale and touches no other.
pub proof fn lemma_failed_message_keeps_records(
    s: Seq<Entry>,
    name: Seq<char>,
    data: Seq<u8>,
    timestamp: u64,
    rssi: i32,
)
    requires
        keys_sorted(s),
    ensures
        last_reading(advertisement_candidates(data)) is None ==> tag_update(s, name, data, timestamp, rssi) == s,
        last_reading(advertisement_candidates(data)) is Some ==> forall|e: Entry|
            #[trigger] tag_update(s, name, data, timestamp, rssi).contains(e) <==> (e == (
                name,
                Tag { last_seen: timestamp, rssi, values: last_reading(advertisement_candidates(data))->0 },
            ) || (s.contains(e) && e.0 != name)),
{
    if let Some(r) = last_reading(advertisement_candidates(data)) {
        lemma_sorted_insert_contains(s, name, Tag { last_seen: timestamp, rssi, values: r });
    }
}

} // verus!
