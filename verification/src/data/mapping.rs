//! Key/value mappings, kept sorted by key so that equal mappings have equal
//! representations and the wire form comes out in canonical order.
//!
//! A hash map is not used: vstd describes hash maps only for keys whose
//! hashing it knows, which are the primitive types, so that nothing could
//! be proved of a map that is keyed by text.

use vstd::prelude::*;

use crate::data::I2PString;

verus! {

/// Lexicographic order on byte strings: `a` comes strictly before `b`.
pub open spec fn bytes_lt(a: Seq<u8>, b: Seq<u8>) -> bool
    decreases a.len(),
{
    if b.len() == 0 {
        false
    } else if a.len() == 0 {
        true
    } else if a[0] < b[0] {
        true
    } else if a[0] > b[0] {
        false
    } else {
        bytes_lt(a.skip(1), b.skip(1))
    }
}

pub proof fn lemma_lt_irreflexive(a: Seq<u8>)
    ensures
        !bytes_lt(a, a),
    decreases a.len(),
{
    if a.len() > 0 {
        lemma_lt_irreflexive(a.skip(1));
    }
}

pub proof fn lemma_lt_transitive(a: Seq<u8>, b: Seq<u8>, c: Seq<u8>)
    requires
        bytes_lt(a, b),
        bytes_lt(b, c),
    ensures
        bytes_lt(a, c),
    decreases a.len(),
{
    if a.len() > 0 && b.len() > 0 && c.len() > 0 {
        if a[0] == b[0] && b[0] == c[0] {
            lemma_lt_transitive(a.skip(1), b.skip(1), c.skip(1));
        }
    }
}

pub proof fn lemma_lt_total(a: Seq<u8>, b: Seq<u8>)
    ensures
        bytes_lt(a, b) || a == b || bytes_lt(b, a),
    decreases a.len(),
{
    if a.len() == 0 || b.len() == 0 {
        if a.len() == 0 && b.len() == 0 {
            assert(a =~= b);
        }
    } else if a[0] == b[0] {
        lemma_lt_total(a.skip(1), b.skip(1));
        if a.skip(1) == b.skip(1) {
            assert(a =~= seq![a[0]] + a.skip(1));
            assert(b =~= seq![b[0]] + b.skip(1));
        }
    }
}

/// How two byte strings stand to each other.
#[derive(Clone, Copy, Debug, PartialEq, Eq, Structural)]
pub enum Order {
    Before,
    Same,
    After,
}

/// Compares two byte strings lexicographically.
pub fn compare_bytes(a: &[u8], b: &[u8]) -> (r: Order)
    ensures
        r == Order::Before <==> bytes_lt(a@, b@),
        r == Order::Same <==> a@ == b@,
        r == Order::After <==> bytes_lt(b@, a@),
{
    let mut i: usize = 0;
    proof {
        assert(a@.skip(0) =~= a@);
        assert(b@.skip(0) =~= b@);
    }
    while i < a.len() && i < b.len()
        invariant
            i <= a@.len(),
            i <= b@.len(),
            a@.subrange(0, i as int) == b@.subrange(0, i as int),
            bytes_lt(a@, b@) == bytes_lt(a@.skip(i as int), b@.skip(i as int)),
            bytes_lt(b@, a@) == bytes_lt(b@.skip(i as int), a@.skip(i as int)),
        decreases a@.len() - i,
    {
        let ghost ta = a@.skip(i as int);
        let ghost tb = b@.skip(i as int);
        proof {
            assert(ta[0] == a@[i as int]);
            assert(tb[0] == b@[i as int]);
            assert(ta.skip(1) =~= a@.skip(i + 1));
            assert(tb.skip(1) =~= b@.skip(i + 1));
        }
        if a[i] < b[i] {
            proof {
                assert(a@ != b@);
                lemma_differ_not_both(a@, b@);
            }
            return Order::Before;
        }
        if a[i] > b[i] {
            proof {
                assert(a@ != b@);
                lemma_differ_not_both(a@, b@);
            }
            return Order::After;
        }
        proof {
            assert(a@.subrange(0, i + 1) =~= a@.subrange(0, i as int).push(a@[i as int]));
            assert(b@.subrange(0, i + 1) =~= b@.subrange(0, i as int).push(b@[i as int]));
        }
        i += 1;
    }
    proof {
        lemma_differ_not_both(a@, b@);
        lemma_lt_irreflexive(a@);
    }
    if a.len() < b.len() {
        Order::Before
    } else if a.len() > b.len() {
        Order::After
    } else {
        proof {
            assert(a@ =~= a@.subrange(0, i as int));
            assert(b@ =~= b@.subrange(0, i as int));
        }
        Order::Same
    }
}

/// No two byte strings come before each other.
pub proof fn lemma_differ_not_both(a: Seq<u8>, b: Seq<u8>)
    ensures
        !(bytes_lt(a, b) && bytes_lt(b, a)),
{
    if bytes_lt(a, b) && bytes_lt(b, a) {
        lemma_lt_transitive(a, b, a);
        lemma_lt_irreflexive(a);
    }
}

/// One entry of a mapping: the bytes of its key and of its value.
pub type Pair = (Seq<u8>, Seq<u8>);

/// The keys come in strictly increasing order, so no key occurs twice.
pub open spec fn spec_sorted(v: Seq<Pair>) -> bool {
    forall|i: int, j: int| 0 <= i < j < v.len() ==> bytes_lt(#[trigger] v[i].0, #[trigger] v[j].0)
}

/// The value that `v` holds for `key`, if any.
pub open spec fn spec_lookup(v: Seq<Pair>, key: Seq<u8>) -> Option<Seq<u8>>
    decreases v.len(),
{
    if v.len() == 0 {
        None
    } else if v[0].0 == key {
        Some(v[0].1)
    } else {
        spec_lookup(v.skip(1), key)
    }
}

/// `v` with `value` stored under `key`: in place of the old value where the
/// key was there, else at the place that keeps the keys in order.
pub open spec fn spec_insert(v: Seq<Pair>, key: Seq<u8>, value: Seq<u8>) -> Seq<Pair>
    decreases v.len(),
{
    if v.len() == 0 {
        seq![(key, value)]
    } else if v[0].0 == key {
        seq![(key, value)] + v.skip(1)
    } else if bytes_lt(key, v[0].0) {
        seq![(key, value)] + v
    } else {
        seq![v[0]] + spec_insert(v.skip(1), key, value)
    }
}

/// All of `pairs` stored into `acc`, the first one first.
pub open spec fn spec_insert_all(acc: Seq<Pair>, pairs: Seq<Pair>) -> Seq<Pair>
    decreases pairs.len(),
{
    if pairs.len() == 0 {
        acc
    } else {
        spec_insert_all(spec_insert(acc, pairs[0].0, pairs[0].1), pairs.skip(1))
    }
}

/// Insertion passes over a run of smaller keys.
pub proof fn lemma_insert_skips(v: Seq<Pair>, key: Seq<u8>, value: Seq<u8>, i: int)
    requires
        0 <= i <= v.len(),
        forall|j: int| 0 <= j < i ==> bytes_lt(#[trigger] v[j].0, key),
    ensures
        spec_insert(v, key, value) == v.subrange(0, i) + spec_insert(v.skip(i), key, value),
    decreases i,
{
    if i == 0 {
        assert(v.skip(0) =~= v);
        assert(v.subrange(0, 0) + spec_insert(v, key, value) =~= spec_insert(v, key, value));
    } else {
        assert(bytes_lt(v[0].0, key));
        lemma_lt_irreflexive(key);
        lemma_differ_not_both(v[0].0, key);
        let w = v.skip(1);
        assert forall|j: int| 0 <= j < i - 1 implies bytes_lt(#[trigger] w[j].0, key) by {
            assert(w[j] == v[j + 1]);
        }
        lemma_insert_skips(w, key, value, i - 1);
        assert(w.skip(i - 1) =~= v.skip(i));
        assert(seq![v[0]] + (w.subrange(0, i - 1) + spec_insert(v.skip(i), key, value))
            =~= v.subrange(0, i) + spec_insert(v.skip(i), key, value));
    }
}

/// A key larger than all others goes to the end.
pub proof fn lemma_insert_last(v: Seq<Pair>, key: Seq<u8>, value: Seq<u8>)
    requires
        forall|j: int| 0 <= j < v.len() ==> bytes_lt(#[trigger] v[j].0, key),
    ensures
        spec_insert(v, key, value) == v.push((key, value)),
{
    lemma_insert_skips(v, key, value, v.len() as int);
    assert(v.skip(v.len() as int) =~= Seq::<Pair>::empty());
    assert(v.subrange(0, v.len() as int) =~= v);
}

/// Storing pairs that are already in order, after all that is there, only
/// appends them.
pub proof fn lemma_insert_all_sorted(acc: Seq<Pair>, pairs: Seq<Pair>)
    requires
        spec_sorted(acc + pairs),
    ensures
        spec_insert_all(acc, pairs) == acc + pairs,
    decreases pairs.len(),
{
    if pairs.len() == 0 {
        assert(acc + pairs =~= acc);
    } else {
        let all = acc + pairs;
        assert forall|j: int| 0 <= j < acc.len() implies bytes_lt(
            #[trigger] acc[j].0,
            pairs[0].0,
        ) by {
            assert(all[j] == acc[j]);
            assert(all[acc.len() as int] == pairs[0]);
        }
        lemma_insert_last(acc, pairs[0].0, pairs[0].1);
        let acc2 = acc.push(pairs[0]);
        assert(acc2 + pairs.skip(1) =~= all);
        lemma_insert_all_sorted(acc2, pairs.skip(1));
    }
}

/// Insertion keeps the keys in order.
#[verifier::rlimit(40)]
pub proof fn lemma_insert_sorted(v: Seq<Pair>, key: Seq<u8>, value: Seq<u8>)
    requires
        spec_sorted(v),
    ensures
        spec_sorted(spec_insert(v, key, value)),
        forall|k: Seq<u8>|
            (forall|j: int| 0 <= j < v.len() ==> bytes_lt(k, #[trigger] v[j].0)) && bytes_lt(k, key)
                ==> (forall|j: int|
                0 <= j < spec_insert(v, key, value).len() ==> bytes_lt(
                    k,
                    #[trigger] spec_insert(v, key, value)[j].0,
                )),
    decreases v.len(),
{
    let r = spec_insert(v, key, value);
    if v.len() == 0 {
    } else if v[0].0 == key {
        assert forall|i: int, j: int| 0 <= i < j < r.len() implies bytes_lt(
            #[trigger] r[i].0,
            #[trigger] r[j].0,
        ) by {
            assert(r[j] == v[j]);
            if i > 0 {
                assert(r[i] == v[i]);
            } else {
                assert(r[0].0 == v[0].0);
            }
        }
    } else if bytes_lt(key, v[0].0) {
        assert forall|i: int, j: int| 0 <= i < j < r.len() implies bytes_lt(
            #[trigger] r[i].0,
            #[trigger] r[j].0,
        ) by {
            assert(r[j] == v[j - 1]);
            if i > 0 {
                assert(r[i] == v[i - 1]);
            } else {
                if j - 1 > 0 {
                    lemma_lt_transitive(key, v[0].0, v[j - 1].0);
                }
            }
        }
    } else {
        let w = v.skip(1);
        assert(spec_sorted(w)) by {
            assert forall|i: int, j: int| 0 <= i < j < w.len() implies bytes_lt(
                #[trigger] w[i].0,
                #[trigger] w[j].0,
            ) by {
                assert(w[i] == v[i + 1]);
                assert(w[j] == v[j + 1]);
            }
        }
        lemma_insert_sorted(w, key, value);
        let rw = spec_insert(w, key, value);
        lemma_lt_total(key, v[0].0);
        assert(bytes_lt(v[0].0, key));
        assert forall|j: int| 0 <= j < w.len() implies bytes_lt(v[0].0, #[trigger] w[j].0) by {
            assert(w[j] == v[j + 1]);
        }
        assert forall|i: int, j: int| 0 <= i < j < r.len() implies bytes_lt(
            #[trigger] r[i].0,
            #[trigger] r[j].0,
        ) by {
            assert(r[j] == rw[j - 1]);
            if i > 0 {
                assert(r[i] == rw[i - 1]);
            } else {
                assert(r[0] == v[0]);
            }
        }
    }
    assert forall|k: Seq<u8>|
        (forall|j: int| 0 <= j < v.len() ==> bytes_lt(k, #[trigger] v[j].0)) && bytes_lt(
            k,
            key,
        ) implies (forall|j: int| 0 <= j < r.len() ==> bytes_lt(k, #[trigger] r[j].0)) by {
        lemma_insert_bounded_below(v, key, value, k);
    }
}

/// What comes before the new key and before all old keys comes before all
/// keys after the insertion.
pub proof fn lemma_insert_bounded_below(v: Seq<Pair>, key: Seq<u8>, value: Seq<u8>, k: Seq<u8>)
    requires
        forall|j: int| 0 <= j < v.len() ==> bytes_lt(k, #[trigger] v[j].0),
        bytes_lt(k, key),
    ensures
        forall|j: int|
            0 <= j < spec_insert(v, key, value).len() ==> bytes_lt(
                k,
                #[trigger] spec_insert(v, key, value)[j].0,
            ),
    decreases v.len(),
{
    let r = spec_insert(v, key, value);
    if v.len() == 0 {
    } else if v[0].0 == key {
        assert forall|j: int| 0 <= j < r.len() implies bytes_lt(k, #[trigger] r[j].0) by {
            if j > 0 {
                assert(r[j] == v[j]);
            }
        }
    } else if bytes_lt(key, v[0].0) {
        assert forall|j: int| 0 <= j < r.len() implies bytes_lt(k, #[trigger] r[j].0) by {
            if j > 0 {
                assert(r[j] == v[j - 1]);
            }
        }
    } else {
        let w = v.skip(1);
        assert forall|j: int| 0 <= j < w.len() implies bytes_lt(k, #[trigger] w[j].0) by {
            assert(w[j] == v[j + 1]);
        }
        lemma_insert_bounded_below(w, key, value, k);
        let rw = spec_insert(w, key, value);
        assert forall|j: int| 0 <= j < r.len() implies bytes_lt(k, #[trigger] r[j].0) by {
            if j > 0 {
                assert(r[j] == rw[j - 1]);
            } else {
                assert(r[0] == v[0]);
            }
        }
    }
}

/// After an insertion the key has the new value, and every other key has
/// what it had.
pub proof fn lemma_lookup_insert(v: Seq<Pair>, key: Seq<u8>, value: Seq<u8>, other: Seq<u8>)
    ensures
        spec_lookup(spec_insert(v, key, value), key) == Some(value),
        other != key ==> spec_lookup(spec_insert(v, key, value), other) == spec_lookup(v, other),
    decreases v.len(),
{
    let r = spec_insert(v, key, value);
    if v.len() == 0 {
        assert(r.skip(1) =~= v);
    } else if v[0].0 == key {
        assert(r.skip(1) =~= v.skip(1));
    } else if bytes_lt(key, v[0].0) {
        assert(r.skip(1) =~= v);
    } else {
        lemma_lookup_insert(v.skip(1), key, value, other);
        assert(r.skip(1) =~= spec_insert(v.skip(1), key, value));
    }
}

/// A set of key/value mappings or properties.
#[derive(Clone, Debug, PartialEq, Eq)]
pub struct Mapping(pub Vec<(I2PString, I2PString)>);

impl View for Mapping {
    type V = Seq<Pair>;

    open spec fn view(&self) -> Seq<Pair> {
        self.0@.map_values(|p: (I2PString, I2PString)| (p.0@, p.1@))
    }
}

impl Mapping {
    /// The entries are in canonical order.
    pub open spec fn wf(&self) -> bool {
        spec_sorted(self@)
    }

    /// A mapping without entries.
    pub fn new() -> (m: Mapping)
        ensures
            m@ == Seq::<Pair>::empty(),
            m.wf(),
    {
        let m = Mapping(Vec::new());
        assert(m@ =~= Seq::<Pair>::empty());
        m
    }

    /// Whether the entries are in canonical order.
    pub fn is_wf(&self) -> (r: bool)
        ensures
            r == self.wf(),
    {
        if self.0.len() < 2 {
            return true;
        }
        let mut i: usize = 1;
        while i < self.0.len()
            invariant
                1 <= i <= self.0@.len(),
                self@.len() == self.0@.len(),
                forall|a: int, b: int|
                    0 <= a < b < i ==> bytes_lt(#[trigger] self@[a].0, #[trigger] self@[b].0),
            decreases self.0@.len() - i,
        {
            let order = compare_bytes(
                self.0[i - 1].0.0.as_str().as_bytes(),
                self.0[i].0.0.as_str().as_bytes(),
            );
            if order != Order::Before {
                assert(!bytes_lt(self@[i - 1].0, self@[i as int].0));
                return false;
            }
            proof {
                assert forall|a: int, b: int| 0 <= a < b < i + 1 implies bytes_lt(
                    #[trigger] self@[a].0,
                    #[trigger] self@[b].0,
                ) by {
                    if b == i && a < i - 1 {
                        lemma_lt_transitive(self@[a].0, self@[i - 1].0, self@[i as int].0);
                    }
                }
            }
            i += 1;
        }
        true
    }

    /// The number of entries.
    pub fn len(&self) -> (n: usize)
        ensures
            n == self@.len(),
    {
        self.0.len()
    }

    /// The value stored under `key`.
    pub fn get(&self, key: &I2PString) -> (r: Option<&I2PString>)
        ensures
            match r {
                Some(value) => spec_lookup(self@, key@) == Some(value@),
                None => spec_lookup(self@, key@) is None,
            },
    {
        let mut i: usize = 0;
        proof {
            assert(self@.skip(0) =~= self@);
        }
        while i < self.0.len()
            invariant
                i <= self.0@.len(),
                self@.len() == self.0@.len(),
                spec_lookup(self@, key@) == spec_lookup(self@.skip(i as int), key@),
            decreases self.0@.len() - i,
        {
            let ghost tail = self@.skip(i as int);
            proof {
                assert(tail[0] == self@[i as int]);
                assert(tail.skip(1) =~= self@.skip(i + 1));
            }
            let same = compare_bytes(
                self.0[i].0.0.as_str().as_bytes(),
                key.0.as_str().as_bytes(),
            );
            if same == Order::Same {
                return Some(&self.0[i].1);
            }
            i += 1;
        }
        None
    }

    /// Stores `value` under `key`, in place of what was stored there.
    #[verifier::rlimit(40)]
    pub fn insert(&mut self, key: I2PString, value: I2PString)
        ensures
            final(self)@ == spec_insert(old(self)@, key@, value@),
            old(self).wf() ==> final(self).wf(),
    {
        let mut i: usize = 0;
        let ghost v = self@;
        while i < self.0.len()
            invariant
                i <= self.0@.len(),
                self@ == v,
                *self == *old(self),
                forall|j: int| 0 <= j < i ==> bytes_lt(#[trigger] v[j].0, key@),
            decreases self.0@.len() - i,
        {
            let order = compare_bytes(
                self.0[i].0.0.as_str().as_bytes(),
                key.0.as_str().as_bytes(),
            );
            match order {
                Order::Before => {
                    i += 1;
                },
                Order::Same => {
                    proof {
                        lemma_insert_skips(v, key@, value@, i as int);
                        let tail = v.skip(i as int);
                        assert(tail[0] == v[i as int]);
                        assert(tail.skip(1) =~= v.skip(i + 1));
                    }
                    self.0[i] = (key, value);
                    proof {
                        assert(self@ =~= v.subrange(0, i as int) + (seq![(key@, value@)] + v.skip(
                            i + 1,
                        )));
                        if spec_sorted(v) {
                            lemma_insert_sorted(v, key@, value@);
                        }
                    }
                    return ;
                },
                Order::After => {
                    proof {
                        lemma_insert_skips(v, key@, value@, i as int);
                        let tail = v.skip(i as int);
                        assert(tail[0] == v[i as int]);
                        lemma_differ_not_both(key@, v[i as int].0);
                    }
                    self.0.insert(i, (key, value));
                    proof {
                        assert(self@ =~= v.subrange(0, i as int) + (seq![(key@, value@)] + v.skip(
                            i as int,
                        )));
                        if spec_sorted(v) {
                            lemma_insert_sorted(v, key@, value@);
                        }
                    }
                    return ;
                },
            }
        }
        proof {
            lemma_insert_last(v, key@, value@);
            if spec_sorted(v) {
                lemma_insert_sorted(v, key@, value@);
            }
        }
        self.0.push((key, value));
        proof {
            assert(self@ =~= v.push((key@, value@)));
        }
    }
}

} // verus!
