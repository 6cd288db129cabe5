//! Maps and sets keyed by text, kept in the byte order of their keys (the
//! order in which a sorted map walks its keys).

use vstd::prelude::*;
use vstd::string::StringSliceAdditionalSpecFns;
use crate::text::{utf8, lemma_utf8_injective, str_eq};
use crate::search::{first_index, first_index_from, lemma_first_index_from};

verus! {

/// Byte-wise lexicographic order: `a` comes strictly before `b`.
pub open spec fn bytes_lt(a: Seq<u8>, b: Seq<u8>) -> bool
    decreases a.len(),
{
    if a.len() == 0 {
        b.len() > 0
    } else if b.len() == 0 {
        false
    } else if a[0] != b[0] {
        a[0] < b[0]
    } else {
        bytes_lt(a.drop_first(), b.drop_first())
    }
}

pub proof fn lemma_lt_irreflexive(a: Seq<u8>)
    ensures
        !bytes_lt(a, a),
    decreases a.len(),
{
    if a.len() > 0 {
        lemma_lt_irreflexive(a.drop_first());
    }
}

pub proof fn lemma_lt_transitive(a: Seq<u8>, b: Seq<u8>, c: Seq<u8>)
    requires
        bytes_lt(a, b),
        bytes_lt(b, c),
    ensures
        bytes_lt(a, c),
    decreases a.len(),
{
    if a.len() > 0 && b.len() > 0 && c.len() > 0 && a[0] == b[0] && b[0] == c[0] {
        lemma_lt_transitive(a.drop_first(), b.drop_first(), c.drop_first());
    }
}

pub proof fn lemma_lt_total(a: Seq<u8>, b: Seq<u8>)
    ensures
        a == b || bytes_lt(a, b) || bytes_lt(b, a),
    decreases a.len(),
{
    if a.len() > 0 && b.len() > 0 && a[0] == b[0] {
        lemma_lt_total(a.drop_first(), b.drop_first());
        if a.drop_first() == b.drop_first() {
            assert(a =~= seq![a[0]] + a.drop_first());
            assert(b =~= seq![b[0]] + b.drop_first());
        }
    } else if a.len() == 0 && b.len() == 0 {
        assert(a =~= b);
    }
}

pub proof fn lemma_lt_asymmetric(a: Seq<u8>, b: Seq<u8>)
    requires
        bytes_lt(a, b),
    ensures
        !bytes_lt(b, a),
{
    if bytes_lt(b, a) {
        lemma_lt_transitive(a, b, a);
        lemma_lt_irreflexive(a);
    }
}

/// Whether `a` comes strictly before `b` in byte order.
pub fn str_lt(a: &str, b: &str) -> (r: bool)
    ensures
        r == bytes_lt(a.spec_bytes(), b.spec_bytes()),
{
    let x = a.as_bytes();
    let y = b.as_bytes();
    let mut i: usize = 0;
    assert(x@.skip(0) =~= x@);
    assert(y@.skip(0) =~= y@);
    while i < x.len() && i < y.len() && x[i] == y[i]
        invariant
            x@ == a.spec_bytes(),
            y@ == b.spec_bytes(),
            0 <= i <= x@.len(),
            i <= y@.len(),
            bytes_lt(x@, y@) == bytes_lt(x@.skip(i as int), y@.skip(i as int)),
        decreases x@.len() - i,
    {
        assert(x@.skip(i as int).drop_first() =~= x@.skip(i + 1));
        assert(y@.skip(i as int).drop_first() =~= y@.skip(i + 1));
        i = i + 1;
    }
    if i == x.len() {
        i < y.len()
    } else if i == y.len() {
        false
    } else {
        x[i] < y[i]
    }
}

/// Entries in strictly increasing key order.
pub open spec fn sorted_keys<V>(es: Seq<(Seq<char>, V)>) -> bool {
    forall|i: int, j: int| 0 <= i < j < es.len() ==> bytes_lt(utf8(#[trigger] es[i].0), utf8(#[trigger] es[j].0))
}

pub open spec fn key_is<V>(key: Seq<char>) -> spec_fn((Seq<char>, V)) -> bool {
    |e: (Seq<char>, V)| e.0 == key
}

/// The value of the first entry under `key`.
pub open spec fn lookup_in<V>(es: Seq<(Seq<char>, V)>, key: Seq<char>) -> Option<V> {
    let i = first_index(es, key_is(key));
    if i >= 0 { Some(es[i].1) } else { None }
}

/// A map from text keys to values, walked in byte order of its keys.
#[derive(Debug, PartialEq, Eq)]
pub struct StrMap<V> {
    entries: Vec<(String, V)>,
}

impl<V> StrMap<V> {
    #[verifier::type_invariant]
    spec fn keys_sorted(&self) -> bool {
        sorted_keys(self.entries@.map_values(|e: (String, V)| (e.0@, e.1)))
    }

    /// The entries, in key order.
    pub closed spec fn entries(&self) -> Seq<(Seq<char>, V)> {
        self.entries@.map_values(|e: (String, V)| (e.0@, e.1))
    }

    /// The value under `key`.
    pub open spec fn lookup(&self, key: Seq<char>) -> Option<V> {
        lookup_in(self.entries(), key)
    }

    pub fn new() -> (r: Self)
        ensures
            r.entries().len() == 0,
            sorted_keys(r.entries()),
    {
        StrMap { entries: Vec::new() }
    }

    pub fn len(&self) -> (r: usize)
        ensures
            r == self.entries().len(),
            sorted_keys(self.entries()),
    {
        proof {
            use_type_invariant(self);
        }
        self.entries.len()
    }

    pub fn key_at(&self, i: usize) -> (r: &str)
        requires
            i < self.entries().len(),
        ensures
            r@ == self.entries()[i as int].0,
    {
        self.entries[i].0.as_str()
    }

    pub fn value_at(&self, i: usize) -> (r: &V)
        requires
            i < self.entries().len(),
        ensures
            *r == self.entries()[i as int].1,
    {
        &self.entries[i].1
    }

    /// The value under `key`.
    pub fn get(&self, key: &str) -> (r: Option<&V>)
        ensures
            match self.lookup(key@) {
                Some(v) => r == Some(&v),
                None => r is None,
            },
    {
        let ghost es = self.entries();
        let ghost p = key_is::<V>(key@);
        let mut i: usize = 0;
        while i < self.entries.len()
            invariant
                0 <= i <= self.entries@.len(),
                es == self.entries(),
                es.len() == self.entries@.len(),
                first_index_from(es, p, i as int) == first_index(es, p),
            decreases self.entries@.len() - i,
        {
            assert(es[i as int] == (self.entries@[i as int].0@, self.entries@[i as int].1));
            if str_eq(self.entries[i].0.as_str(), key) {
                return Some(&self.entries[i].1);
            }
            i = i + 1;
        }
        None
    }

    /// Whether `key` is in the set (or has a value).
    pub fn contains(&self, key: &str) -> (r: bool)
        ensures
            r == self.lookup(key@) is Some,
    {
        self.get(key).is_some()
    }

    /// Whether `key` has a value.
    pub fn contains_key(&self, key: &str) -> (r: bool)
        ensures
            r == self.lookup(key@) is Some,
    {
        self.get(key).is_some()
    }

    /// Sets the value under `key`, in its place in key order.
    pub fn insert(&mut self, key: String, value: V)
        ensures
            sorted_keys(final(self).entries()),
            forall|k: Seq<char>| #[trigger] final(self).lookup(k) == if k == key@ { Some(value) } else { old(self).lookup(k) },
    {
        proof {
            use_type_invariant(&*self);
        }
        let ghost es = self.entries();
        let mut entries: Vec<(String, V)> = Vec::new();
        std::mem::swap(&mut entries, &mut self.entries);
        assert(entries@.map_values(|e: (String, V)| (e.0@, e.1)) == es);
        let ghost kb = utf8(key@);
        let mut i: usize = 0;
        while i < entries.len()
            invariant
                0 <= i <= entries@.len(),
                es == entries@.map_values(|e: (String, V)| (e.0@, e.1)),
                es.len() == entries@.len(),
                sorted_keys(es),
                kb == utf8(key@),
                forall|j: int| 0 <= j < i ==> bytes_lt(utf8(#[trigger] es[j].0), kb),
            decreases entries@.len() - i,
        {
            assert(es[i as int] == (entries@[i as int].0@, entries@[i as int].1));
            if str_eq(entries[i].0.as_str(), key.as_str()) {
                let ghost old_entries = entries@;
                entries.remove(i);
                entries.insert(i, (key, value));
                let ghost ns = entries@.map_values(|e: (String, V)| (e.0@, e.1));
                proof {
                    assert(ns =~= es.update(i as int, (key@, value)));
                    assert forall|a: int, b: int| 0 <= a < b < ns.len() implies bytes_lt(utf8(#[trigger] ns[a].0), utf8(#[trigger] ns[b].0)) by {
                        assert(ns[a].0 == es[a].0);
                        assert(ns[b].0 == es[b].0);
                    }
                    lemma_map_after_update(es, ns, i as int, key@, value);
                }
                self.entries = entries;
                return;
            }
            if str_lt(key.as_str(), entries[i].0.as_str()) {
                entries.insert(i, (key, value));
                let ghost ns = entries@.map_values(|e: (String, V)| (e.0@, e.1));
                proof {
                    assert(ns =~= es.insert(i as int, (key@, value)));
                    assert forall|a: int, b: int| 0 <= a < b < ns.len() implies bytes_lt(utf8(#[trigger] ns[a].0), utf8(#[trigger] ns[b].0)) by {
                        if b == i {
                            assert(bytes_lt(utf8(es[a].0), kb));
                        } else if a == i {
                            assert(bytes_lt(kb, utf8(es[i as int].0)));
                            if b - 1 > i {
                                lemma_lt_transitive(kb, utf8(es[i as int].0), utf8(es[b - 1].0));
                            }
                        } else if a < i && b > i {
                            assert(ns[b] == es[b - 1]);
                            assert(bytes_lt(utf8(es[a].0), kb));
                            assert(bytes_lt(kb, utf8(es[i as int].0)));
                            lemma_lt_transitive(utf8(es[a].0), kb, utf8(es[i as int].0));
                            if b - 1 > i {
                                lemma_lt_transitive(utf8(es[a].0), utf8(es[i as int].0), utf8(es[b - 1].0));
                            }
                        } else if a > i {
                            assert(ns[a] == es[a - 1]);
                            assert(ns[b] == es[b - 1]);
                        }
                    }
                    lemma_map_after_insert(es, ns, i as int, key@, value);
                }
                self.entries = entries;
                return;
            }
            proof {
                lemma_lt_total(kb, utf8(es[i as int].0));
                if kb == utf8(es[i as int].0) {
                    lemma_utf8_injective(key@, es[i as int].0);
                }
            }
            i = i + 1;
        }
        let ghost k2 = key@;
        entries.push((key, value));
        let ghost ns = entries@.map_values(|e: (String, V)| (e.0@, e.1));
        proof {
            assert(ns =~= es.push((k2, value)));
            assert(es.push((k2, value)) =~= es.insert(es.len() as int, (k2, value)));
            assert forall|a: int, b: int| 0 <= a < b < ns.len() implies bytes_lt(utf8(#[trigger] ns[a].0), utf8(#[trigger] ns[b].0)) by {
                if b == es.len() {
                    assert(bytes_lt(utf8(es[a].0), kb));
                } else {
                    assert(ns[a] == es[a]);
                    assert(ns[b] == es[b]);
                }
            }
            lemma_map_after_insert(es, ns, es.len() as int, k2, value);
        }
        self.entries = entries;
    }
}


/// The entries with each text value taken by its characters.
pub open spec fn text_entries(es: Seq<(Seq<char>, String)>) -> Seq<(Seq<char>, Seq<char>)> {
    es.map_values(|e: (Seq<char>, String)| (e.0, e.1@))
}

impl StrMap<String> {
    /// A copy with the same keys and texts.
    pub fn copy(&self) -> (r: Self)
        ensures
            text_entries(r.entries()) == text_entries(self.entries()),
    {
        proof {
            use_type_invariant(self);
        }
        let mut out: Vec<(String, String)> = Vec::new();
        let mut i: usize = 0;
        while i < self.entries.len()
            invariant
                0 <= i <= self.entries@.len(),
                out@.len() == i,
                forall|k: int| 0 <= k < i ==> (#[trigger] out@[k]).0@ == self.entries@[k].0@ && out@[k].1@ == self.entries@[k].1@,
            decreases self.entries@.len() - i,
        {
            out.push((self.entries[i].0.clone(), self.entries[i].1.clone()));
            i = i + 1;
        }
        let ghost ns = out@.map_values(|e: (String, String)| (e.0@, e.1));
        assert forall|a: int, b: int| 0 <= a < b < ns.len() implies bytes_lt(utf8(#[trigger] ns[a].0), utf8(#[trigger] ns[b].0)) by {
            assert(ns[a].0 == self.entries()[a].0);
            assert(ns[b].0 == self.entries()[b].0);
        }
        let r = StrMap { entries: out };
        assert(text_entries(r.entries()) =~= text_entries(self.entries()));
        r
    }
}

impl StrMap<()> {
    /// A copy with the same keys.
    pub fn copy(&self) -> (r: Self)
        ensures
            r.entries() == self.entries(),
    {
        proof {
            use_type_invariant(self);
        }
        let mut out: Vec<(String, ())> = Vec::new();
        let mut i: usize = 0;
        while i < self.entries.len()
            invariant
                0 <= i <= self.entries@.len(),
                out@.len() == i,
                forall|k: int| 0 <= k < i ==> (#[trigger] out@[k]).0@ == self.entries@[k].0@,
            decreases self.entries@.len() - i,
        {
            out.push((self.entries[i].0.clone(), ()));
            i = i + 1;
        }
        assert(out@.map_values(|e: (String, ())| (e.0@, e.1)) =~= self.entries());
        let r = StrMap { entries: out };
        r
    }
}

/// Sorted entries hold each key at most once.
pub proof fn lemma_sorted_unique<V>(es: Seq<(Seq<char>, V)>, i: int, j: int)
    requires
        sorted_keys(es),
        0 <= i < es.len(),
        0 <= j < es.len(),
        es[i].0 == es[j].0,
    ensures
        i == j,
{
    if i < j {
        lemma_lt_irreflexive(utf8(es[i].0));
    } else if j < i {
        lemma_lt_irreflexive(utf8(es[j].0));
    }
}

proof fn lemma_map_after_update<V>(es: Seq<(Seq<char>, V)>, ns: Seq<(Seq<char>, V)>, i: int, key: Seq<char>, value: V)
    requires
        0 <= i < es.len(),
        es[i].0 == key,
        ns == es.update(i, (key, value)),
        sorted_keys(es),
        sorted_keys(ns),
    ensures
        forall|k: Seq<char>| #[trigger] lookup_in(ns, k) == if k == key { Some(value) } else { lookup_in(es, k) },
{
    assert forall|k: Seq<char>| #[trigger] lookup_in(ns, k) == if k == key { Some(value) } else { lookup_in(es, k) } by {
        lemma_first_index_from(ns, key_is::<V>(k), 0);
        lemma_first_index_from(es, key_is::<V>(k), 0);
        let a = first_index(ns, key_is::<V>(k));
        let b = first_index(es, key_is::<V>(k));
        if k == key {
            assert(ns[i].0 == k);
            if a >= 0 {
                lemma_sorted_unique(ns, a, i);
            }
        } else {
            if a >= 0 {
                assert(ns[a] == es[a]);
            }
            if b >= 0 {
                assert(ns[b] == es[b]);
            }
        }
    }
}

proof fn lemma_map_after_insert<V>(es: Seq<(Seq<char>, V)>, ns: Seq<(Seq<char>, V)>, i: int, key: Seq<char>, value: V)
    requires
        0 <= i <= es.len(),
        ns == es.insert(i, (key, value)),
        sorted_keys(ns),
    ensures
        forall|k: Seq<char>| #[trigger] lookup_in(ns, k) == if k == key { Some(value) } else { lookup_in(es, k) },
{
    assert forall|k: Seq<char>| #[trigger] lookup_in(ns, k) == if k == key { Some(value) } else { lookup_in(es, k) } by {
        lemma_first_index_from(ns, key_is::<V>(k), 0);
        lemma_first_index_from(es, key_is::<V>(k), 0);
        let a = first_index(ns, key_is::<V>(k));
        let b = first_index(es, key_is::<V>(k));
        if k == key {
            assert(ns[i].0 == k);
            if a >= 0 {
                lemma_sorted_unique(ns, a, i);
            }
        } else {
            if a >= 0 {
                if a < i {
                    assert(ns[a] == es[a]);
                } else {
                    assert(ns[a] == es[a - 1]);
                }
            }
            if b >= 0 {
                if b < i {
                    assert(ns[b] == es[b]);
                } else {
                    assert(ns[b + 1] == es[b]);
                }
            }
            if a >= 0 && b >= 0 {
                if a < i {
                    assert(es[a].0 == k);
                } else {
                    assert(es[a - 1].0 == k);
                }
                if b < i {
                    assert(ns[b].0 == k);
                    lemma_sorted_unique(ns, a, b);
                } else {
                    assert(ns[b + 1].0 == k);
                    lemma_sorted_unique(ns, a, b + 1);
                }
            } else if a >= 0 {
                if a < i {
                    assert(es[a].0 == k);
                } else {
                    assert(es[a - 1].0 == k);
                }
            } else if b >= 0 {
                if b < i {
                    assert(ns[b].0 == k);
                } else {
                    assert(ns[b + 1].0 == k);
                }
            }
        }
    }
}

} // verus!
