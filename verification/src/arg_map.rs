//! Named command arguments: a map from argument names to parsed values,
//! where a later binding of a name replaces an earlier one.

use vstd::prelude::*;
use crate::text::str_eq;

verus! {

pub struct ArgMap<T> {
    entries: Vec<(String, T)>,
}

/// The map that a list of bindings denotes: later bindings win.
pub open spec fn bindings_map<T>(entries: Seq<(Seq<char>, T)>) -> Map<Seq<char>, T>
    decreases entries.len(),
{
    if entries.len() == 0 {
        Map::empty()
    } else {
        bindings_map(entries.drop_last()).insert(entries.last().0, entries.last().1)
    }
}

proof fn lemma_bindings_suffix<T>(entries: Seq<(Seq<char>, T)>, m: int, key: Seq<char>)
    requires
        0 <= m <= entries.len(),
        forall|k: int| m <= k < entries.len() ==> entries[k].0 != key,
    ensures
        bindings_map(entries).contains_key(key) == bindings_map(entries.subrange(0, m)).contains_key(key),
        bindings_map(entries).contains_key(key) ==> bindings_map(entries)[key] == bindings_map(entries.subrange(0, m))[key],
    decreases entries.len(),
{
    if entries.len() == m {
        assert(entries.subrange(0, m) =~= entries);
    } else {
        lemma_bindings_suffix(entries.drop_last(), m, key);
        assert(entries.drop_last().subrange(0, m) =~= entries.subrange(0, m));
    }
}

impl<T> ArgMap<T> {
    pub closed spec fn view(&self) -> Map<Seq<char>, T> {
        bindings_map(self.entries@.map_values(|e: (String, T)| (e.0@, e.1)))
    }

    pub fn new() -> (r: Self)
        ensures
            r.view() == Map::<Seq<char>, T>::empty(),
    {
        ArgMap { entries: Vec::new() }
    }

    pub fn insert(&mut self, name: String, value: T)
        ensures
            final(self).view() == old(self).view().insert(name@, value),
    {
        let ghost n = name@;
        let ghost v = value;
        self.entries.push((name, value));
        let ghost es = self.entries@.map_values(|e: (String, T)| (e.0@, e.1));
        assert(es.drop_last() =~= old(self).entries@.map_values(|e: (String, T)| (e.0@, e.1)));
        assert(es.last() == (n, v));
    }

    pub fn get(&self, name: &str) -> (r: Option<&T>)
        ensures
            r is Some <==> self.view().contains_key(name@),
            r matches Some(v) ==> *v == self.view()[name@],
    {
        let ghost es = self.entries@.map_values(|e: (String, T)| (e.0@, e.1));
        let mut i: usize = self.entries.len();
        while i > 0
            invariant
                0 <= i <= self.entries@.len(),
                es == self.entries@.map_values(|e: (String, T)| (e.0@, e.1)),
                forall|k: int| i <= k < es.len() ==> es[k].0 != name@,
            decreases i,
        {
            let e = &self.entries[i - 1];
            if str_eq(e.0.as_str(), name) {
                proof {
                    lemma_bindings_suffix(es, i as int, name@);
                    let sub = es.subrange(0, i as int);
                    assert(sub.drop_last() =~= es.subrange(0, i - 1));
                    assert(sub.last() == es[i - 1]);
                }
                return Some(&e.1);
            }
            i = i - 1;
        }
        proof {
            lemma_bindings_suffix(es, 0, name@);
            assert(es.subrange(0, 0) =~= Seq::<(Seq<char>, T)>::empty());
        }
        None
    }
}

} // verus!
