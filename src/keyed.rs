//! A map from string keys to values, kept as a list of entries with distinct keys.
use vstd::prelude::*;

use crate::text::views;

verus! {

/// One key and its value.
#[derive(Debug)]
pub struct Entry<V> {
    pub key: String,
    pub value: V,
}

/// The views of a list of entries, as key/value pairs.
pub open spec fn pairs_of<V: View>(es: Seq<Entry<V>>) -> Seq<(Seq<char>, V::V)> {
    es.map_values(|e: Entry<V>| (e.key@, e.value@))
}

pub open spec fn keys_of<W>(ps: Seq<(Seq<char>, W)>) -> Seq<Seq<char>> {
    ps.map_values(|p: (Seq<char>, W)| p.0)
}

/// The map that a list of pairs denotes; the first pair of a key gives its value.
pub open spec fn map_of<W>(ps: Seq<(Seq<char>, W)>) -> Map<Seq<char>, W>
    decreases ps.len(),
{
    if ps.len() == 0 {
        Map::empty()
    } else {
        let m = map_of(ps.drop_last());
        if m.contains_key(ps.last().0) {
            m
        } else {
            m.insert(ps.last().0, ps.last().1)
        }
    }
}

pub proof fn lemma_map_of_dom<W>(ps: Seq<(Seq<char>, W)>)
    ensures
        forall|k: Seq<char>| #[trigger]
            map_of(ps).contains_key(k) <==> keys_of(ps).contains(k),
        map_of(ps).dom().finite(),
    decreases ps.len(),
{
    broadcast use vstd::seq_lib::lemma_seq_contains_after_push;

    if ps.len() > 0 {
        let t = ps.drop_last();
        lemma_map_of_dom(t);
        assert(keys_of(ps) =~= keys_of(t).push(ps.last().0));
    } else {
        assert forall|k: Seq<char>| !(#[trigger] keys_of(ps).contains(k)) by {}
    }
}

pub proof fn lemma_map_of_value<W>(ps: Seq<(Seq<char>, W)>, i: int)
    requires
        keys_of(ps).no_duplicates(),
        0 <= i < ps.len(),
    ensures
        map_of(ps).contains_key(ps[i].0),
        map_of(ps)[ps[i].0] == ps[i].1,
    decreases ps.len(),
{
    let t = ps.drop_last();
    assert(keys_of(t).no_duplicates()) by {
        assert forall|a: int, b: int| 0 <= a < b < keys_of(t).len() implies keys_of(t)[a]
            != keys_of(t)[b] by {
            assert(keys_of(t)[a] == keys_of(ps)[a]);
            assert(keys_of(t)[b] == keys_of(ps)[b]);
        }
    }
    lemma_map_of_dom(t);
    if i < t.len() {
        lemma_map_of_value(t, i);
        assert(t[i] == ps[i]);
    } else {
        if map_of(t).contains_key(ps[i].0) {
            let j = choose|j: int| 0 <= j < keys_of(t).len() && keys_of(t)[j] == ps[i].0;
            assert(keys_of(ps)[j] == keys_of(ps)[i]);
        }
    }
}

pub proof fn lemma_map_of_update<W>(ps: Seq<(Seq<char>, W)>, i: int, w: W)
    requires
        keys_of(ps).no_duplicates(),
        0 <= i < ps.len(),
    ensures
        map_of(ps.update(i, (ps[i].0, w))) == map_of(ps).insert(ps[i].0, w),
        keys_of(ps.update(i, (ps[i].0, w))) == keys_of(ps),
    decreases ps.len(),
{
    let qs = ps.update(i, (ps[i].0, w));
    assert(keys_of(qs) =~= keys_of(ps));
    let t = ps.drop_last();
    assert(keys_of(t).no_duplicates()) by {
        assert forall|a: int, b: int| 0 <= a < b < keys_of(t).len() implies keys_of(t)[a]
            != keys_of(t)[b] by {
            assert(keys_of(t)[a] == keys_of(ps)[a]);
            assert(keys_of(t)[b] == keys_of(ps)[b]);
        }
    }
    lemma_map_of_dom(t);
    if i < t.len() {
        lemma_map_of_update(t, i, w);
        assert(qs.drop_last() =~= t.update(i, (ps[i].0, w)));
        lemma_map_of_dom(t.update(i, (ps[i].0, w)));
        assert(keys_of(t).contains(ps[i].0)) by {
            assert(keys_of(t)[i] == ps[i].0);
        }
        assert(map_of(qs) =~= map_of(ps).insert(ps[i].0, w));
    } else {
        assert(qs.drop_last() =~= t);
        if map_of(t).contains_key(ps[i].0) {
            let j = choose|j: int| 0 <= j < keys_of(t).len() && keys_of(t)[j] == ps[i].0;
            assert(keys_of(ps)[j] == keys_of(ps)[i]);
        }
        assert(map_of(qs) =~= map_of(ps).insert(ps[i].0, w));
    }
}

pub proof fn lemma_map_of_len<W>(ps: Seq<(Seq<char>, W)>)
    requires
        keys_of(ps).no_duplicates(),
    ensures
        map_of(ps).dom() == keys_of(ps).to_set(),
        map_of(ps).dom().len() == ps.len(),
{
    lemma_map_of_dom(ps);
    assert(map_of(ps).dom() =~= keys_of(ps).to_set());
    keys_of(ps).unique_seq_to_set();
}

/// A map from strings to values that keeps its entries in insertion order.
#[derive(Debug)]
pub struct KeyedList<V: View> {
    entries: Vec<Entry<V>>,
}

impl<V: View> View for KeyedList<V> {
    type V = Map<Seq<char>, V::V>;

    closed spec fn view(&self) -> Map<Seq<char>, V::V> {
        map_of(pairs_of(self.entries@))
    }
}

impl<V: View> KeyedList<V> {
    #[verifier::type_invariant]
    spec fn distinct_keys(&self) -> bool {
        keys_of(pairs_of(self.entries@)).no_duplicates()
    }

    /// The entries as key/value pairs, in order.
    pub closed spec fn pairs(&self) -> Seq<(Seq<char>, V::V)> {
        pairs_of(self.entries@)
    }

    pub fn new() -> (r: Self)
        ensures
            r@ == Map::<Seq<char>, V::V>::empty(),
            r.pairs().len() == 0,
    {
        let r = KeyedList { entries: Vec::new() };
        assert(pairs_of(r.entries@) =~= Seq::<(Seq<char>, V::V)>::empty());
        r
    }

    /// Number of keys.
    pub fn len(&self) -> (r: usize)
        ensures
            r == self.pairs().len(),
            r == self@.dom().len(),
    {
        proof {
            use_type_invariant(self);
            lemma_map_of_len(self.pairs());
        }
        self.entries.len()
    }

    pub fn is_empty(&self) -> (r: bool)
        ensures
            r == (self@.dom().len() == 0),
    {
        self.len() == 0
    }

    /// Position of the entry for `key`.
    pub fn position(&self, key: &String) -> (r: Option<usize>)
        ensures
            match r {
                Some(i) => i < self.pairs().len() && self.pairs()[i as int].0 == key@,
                None => !self@.contains_key(key@),
            },
    {
        proof {
            lemma_map_of_dom(self.pairs());
        }
        let mut i: usize = 0;
        while i < self.entries.len()
            invariant
                i <= self.pairs().len(),
                self.pairs().len() == self.entries@.len(),
                forall|j: int| 0 <= j < i ==> #[trigger] self.pairs()[j].0 != key@,
            decreases self.entries@.len() - i,
        {
            if self.entries[i].key == *key {
                return Some(i);
            }
            i = i + 1;
        }
        proof {
            if keys_of(self.pairs()).contains(key@) {
                let j = choose|j: int|
                    0 <= j < keys_of(self.pairs()).len() && keys_of(self.pairs())[j] == key@;
                assert(self.pairs()[j].0 == key@);
            }
        }
        None
    }

    pub fn contains_key(&self, key: &str) -> (r: bool)
        ensures
            r == self@.contains_key(key@),
    {
        let k = String::from_str(key);
        match self.position(&k) {
            Some(i) => {
                proof {
                    use_type_invariant(self);
            lemma_map_of_len(self.pairs());
                    lemma_map_of_value(self.pairs(), i as int);
                }
                true
            },
            None => false,
        }
    }

    /// The value for `key`, if there is one.
    pub fn get(&self, key: &str) -> (r: Option<&V>)
        ensures
            match r {
                Some(v) => self@.contains_key(key@) && v@ == self@[key@],
                None => !self@.contains_key(key@),
            },
    {
        let k = String::from_str(key);
        match self.position(&k) {
            Some(i) => {
                proof {
                    use_type_invariant(self);
            lemma_map_of_len(self.pairs());
                    lemma_map_of_value(self.pairs(), i as int);
                }
                Some(&self.entries[i].value)
            },
            None => None,
        }
    }

    /// The key of the `i`-th entry.
    pub fn key_at(&self, i: usize) -> (r: &String)
        requires
            i < self.pairs().len(),
        ensures
            r@ == self.pairs()[i as int].0,
            self@.contains_key(r@),
    {
        proof {
            use_type_invariant(self);
            lemma_map_of_len(self.pairs());
            lemma_map_of_value(self.pairs(), i as int);
        }
        &self.entries[i].key
    }

    /// The value of the `i`-th entry.
    pub fn value_at(&self, i: usize) -> (r: &V)
        requires
            i < self.pairs().len(),
        ensures
            r@ == self.pairs()[i as int].1,
            self@[self.pairs()[i as int].0] == r@,
    {
        proof {
            use_type_invariant(self);
            lemma_map_of_len(self.pairs());
            lemma_map_of_value(self.pairs(), i as int);
        }
        &self.entries[i].value
    }

    /// Replaces the value of the `i`-th entry.
    pub fn set_value_at(&mut self, i: usize, value: V)
        requires
            i < old(self).pairs().len(),
        ensures
            final(self)@ == old(self)@.insert(old(self).pairs()[i as int].0, value@),
            final(self).pairs() == old(self).pairs().update(
                i as int,
                (old(self).pairs()[i as int].0, value@),
            ),
    {
        proof {
            use_type_invariant(&*self);
            lemma_map_of_update(self.pairs(), i as int, value@);
        }
        let ghost before = self.entries@;
        let ghost vv = value@;
        let mut es: Vec<Entry<V>> = Vec::new();
        std::mem::swap(&mut self.entries, &mut es);
        es[i].value = value;
        assert(pairs_of(es@) =~= pairs_of(before).update(i as int, (pairs_of(before)[i as int].0, vv)));
        std::mem::swap(&mut self.entries, &mut es);
    }

    /// Takes the value of the `i`-th entry out, leaving `filler` in its place.
    pub fn take_value_at(&mut self, i: usize, filler: V) -> (r: V)
        requires
            i < old(self).pairs().len(),
        ensures
            r@ == old(self).pairs()[i as int].1,
            old(self)@.contains_key(old(self).pairs()[i as int].0),
            old(self)@[old(self).pairs()[i as int].0] == r@,
            final(self)@ == old(self)@.insert(old(self).pairs()[i as int].0, filler@),
            final(self).pairs() == old(self).pairs().update(
                i as int,
                (old(self).pairs()[i as int].0, filler@),
            ),
    {
        proof {
            use_type_invariant(&*self);
            lemma_map_of_update(self.pairs(), i as int, filler@);
            lemma_map_of_value(self.pairs(), i as int);
        }
        let ghost before = self.entries@;
        let ghost fv = filler@;
        let mut es: Vec<Entry<V>> = Vec::new();
        std::mem::swap(&mut self.entries, &mut es);
        let mut out = filler;
        std::mem::swap(&mut es[i].value, &mut out);
        assert(pairs_of(es@) =~= pairs_of(before).update(i as int, (pairs_of(before)[i as int].0, fv)));
        std::mem::swap(&mut self.entries, &mut es);
        out
    }

    /// Associates `value` with `key`, replacing an earlier value of `key`.
    pub fn insert(&mut self, key: String, value: V)
        ensures
            final(self)@ == old(self)@.insert(key@, value@),
    {
        proof {
            use_type_invariant(&*self);
        }
        match self.position(&key) {
            Some(i) => {
                self.set_value_at(i, value);
            },
            None => {
                let ghost before = self.entries@;
                proof {
                    lemma_map_of_dom(pairs_of(before));
                }
                let ghost (kv, vv) = (key@, value@);
                let mut es: Vec<Entry<V>> = Vec::new();
                std::mem::swap(&mut self.entries, &mut es);
                es.push(Entry { key, value });
                assert(pairs_of(es@) =~= pairs_of(before).push((kv, vv)));
                assert(pairs_of(es@).drop_last() =~= pairs_of(before));
                assert(keys_of(pairs_of(es@)) =~= keys_of(pairs_of(before)).push(kv));
                assert(keys_of(pairs_of(es@)).no_duplicates()) by {
                    let ks = keys_of(pairs_of(es@));
                    assert forall|a: int, b: int| 0 <= a < b < ks.len() implies ks[a] != ks[b] by {
                        if b == ks.len() - 1 {
                            assert(keys_of(pairs_of(before))[a] == ks[a]);
                            assert(keys_of(pairs_of(before)).contains(ks[a]));
                        }
                    }
                }
                std::mem::swap(&mut self.entries, &mut es);
            },
        }
    }

    /// All keys, in entry order.
    pub fn keys(&self) -> (r: Vec<String>)
        ensures
            views(r@) == keys_of(self.pairs()),
            views(r@).no_duplicates(),
            views(r@).to_set() == self@.dom(),
    {
        proof {
            use_type_invariant(self);
            lemma_map_of_len(self.pairs());
        }
        let mut out: Vec<String> = Vec::new();
        let mut i: usize = 0;
        while i < self.entries.len()
            invariant
                i <= self.entries@.len(),
                self.pairs().len() == self.entries@.len(),
                views(out@) == keys_of(self.pairs()).subrange(0, i as int),
            decreases self.entries@.len() - i,
        {
            let k = self.entries[i].key.clone();
            assert(keys_of(self.pairs())[i as int] == self.entries@[i as int].key@);
            let ghost prev = out@;
            out.push(k);
            assert(views(out@) =~= views(prev).push(k@));
            assert(views(out@) =~= keys_of(self.pairs()).subrange(0, i + 1));
            i = i + 1;
        }
        assert(keys_of(self.pairs()).subrange(0, i as int) =~= keys_of(self.pairs()));
        out
    }

    /// The entries, in order.
    pub fn into_entries(self) -> (r: Vec<Entry<V>>)
        ensures
            pairs_of(r@) == self.pairs(),
            keys_of(pairs_of(r@)).no_duplicates(),
            map_of(pairs_of(r@)) == self@,
    {
        proof {
            use_type_invariant(&self);
        }
        self.entries
    }
}

} // verus!
