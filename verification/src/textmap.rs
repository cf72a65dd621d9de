//! Maps and sets keyed by text, kept as sorted vectors.
//!
//! A `TextMap` holds its entries in strictly increasing key order (the order
//! of `String`), so each key occurs once and walking the entries visits the
//! keys in order. Its view is that canonical entry sequence: two maps with the
//! same contents have the same view.

use vstd::prelude::*;
use crate::text::{chars_eq, chars_less, chars_of, lemma_seq_lt_irreflexive, lemma_seq_lt_total, lemma_seq_lt_transitive, seq_lt};

verus! {

/// Entries in strictly increasing key order.
pub open spec fn keys_sorted<T>(s: Seq<(Seq<char>, T)>) -> bool {
    forall|i: int, j: int| 0 <= i < j < s.len() ==> seq_lt(#[trigger] s[i].0, #[trigger] s[j].0)
}

/// The value stored under `k`, taking the first entry with that key.
pub open spec fn lookup<T>(s: Seq<(Seq<char>, T)>, k: Seq<char>) -> Option<T>
    decreases s.len(),
{
    if s.len() == 0 {
        None
    } else if s[0].0 == k {
        Some(s[0].1)
    } else {
        lookup(s.drop_first(), k)
    }
}

/// Some entry has key `k`.
pub open spec fn has_key<T>(s: Seq<(Seq<char>, T)>, k: Seq<char>) -> bool {
    exists|i: int| 0 <= i < s.len() && #[trigger] s[i].0 == k
}

/// Number of leading entries whose key is below `k`.
pub open spec fn insert_pos<T>(s: Seq<(Seq<char>, T)>, k: Seq<char>) -> nat
    decreases s.len(),
{
    if s.len() == 0 {
        0
    } else if seq_lt(s[0].0, k) {
        1 + insert_pos(s.drop_first(), k)
    } else {
        0
    }
}

/// The sorted entries after storing `v` under `k` (replacing a previous value).
pub open spec fn seq_insert<T>(s: Seq<(Seq<char>, T)>, k: Seq<char>, v: T) -> Seq<(Seq<char>, T)> {
    let p = insert_pos(s, k) as int;
    if p < s.len() && s[p].0 == k {
        s.update(p, (k, v))
    } else {
        s.insert(p, (k, v))
    }
}

/// Storing each entry of `items` in turn, first to last.
pub open spec fn insert_all<T>(m: Seq<(Seq<char>, T)>, items: Seq<(Seq<char>, T)>) -> Seq<
    (Seq<char>, T),
>
    decreases items.len(),
{
    if items.len() == 0 {
        m
    } else {
        seq_insert(insert_all(m, items.drop_last()), items.last().0, items.last().1)
    }
}

/// An index whose entry has key `k` (meaningful when there is one).
pub open spec fn key_index<T>(s: Seq<(Seq<char>, T)>, k: Seq<char>) -> int {
    choose|i: int| 0 <= i < s.len() && #[trigger] s[i].0 == k
}

/// The entries without the one keyed `k`.
pub open spec fn remove_key<T>(s: Seq<(Seq<char>, T)>, k: Seq<char>) -> Seq<(Seq<char>, T)> {
    if has_key(s, k) {
        s.remove(key_index(s, k))
    } else {
        s
    }
}

/// In sorted entries a key sits at one index only.
pub proof fn lemma_key_unique<T>(s: Seq<(Seq<char>, T)>, i: int, j: int)
    requires
        keys_sorted(s),
        0 <= i < s.len(),
        0 <= j < s.len(),
        s[i].0 == s[j].0,
    ensures
        i == j,
{
    if i < j {
        lemma_seq_lt_irreflexive(s[i].0);
    } else if j < i {
        lemma_seq_lt_irreflexive(s[i].0);
    }
}

/// Removing an entry keeps the entries sorted.
pub proof fn lemma_remove_key_sorted<T>(s: Seq<(Seq<char>, T)>, k: Seq<char>)
    requires
        keys_sorted(s),
    ensures
        keys_sorted(remove_key(s, k)),
        !has_key(remove_key(s, k), k),
{
    if has_key(s, k) {
        let p = key_index(s, k);
        let r = s.remove(p);
        assert forall|i: int, j: int| 0 <= i < j < r.len() implies seq_lt(
            #[trigger] r[i].0,
            #[trigger] r[j].0,
        ) by {
            let a = if i < p { i } else { i + 1 };
            let b = if j < p { j } else { j + 1 };
            assert(r[i] == s[a] && r[j] == s[b]);
        }
        if has_key(r, k) {
            let q = choose|i: int| 0 <= i < r.len() && #[trigger] r[i].0 == k;
            let a = if q < p { q } else { q + 1 };
            assert(r[q] == s[a]);
            assert(s[a].0 == k && s[p].0 == k);
            lemma_key_unique(s, a, p);
            assert(false);
        }
    }
}

/// The keys, in order.
pub open spec fn keys_of<T>(s: Seq<(Seq<char>, T)>) -> Seq<Seq<char>> {
    s.map_values(|e: (Seq<char>, T)| e.0)
}

pub proof fn lemma_insert_pos_bound<T>(s: Seq<(Seq<char>, T)>, k: Seq<char>)
    ensures
        insert_pos(s, k) <= s.len(),
    decreases s.len(),
{
    if s.len() > 0 && seq_lt(s[0].0, k) {
        lemma_insert_pos_bound(s.drop_first(), k);
    }
}

/// In sorted entries, `insert_pos` splits the keys below `k` from the others.
pub proof fn lemma_insert_pos_split<T>(s: Seq<(Seq<char>, T)>, k: Seq<char>)
    requires
        keys_sorted(s),
    ensures
        insert_pos(s, k) <= s.len(),
        forall|i: int| 0 <= i < insert_pos(s, k) ==> seq_lt(#[trigger] s[i].0, k),
        forall|i: int| insert_pos(s, k) <= i < s.len() ==> !seq_lt(#[trigger] s[i].0, k),
    decreases s.len(),
{
    lemma_insert_pos_bound(s, k);
    if s.len() > 0 {
        let t = s.drop_first();
        assert(keys_sorted(t)) by {
            assert forall|i: int, j: int| 0 <= i < j < t.len() implies seq_lt(
                #[trigger] t[i].0,
                #[trigger] t[j].0,
            ) by {
                assert(t[i] == s[i + 1] && t[j] == s[j + 1]);
            }
        }
        lemma_insert_pos_split(t, k);
        if seq_lt(s[0].0, k) {
            assert forall|i: int| 0 <= i < insert_pos(s, k) implies seq_lt(#[trigger] s[i].0, k) by {
                if i > 0 {
                    assert(s[i] == t[i - 1]);
                }
            }
            assert forall|i: int| insert_pos(s, k) <= i < s.len() implies !seq_lt(
                #[trigger] s[i].0,
                k,
            ) by {
                assert(s[i] == t[i - 1]);
            }
        } else {
            assert forall|i: int| 0 <= i < s.len() implies !seq_lt(#[trigger] s[i].0, k) by {
                if i > 0 && seq_lt(s[i].0, k) {
                    lemma_seq_lt_transitive(s[0].0, s[i].0, k);
                }
            }
        }
    }
}

/// In sorted entries, the value found under a key is the one at its index.
pub proof fn lemma_lookup_index<T>(s: Seq<(Seq<char>, T)>, i: int)
    requires
        keys_sorted(s),
        0 <= i < s.len(),
    ensures
        lookup(s, s[i].0) == Some(s[i].1),
    decreases s.len(),
{
    if i > 0 {
        let t = s.drop_first();
        assert(keys_sorted(t)) by {
            assert forall|a: int, b: int| 0 <= a < b < t.len() implies seq_lt(
                #[trigger] t[a].0,
                #[trigger] t[b].0,
            ) by {
                assert(t[a] == s[a + 1] && t[b] == s[b + 1]);
            }
        }
        assert(seq_lt(s[0].0, s[i].0));
        lemma_seq_lt_irreflexive(s[0].0);
        assert(t[i - 1] == s[i]);
        lemma_lookup_index(t, i - 1);
    }
}

/// No entry has the key, so nothing is found.
pub proof fn lemma_lookup_absent<T>(s: Seq<(Seq<char>, T)>, k: Seq<char>)
    requires
        !has_key(s, k),
    ensures
        lookup(s, k) == None::<T>,
    decreases s.len(),
{
    if s.len() > 0 {
        assert(s[0].0 != k);
        assert(!has_key(s.drop_first(), k)) by {
            if has_key(s.drop_first(), k) {
                let i = choose|i: int| 0 <= i < s.drop_first().len() && #[trigger] s.drop_first()[i].0 == k;
                assert(s[i + 1].0 == k);
            }
        }
        lemma_lookup_absent(s.drop_first(), k);
    }
}

/// Something is found exactly when some entry has the key.
pub proof fn lemma_lookup_some<T>(s: Seq<(Seq<char>, T)>, k: Seq<char>)
    requires
        keys_sorted(s),
    ensures
        lookup(s, k) is Some <==> has_key(s, k),
        has_key(s, k) ==> exists|i: int|
            0 <= i < s.len() && s[i].0 == k && lookup(s, k) == Some(#[trigger] s[i].1),
{
    if has_key(s, k) {
        let i = choose|i: int| 0 <= i < s.len() && #[trigger] s[i].0 == k;
        lemma_lookup_index(s, i);
    } else {
        lemma_lookup_absent(s, k);
    }
}

/// Storing keeps the entries sorted.
pub proof fn lemma_seq_insert_sorted<T>(s: Seq<(Seq<char>, T)>, k: Seq<char>, v: T)
    requires
        keys_sorted(s),
    ensures
        keys_sorted(seq_insert(s, k, v)),
{
    lemma_insert_pos_split(s, k);
    let p = insert_pos(s, k) as int;
    let r = seq_insert(s, k, v);
    if p < s.len() && s[p].0 == k {
        assert forall|i: int, j: int| 0 <= i < j < r.len() implies seq_lt(
            #[trigger] r[i].0,
            #[trigger] r[j].0,
        ) by {
            assert(r[i].0 == s[i].0 && r[j].0 == s[j].0);
        }
    } else {
        assert forall|i: int, j: int| 0 <= i < j < r.len() implies seq_lt(
            #[trigger] r[i].0,
            #[trigger] r[j].0,
        ) by {
            if j < p {
                assert(r[i] == s[i] && r[j] == s[j]);
            } else if j == p {
                assert(r[i] == s[i]);
            } else if i < p {
                assert(r[i] == s[i] && r[j] == s[j - 1]);
                assert(seq_lt(s[i].0, k));
                lemma_seq_lt_total(s[j - 1].0, k);
                if seq_lt(k, s[j - 1].0) {
                    lemma_seq_lt_transitive(s[i].0, k, s[j - 1].0);
                } else {
                    if j - 1 > p {
                        assert(seq_lt(s[p].0, s[j - 1].0));
                    }
                }
            } else if i == p {
                assert(r[j] == s[j - 1]);
                assert(!seq_lt(s[j - 1].0, k));
                lemma_seq_lt_total(s[j - 1].0, k);
                if s[j - 1].0 == k {
                    if j - 1 > p {
                        assert(seq_lt(s[p].0, s[j - 1].0));
                        assert(!seq_lt(s[p].0, k));
                    }
                }
            } else {
                assert(r[i] == s[i - 1] && r[j] == s[j - 1]);
            }
        }
    }
}

/// Storing many entries keeps the entries sorted.
pub proof fn lemma_insert_all_sorted<T>(m: Seq<(Seq<char>, T)>, items: Seq<(Seq<char>, T)>)
    requires
        keys_sorted(m),
    ensures
        keys_sorted(insert_all(m, items)),
    decreases items.len(),
{
    if items.len() > 0 {
        lemma_insert_all_sorted(m, items.drop_last());
        lemma_seq_insert_sorted(insert_all(m, items.drop_last()), items.last().0, items.last().1);
    }
}

/// After storing `v` under `k`, `k` finds `v` and other keys are unchanged.
pub proof fn lemma_seq_insert_lookup<T>(s: Seq<(Seq<char>, T)>, k: Seq<char>, v: T, k2: Seq<char>)
    requires
        keys_sorted(s),
    ensures
        lookup(seq_insert(s, k, v), k2) == (if k2 == k {
            Some(v)
        } else {
            lookup(s, k2)
        }),
{
    lemma_seq_insert_sorted(s, k, v);
    lemma_insert_pos_split(s, k);
    let p = insert_pos(s, k) as int;
    let r = seq_insert(s, k, v);
    if k2 == k {
        assert(r[p] == (k, v));
        lemma_lookup_index(r, p);
    } else {
        lemma_lookup_some(s, k2);
        lemma_lookup_some(r, k2);
        if has_key(s, k2) {
            let i = choose|i: int| 0 <= i < s.len() && s[i].0 == k2 && lookup(s, k2) == Some(#[trigger] s[i].1);
            if p < s.len() && s[p].0 == k {
                assert(r[i] == s[i]);
                lemma_lookup_index(r, i);
            } else if i < p {
                assert(r[i] == s[i]);
                lemma_lookup_index(r, i);
            } else {
                assert(r[i + 1] == s[i]);
                lemma_lookup_index(r, i + 1);
            }
        } else {
            assert(!has_key(r, k2)) by {
                if has_key(r, k2) {
                    let j = choose|j: int| 0 <= j < r.len() && #[trigger] r[j].0 == k2;
                    if p < s.len() && s[p].0 == k {
                        if j != p {
                            assert(r[j] == s[j]);
                        }
                    } else if j < p {
                        assert(r[j] == s[j]);
                    } else if j > p {
                        assert(r[j] == s[j - 1]);
                    }
                }
            }
        }
    }
}

/// A text-keyed map held as entries in strictly increasing key order.
#[derive(Debug)]
pub struct TextMap<V: View> {
    entries: Vec<(String, V)>,
}

/// Abstract value of a vector of entries.
pub open spec fn entries_view<V: View>(v: Seq<(String, V)>) -> Seq<(Seq<char>, V::V)> {
    v.map_values(|e: (String, V)| (e.0@, e.1@))
}

impl<V: View> View for TextMap<V> {
    type V = Seq<(Seq<char>, V::V)>;

    closed spec fn view(&self) -> Self::V {
        entries_view(self.entries@)
    }
}

impl<V: View> TextMap<V> {
    /// Entries sorted by key, each key once; every map keeps this.
    #[verifier::type_invariant]
    pub open spec fn wf(&self) -> bool {
        keys_sorted(self@)
    }

    /// The entries are sorted by key.
    pub fn check_wf(&self)
        ensures
            self.wf(),
    {
        proof {
            use_type_invariant(self);
        }
    }

    /// An empty map.
    pub fn new() -> (m: Self)
        ensures
            m@ == Seq::<(Seq<char>, V::V)>::empty(),
            m.wf(),
    {
        let m = TextMap { entries: Vec::new() };
        assert(m@ =~= Seq::<(Seq<char>, V::V)>::empty());
        m
    }

    /// Number of entries.
    pub fn len(&self) -> (n: usize)
        ensures
            n == self@.len(),
    {
        self.entries.len()
    }

    /// Whether the map has no entries.
    pub fn is_empty(&self) -> (b: bool)
        ensures
            b == (self@.len() == 0),
    {
        self.entries.len() == 0
    }

    /// Key of the `i`-th entry in key order.
    pub fn key_at(&self, i: usize) -> (k: &String)
        requires
            i < self@.len(),
        ensures
            k@ == self@[i as int].0,
    {
        &self.entries[i].0
    }

    /// Value of the `i`-th entry in key order.
    pub fn value_at(&self, i: usize) -> (v: &V)
        requires
            i < self@.len(),
        ensures
            v@ == self@[i as int].1,
    {
        &self.entries[i].1
    }

    /// Index of the entry keyed `k`, if any.
    pub fn find(&self, k: &str) -> (r: Option<usize>)
        ensures
            match r {
                Some(i) => i < self@.len() && self@[i as int].0 == k@ && lookup(self@, k@)
                    == Some(self@[i as int].1),
                None => !has_key(self@, k@) && lookup(self@, k@) is None,
            },
    {
        proof {
            use_type_invariant(self);
        }
        let kc = chars_of(k);
        let mut i: usize = 0;
        while i < self.entries.len()
            invariant
                i <= self@.len(),
                self.wf(),
                self@.len() == self.entries@.len(),
                kc@ == k@,
                forall|j: int| 0 <= j < i ==> self@[j].0 != k@,
            decreases self@.len() - i,
        {
            let ki = chars_of(self.entries[i].0.as_str());
            assert(self@[i as int].0 == self.entries@[i as int].0@);
            if chars_eq(ki.as_slice(), kc.as_slice()) {
                proof {
                    lemma_lookup_index(self@, i as int);
                }
                return Some(i);
            }
            i = i + 1;
        }
        proof {
            lemma_lookup_absent(self@, k@);
        }
        None
    }

    /// The value stored under `k`, if any.
    pub fn get(&self, k: &str) -> (r: Option<&V>)
        ensures
            match r {
                Some(v) => lookup(self@, k@) == Some(v@),
                None => lookup(self@, k@) is None && !has_key(self@, k@),
            },
    {
        match self.find(k) {
            Some(i) => Some(self.value_at(i)),
            None => None,
        }
    }

    /// Whether some entry is keyed `k`.
    pub fn contains_key(&self, k: &str) -> (b: bool)
        ensures
            b == has_key(self@, k@),
    {
        match self.find(k) {
            Some(i) => {
                assert(self@[i as int].0 == k@);
                true
            },
            None => false,
        }
    }

    fn key_less(&self, i: usize, kc: &Vec<char>) -> (b: bool)
        requires
            i < self@.len(),
        ensures
            b == seq_lt(self@[i as int].0, kc@),
    {
        let ki = chars_of(self.entries[i].0.as_str());
        assert(self@[i as int].0 == self.entries@[i as int].0@);
        chars_less(ki.as_slice(), kc.as_slice())
    }

    /// Removes the entry keyed `k`, returning its value.
    pub fn remove(&mut self, k: &str) -> (r: Option<V>)
        ensures
            final(self).wf(),
            final(self)@ == remove_key(old(self)@, k@),
            match r {
                Some(v) => lookup(old(self)@, k@) == Some(v@),
                None => lookup(old(self)@, k@) is None,
            },
    {
        proof {
            use_type_invariant(&*self);
        }
        let ghost s = self@;
        proof {
            lemma_remove_key_sorted(s, k@);
        }
        match self.find(k) {
            Some(i) => {
                proof {
                    lemma_key_unique(s, i as int, key_index(s, k@));
                }
                let mut entries: Vec<(String, V)> = Vec::new();
                std::mem::swap(&mut entries, &mut self.entries);
                let (_, v) = entries.remove(i);
                assert(entries_view(entries@) =~= s.remove(i as int));
                self.entries = entries;
                Some(v)
            },
            None => None,
        }
    }

    /// Stores `v` under `k`, replacing any previous value.
    pub fn insert(&mut self, k: String, v: V)
        ensures
            final(self).wf(),
            final(self)@ == seq_insert(old(self)@, k@, v@),
    {
        proof {
            use_type_invariant(&*self);
        }
        let ghost s = self@;
        let kc = chars_of(k.as_str());
        let mut p: usize = 0;
        proof {
            lemma_insert_pos_split(s, k@);
        }
        while p < self.entries.len() && self.key_less(p, &kc)
            invariant
                self@ == s,
                keys_sorted(s),
                p <= s.len(),
                s.len() == self.entries@.len(),
                kc@ == k@,
                forall|j: int| 0 <= j < p ==> seq_lt(#[trigger] s[j].0, k@),
                insert_pos(s, k@) <= s.len(),
                forall|i: int| 0 <= i < insert_pos(s, k@) ==> seq_lt(#[trigger] s[i].0, k@),
                forall|i: int| insert_pos(s, k@) <= i < s.len() ==> !seq_lt(#[trigger] s[i].0, k@),
            decreases s.len() - p,
        {
            p = p + 1;
        }
        proof {
            if p < insert_pos(s, k@) {
                assert(seq_lt(s[p as int].0, k@));
            }
            if (p as int) > (insert_pos(s, k@) as int) {
                assert(seq_lt(s[insert_pos(s, k@) as int].0, k@));
            }
            assert(p == insert_pos(s, k@));
        }
        let same = if p < self.entries.len() {
            let kp = chars_of(self.entries[p].0.as_str());
            assert(s[p as int].0 == self.entries@[p as int].0@);
            chars_eq(kp.as_slice(), kc.as_slice())
        } else {
            false
        };
        let ghost kv = (k@, v@);
        let mut entries: Vec<(String, V)> = Vec::new();
        std::mem::swap(&mut entries, &mut self.entries);
        if same {
            entries.set(p, (k, v));
        } else {
            entries.insert(p, (k, v));
        }
        proof {
            assert(entries_view(entries@) =~= seq_insert(s, kv.0, kv.1));
            lemma_seq_insert_sorted(s, kv.0, kv.1);
        }
        self.entries = entries;
    }
}


impl TextMap<String> {
    /// A copy of the map.
    pub fn clone_map(&self) -> (r: TextMap<String>)
        ensures
            r@ == self@,
    {
        let mut entries: Vec<(String, String)> = Vec::new();
        let mut i: usize = 0;
        while i < self.entries.len()
            invariant
                i <= self.entries@.len(),
                entries@.map_values(|e: (String, String)| (e.0@, e.1@)) == self@.take(i as int),
            decreases self.entries@.len() - i,
        {
            let k = self.entries[i].0.clone();
            let v = self.entries[i].1.clone();
            let ghost before = entries@.map_values(|e: (String, String)| (e.0@, e.1@));
            entries.push((k, v));
            assert(entries@.map_values(|e: (String, String)| (e.0@, e.1@)) =~= before.push(
                self@[i as int],
            ));
            assert(self@.take(i + 1) =~= self@.take(i as int).push(self@[i as int]));
            i = i + 1;
        }
        assert(self@.take(self@.len() as int) =~= self@);
        proof {
            use_type_invariant(self);
        }
        TextMap { entries }
    }

    /// Whether both maps hold the same entries.
    pub fn same_entries(&self, other: &TextMap<String>) -> (b: bool)
        ensures
            b == (self@ == other@),
    {
        if self.entries.len() != other.entries.len() {
            return false;
        }
        let mut i: usize = 0;
        while i < self.entries.len()
            invariant
                i <= self@.len(),
                self@.len() == other@.len(),
                self@.len() == self.entries@.len(),
                other@.len() == other.entries@.len(),
                forall|j: int| 0 <= j < i ==> self@[j] == other@[j],
            decreases self@.len() - i,
        {
            let ka = chars_of(self.entries[i].0.as_str());
            let kb = chars_of(other.entries[i].0.as_str());
            let va = chars_of(self.entries[i].1.as_str());
            let vb = chars_of(other.entries[i].1.as_str());
            assert(self@[i as int] == (self.entries@[i as int].0@, self.entries@[i as int].1@));
            assert(other@[i as int] == (other.entries@[i as int].0@, other.entries@[i as int].1@));
            if !chars_eq(ka.as_slice(), kb.as_slice()) || !chars_eq(va.as_slice(), vb.as_slice()) {
                return false;
            }
            i = i + 1;
        }
        assert(self@ =~= other@);
        true
    }
}

} // verus!
