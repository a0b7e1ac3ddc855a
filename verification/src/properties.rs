use vstd::prelude::*;
use crate::text::str_eq;

verus! {

/// The mathematical model of a property list: key and value (`None` for a null
/// value), in insertion order.
pub type PropSeq = Seq<(Seq<char>, Option<Seq<char>>)>;

/// The characters of an optional string.
pub open spec fn opt_chars(v: Option<String>) -> Option<Seq<char>> {
    match v {
        Some(s) => Some(s@),
        None => None,
    }
}

/// No key occurs twice.
pub open spec fn keys_distinct(ps: PropSeq) -> bool {
    forall|i: int, j: int| 0 <= i < j < ps.len() ==> ps[i].0 != ps[j].0
}

/// The position of key `k` in `ps` (its last occurrence), or -1 where it is absent.
pub open spec fn key_pos(ps: PropSeq, k: Seq<char>) -> int
    decreases ps.len(),
{
    if ps.len() == 0 {
        -1
    } else if ps.last().0 == k {
        ps.len() - 1
    } else {
        key_pos(ps.drop_last(), k)
    }
}

/// Whether key `k` is present.
pub open spec fn has_key(ps: PropSeq, k: Seq<char>) -> bool {
    key_pos(ps, k) >= 0
}

/// The value stored under `k`, if the key is present.
pub open spec fn prop_get(ps: PropSeq, k: Seq<char>) -> Option<Option<Seq<char>>> {
    if has_key(ps, k) {
        Some(ps[key_pos(ps, k)].1)
    } else {
        None
    }
}

/// Inserting `k => v`: the value of a present key is replaced in place, a new key
/// is appended.
pub open spec fn prop_insert(ps: PropSeq, k: Seq<char>, v: Option<Seq<char>>) -> PropSeq {
    if has_key(ps, k) {
        ps.update(key_pos(ps, k), (k, v))
    } else {
        ps.push((k, v))
    }
}

/// Removing key `k`, the order of the others kept.
pub open spec fn prop_remove(ps: PropSeq, k: Seq<char>) -> PropSeq {
    if has_key(ps, k) {
        ps.remove(key_pos(ps, k))
    } else {
        ps
    }
}

/// `key_pos` finds the entry whose key is `k`, and in a list without repeated
/// keys that entry is the only one.
pub proof fn lemma_key_pos(ps: PropSeq, k: Seq<char>)
    ensures
        -1 <= key_pos(ps, k) < ps.len(),
        key_pos(ps, k) >= 0 ==> ps[key_pos(ps, k)].0 == k,
        key_pos(ps, k) == -1 ==> forall|i: int| 0 <= i < ps.len() ==> ps[i].0 != k,
        keys_distinct(ps) ==> forall|i: int| 0 <= i < ps.len() && ps[i].0 == k ==> key_pos(ps, k) == i,
    decreases ps.len(),
{
    if ps.len() > 0 {
        let pre = ps.drop_last();
        let n = ps.len() - 1;
        lemma_key_pos(pre, k);
        assert forall|i: int| 0 <= i < n implies pre[i] == ps[i] by {}
        if ps.last().0 != k {
            assert forall|i: int| 0 <= i < ps.len() && key_pos(ps, k) == -1 implies ps[i].0 != k by {
                if i < n {
                    assert(pre[i] == ps[i]);
                }
            }
        }
        if keys_distinct(ps) {
            assert forall|i: int, j: int| 0 <= i < j < pre.len() implies pre[i].0 != pre[j].0 by {
                assert(pre[i] == ps[i]);
                assert(pre[j] == ps[j]);
            }
            assert forall|i: int| 0 <= i < ps.len() && ps[i].0 == k implies key_pos(ps, k) == i by {
                if ps.last().0 == k {
                    if i < n {
                        assert(ps[i].0 != ps[n].0);
                    }
                } else {
                    assert(i != n);
                    assert(pre[i] == ps[i]);
                }
            }
        }
    }
}

/// Inserting and removing keep keys distinct.
pub proof fn lemma_insert_remove_distinct(ps: PropSeq, k: Seq<char>, v: Option<Seq<char>>)
    requires
        keys_distinct(ps),
    ensures
        keys_distinct(prop_insert(ps, k, v)),
        keys_distinct(prop_remove(ps, k)),
{
    lemma_key_pos(ps, k);
    let ins = prop_insert(ps, k, v);
    assert forall|i: int, j: int| 0 <= i < j < ins.len() implies ins[i].0 != ins[j].0 by {
        if !has_key(ps, k) {
            assert(j == ps.len() ==> ps[i].0 != k);
        }
    }
    let rem = prop_remove(ps, k);
    if has_key(ps, k) {
        let p = key_pos(ps, k);
        assert forall|i: int, j: int| 0 <= i < j < rem.len() implies rem[i].0 != rem[j].0 by {
            let i2 = if i < p { i } else { i + 1 };
            let j2 = if j < p { j } else { j + 1 };
            assert(rem[i] == ps[i2]);
            assert(rem[j] == ps[j2]);
        }
    }
}

/// Reading a key after inserting it gives the value inserted; every other key keeps
/// its value.
pub proof fn lemma_get_after_insert(ps: PropSeq, k: Seq<char>, v: Option<Seq<char>>, other: Seq<char>)
    requires
        keys_distinct(ps),
    ensures
        prop_get(prop_insert(ps, k, v), k) == Some(v),
        other != k ==> prop_get(prop_insert(ps, k, v), other) == prop_get(ps, other),
{
    lemma_insert_remove_distinct(ps, k, v);
    let ins = prop_insert(ps, k, v);
    lemma_key_pos(ps, k);
    lemma_key_pos(ps, other);
    lemma_key_pos(ins, k);
    lemma_key_pos(ins, other);
    let p = if has_key(ps, k) { key_pos(ps, k) } else { ps.len() as int };
    assert(ins[p].0 == k);
    if other != k {
        if has_key(ps, other) {
            let q = key_pos(ps, other);
            assert(ins[q] == ps[q]);
        } else if has_key(ins, other) {
            let q = key_pos(ins, other);
            assert(q != p);
            assert(ins[q] == ps[q]);
        }
    }
}

/// Reading a key after removing it gives nothing; every other key keeps its value.
pub proof fn lemma_get_after_remove(ps: PropSeq, k: Seq<char>, other: Seq<char>)
    requires
        keys_distinct(ps),
    ensures
        prop_get(prop_remove(ps, k), k) is None,
        other != k ==> prop_get(prop_remove(ps, k), other) == prop_get(ps, other),
{
    lemma_insert_remove_distinct(ps, k, None);
    let rem = prop_remove(ps, k);
    lemma_key_pos(ps, k);
    lemma_key_pos(ps, other);
    lemma_key_pos(rem, k);
    lemma_key_pos(rem, other);
    if has_key(ps, k) {
        let p = key_pos(ps, k);
        if has_key(rem, k) {
            let q = key_pos(rem, k);
            let q2 = if q < p { q } else { q + 1 };
            assert(rem[q] == ps[q2]);
        }
        if other != k {
            if has_key(ps, other) {
                let q = key_pos(ps, other);
                let q1 = if q < p { q } else { q - 1 };
                assert(rem[q1] == ps[q]);
            } else if has_key(rem, other) {
                let q = key_pos(rem, other);
                let q2 = if q < p { q } else { q + 1 };
                assert(rem[q] == ps[q2]);
            }
        }
    }
}

/// A list of string properties, each key at most once, kept in the order the keys
/// were first inserted. A `None` value is a null value.
#[derive(Debug)]
pub struct Properties {
    entries: Vec<(String, Option<String>)>,
}

impl View for Properties {
    type V = PropSeq;

    closed spec fn view(&self) -> PropSeq {
        Seq::new(
            self.entries@.len(),
            |i: int| (self.entries@[i].0@, opt_chars(self.entries@[i].1)),
        )
    }
}

impl Properties {
    #[verifier::type_invariant]
    spec fn well_formed(self) -> bool {
        keys_distinct(self@)
    }

    /// An empty list.
    pub fn new() -> (r: Self)
        ensures
            r@ == Seq::<(Seq<char>, Option<Seq<char>>)>::empty(),
    {
        let r = Properties { entries: Vec::new() };
        assert(r@ =~= Seq::<(Seq<char>, Option<Seq<char>>)>::empty());
        r
    }

    /// The number of keys; no key occurs twice.
    pub fn len(&self) -> (r: usize)
        ensures
            r == self@.len(),
            keys_distinct(self@),
    {
        proof {
            use_type_invariant(self);
        }
        self.entries.len()
    }

    /// Whether there are no keys.
    pub fn is_empty(&self) -> (r: bool)
        ensures
            r == (self@.len() == 0),
    {
        self.entries.len() == 0
    }

    /// The entry at position `i`.
    pub fn entry(&self, i: usize) -> (r: (&String, &Option<String>))
        requires
            i < self@.len(),
        ensures
            (r.0@, opt_chars(*r.1)) == self@[i as int],
    {
        let e = &self.entries[i];
        (&e.0, &e.1)
    }

    /// The position of `key`, if present.
    fn find(&self, key: &str) -> (r: Option<usize>)
        ensures
            match r {
                Some(i) => key_pos(self@, key@) == i && i < self@.len(),
                None => !has_key(self@, key@),
            },
    {
        proof {
            use_type_invariant(self);
            lemma_key_pos(self@, key@);
        }
        let mut i: usize = 0;
        while i < self.entries.len()
            invariant
                i <= self@.len(),
                self@.len() == self.entries@.len(),
                keys_distinct(self@),
                forall|j: int| 0 <= j < self@.len() && self@[j].0 == key@ ==> key_pos(self@, key@) == j,
                key_pos(self@, key@) == -1 ==> forall|j: int| 0 <= j < self@.len() ==> self@[j].0 != key@,
                -1 <= key_pos(self@, key@) < self@.len(),
                key_pos(self@, key@) >= 0 ==> self@[key_pos(self@, key@)].0 == key@,
                forall|j: int| 0 <= j < i ==> self@[j].0 != key@,
            decreases self@.len() - i,
        {
            if str_eq(self.entries[i].0.as_str(), key) {
                assert(self@[i as int].0 == key@);
                return Some(i);
            }
            i = i + 1;
        }
        None
    }

    /// Whether `key` is present.
    pub fn contains_key(&self, key: &str) -> (r: bool)
        ensures
            r == has_key(self@, key@),
    {
        self.find(key).is_some()
    }

    /// The value stored under `key`; `None` where the key is absent.
    pub fn get(&self, key: &str) -> (r: Option<&Option<String>>)
        ensures
            r is Some <==> has_key(self@, key@),
            r matches Some(v) ==> prop_get(self@, key@) == Some(opt_chars(*v)),
    {
        match self.find(key) {
            Some(i) => Some(&self.entries[i].1),
            None => None,
        }
    }

    /// Stores `value` under `key` and gives back the value it replaced, if any.
    pub fn insert(&mut self, key: String, value: Option<String>) -> (r: Option<Option<String>>)
        ensures
            final(self)@ == prop_insert(old(self)@, key@, opt_chars(value)),
            r is Some <==> has_key(old(self)@, key@),
            r matches Some(v) ==> prop_get(old(self)@, key@) == Some(opt_chars(v)),
    {
        proof {
            use_type_invariant(&*self);
            lemma_insert_remove_distinct(self@, key@, opt_chars(value));
        }
        let ghost old_view = self@;
        let found = self.find(key.as_str());
        let mut entries: Vec<(String, Option<String>)> = Vec::new();
        std::mem::swap(&mut entries, &mut self.entries);
        let r = match found {
            Some(i) => {
                let old_entry = entries.remove(i);
                entries.insert(i, (key, value));
                Some(old_entry.1)
            },
            None => {
                entries.push((key, value));
                None
            },
        };
        let ghost new_view = Seq::new(
            entries@.len(),
            |i: int| (entries@[i].0@, opt_chars(entries@[i].1)),
        );
        assert(new_view =~= prop_insert(old_view, key@, opt_chars(value)));
        self.entries = entries;
        r
    }

    /// Removes `key` and gives back its value, if it was present.
    pub fn remove(&mut self, key: &str) -> (r: Option<Option<String>>)
        ensures
            final(self)@ == prop_remove(old(self)@, key@),
            r is Some <==> has_key(old(self)@, key@),
            r matches Some(v) ==> prop_get(old(self)@, key@) == Some(opt_chars(v)),
    {
        proof {
            use_type_invariant(&*self);
            lemma_insert_remove_distinct(self@, key@, None);
        }
        let ghost old_view = self@;
        let found = self.find(key);
        match found {
            Some(i) => {
                let mut entries: Vec<(String, Option<String>)> = Vec::new();
                std::mem::swap(&mut entries, &mut self.entries);
                let old_entry = entries.remove(i);
                let ghost new_view = Seq::new(
                    entries@.len(),
                    |i: int| (entries@[i].0@, opt_chars(entries@[i].1)),
                );
                assert(new_view =~= prop_remove(old_view, key@));
                self.entries = entries;
                Some(old_entry.1)
            },
            None => None,
        }
    }
}

/// A copy of an optional string.
pub fn copy_opt_string(v: &Option<String>) -> (r: Option<String>)
    ensures
        opt_chars(r) == opt_chars(*v),
{
    match v {
        Some(s) => Some(s.clone()),
        None => None,
    }
}

impl Clone for Properties {
    /// A copy with the same entries in the same order.
    fn clone(&self) -> (r: Self)
        ensures
            r@ == self@,
    {
        proof {
            use_type_invariant(self);
        }
        let mut entries: Vec<(String, Option<String>)> = Vec::new();
        let mut i: usize = 0;
        while i < self.entries.len()
            invariant
                i <= self.entries@.len(),
                entries@.len() == i,
                forall|j: int|
                    0 <= j < i ==> (#[trigger] entries@[j]).0@ == self.entries@[j].0@ && opt_chars(
                        entries@[j].1,
                    ) == opt_chars(self.entries@[j].1),
            decreases self.entries@.len() - i,
        {
            let e = &self.entries[i];
            entries.push((e.0.clone(), copy_opt_string(&e.1)));
            i = i + 1;
        }
        let ghost v = Seq::new(
            entries@.len(),
            |i: int| (entries@[i].0@, opt_chars(entries@[i].1)),
        );
        assert(v =~= self@);
        Properties { entries }
    }
}

} // verus!
