use vstd::prelude::*;

use crate::text::chars_of;

verus! {

/// Code-point order of two characters (the order of `str` bytes under UTF-8).
pub open spec fn char_lt(a: char, b: char) -> bool {
    a < b
}

/// Lexicographic order of character sequences, as `String`'s `Ord` compares.
pub open spec fn lex_lt(a: Seq<char>, b: Seq<char>) -> bool
    decreases a.len(),
{
    if a.len() == 0 {
        b.len() > 0
    } else if b.len() == 0 {
        false
    } else if char_lt(a[0], b[0]) {
        true
    } else if a[0] == b[0] {
        lex_lt(a.drop_first(), b.drop_first())
    } else {
        false
    }
}

pub proof fn lemma_lex_irreflexive(a: Seq<char>)
    ensures
        !lex_lt(a, a),
    decreases a.len(),
{
    if a.len() > 0 {
        lemma_lex_irreflexive(a.drop_first());
    }
}

pub proof fn lemma_lex_asymmetric(a: Seq<char>, b: Seq<char>)
    ensures
        !(lex_lt(a, b) && lex_lt(b, a)),
    decreases a.len(),
{
    if a.len() > 0 && b.len() > 0 && a[0] == b[0] {
        lemma_lex_asymmetric(a.drop_first(), b.drop_first());
    }
}

pub proof fn lemma_lex_transitive(a: Seq<char>, b: Seq<char>, c: Seq<char>)
    requires
        lex_lt(a, b),
        lex_lt(b, c),
    ensures
        lex_lt(a, c),
    decreases a.len(),
{
    if a.len() > 0 && b.len() > 0 && c.len() > 0 && a[0] == b[0] && b[0] == c[0] {
        lemma_lex_transitive(a.drop_first(), b.drop_first(), c.drop_first());
    }
}

pub proof fn lemma_lex_total(a: Seq<char>, b: Seq<char>)
    ensures
        a == b || lex_lt(a, b) || lex_lt(b, a),
    decreases a.len(),
{
    if a.len() > 0 && b.len() > 0 && a[0] == b[0] {
        lemma_lex_total(a.drop_first(), b.drop_first());
        if a.drop_first() == b.drop_first() {
            assert(a =~= seq![a[0]] + a.drop_first());
            assert(b =~= seq![b[0]] + b.drop_first());
        }
    } else if a.len() == 0 && b.len() == 0 {
        assert(a =~= b);
    }
}

proof fn lemma_map_insert_eq<V>(m1: Map<Seq<char>, V>, m0: Map<Seq<char>, V>, k: Seq<char>, v: V)
    requires
        m1.contains_key(k),
        m1[k] == v,
        forall|q: Seq<char>|
            q != k ==> (#[trigger] m1.contains_key(q) == m0.contains_key(q)) && (m0.contains_key(q)
                ==> m1[q] == m0[q]),
    ensures
        m1 == m0.insert(k, v),
{
    assert forall|q: Seq<char>| #[trigger] m1.contains_key(q) == m0.insert(k, v).contains_key(q) by {
        if q != k {
            assert(m1.contains_key(q) == m0.contains_key(q));
        }
    }
    assert forall|q: Seq<char>| #[trigger] m1.contains_key(q) implies m1[q] == m0.insert(k, v)[q] by {
        if q != k {
            assert(m1.contains_key(q) == m0.contains_key(q));
        }
    }
    assert(m1 =~= m0.insert(k, v));
}

/// How two keys compare.
#[derive(Debug)]
pub enum KeyOrder {
    Less,
    Equal,
    Greater,
}

/// Compares two character sequences lexicographically.
pub fn compare_chars(a: &[char], b: &[char]) -> (r: KeyOrder)
    ensures
        r is Less <==> lex_lt(a@, b@),
        r is Equal <==> a@ == b@,
        r is Greater <==> lex_lt(b@, a@),
{
    proof {
        lemma_lex_asymmetric(a@, b@);
        lemma_lex_total(a@, b@);
        lemma_lex_irreflexive(a@);
    }
    assert(a@.skip(0) =~= a@);
    assert(b@.skip(0) =~= b@);
    let mut i: usize = 0;
    while i < a.len() && i < b.len() && a[i] == b[i]
        invariant
            i <= a.len(),
            i <= b.len(),
            a@.take(i as int) == b@.take(i as int),
            lex_lt(a@, b@) == lex_lt(a@.skip(i as int), b@.skip(i as int)),
            lex_lt(b@, a@) == lex_lt(b@.skip(i as int), a@.skip(i as int)),
        decreases a.len() - i,
    {
        assert(a@.skip(i as int).drop_first() =~= a@.skip(i + 1));
        assert(b@.skip(i as int).drop_first() =~= b@.skip(i + 1));
        assert(a@.take(i + 1) =~= a@.take(i as int).push(a@[i as int]));
        assert(b@.take(i + 1) =~= b@.take(i as int).push(b@[i as int]));
        i += 1;
    }
    if i == a.len() && i == b.len() {
        assert(a@ =~= a@.take(i as int));
        assert(b@ =~= b@.take(i as int));
        KeyOrder::Equal
    } else if i == a.len() {
        assert(a@.skip(i as int).len() == 0);
        assert(a@ != b@);
        KeyOrder::Less
    } else if i == b.len() {
        assert(b@.skip(i as int).len() == 0);
        assert(a@ != b@);
        KeyOrder::Greater
    } else if a[i] < b[i] {
        assert(a@ != b@) by {
            if a@ == b@ {
                assert(a@[i as int] == b@[i as int]);
            }
        }
        KeyOrder::Less
    } else {
        assert(a@ != b@) by {
            if a@ == b@ {
                assert(a@[i as int] == b@[i as int]);
            }
        }
        KeyOrder::Greater
    }
}

/// Keys strictly ascend, so none occurs twice.
pub open spec fn keys_ascend<V>(entries: Seq<(String, V)>) -> bool {
    forall|i: int, j: int|
        0 <= i < j < entries.len() ==> lex_lt(#[trigger] entries[i].0@, #[trigger] entries[j].0@)
}

/// The index of an entry holding key `k`.
pub closed spec fn index_of_key<V>(e: Seq<(String, V)>, k: Seq<char>) -> int {
    choose|i: int| 0 <= i < e.len() && e[i].0@ == k
}

/// The map that a sequence of entries forms.
pub closed spec fn entries_map<V>(e: Seq<(String, V)>) -> Map<Seq<char>, V> {
    Map::new(
        |k: Seq<char>| exists|i: int| 0 <= i < e.len() && e[i].0@ == k,
        |k: Seq<char>| e[index_of_key(e, k)].1,
    )
}

proof fn lemma_entry_in_map<V>(e: Seq<(String, V)>, i: int)
    requires
        keys_ascend(e),
        0 <= i < e.len(),
    ensures
        entries_map(e).contains_key(e[i].0@),
        entries_map(e)[e[i].0@] == e[i].1,
{
    let k = e[i].0@;
    assert(entries_map(e).contains_key(k)) by {
        assert(0 <= i < e.len() && e[i].0@ == k);
    }
    let j = index_of_key(e, k);
    assert(entries_map(e)[k] == e[j].1);
    if j != i {
        lemma_lex_irreflexive(k);
        if j < i {
            assert(lex_lt(e[j].0@, e[i].0@));
        } else {
            assert(lex_lt(e[i].0@, e[j].0@));
        }
    }
}

proof fn lemma_map_len<V>(e: Seq<(String, V)>)
    requires
        keys_ascend(e),
    ensures
        entries_map(e).dom().finite(),
        entries_map(e).len() == e.len(),
{
    let ks = e.map_values(|x: (String, V)| x.0@);
    assert forall|i: int, j: int| 0 <= i < j < ks.len() implies ks[i] != ks[j] by {
        lemma_lex_irreflexive(ks[i]);
        assert(lex_lt(e[i].0@, e[j].0@));
    }
    ks.unique_seq_to_set();
    assert(entries_map(e).dom() =~= ks.to_set()) by {
        assert forall|k: Seq<char>| entries_map(e).dom().contains(k) implies ks.to_set().contains(k) by {
            let i = choose|i: int| 0 <= i < e.len() && e[i].0@ == k;
            assert(ks[i] == k);
        }
        assert forall|k: Seq<char>| ks.to_set().contains(k) implies entries_map(e).dom().contains(k) by {
            let i = choose|i: int| 0 <= i < ks.len() && ks[i] == k;
            assert(e[i].0@ == k);
        }
    }
}

/// The index of `key`, if present, or the index where it would be inserted.
fn locate<V>(e: &Vec<(String, V)>, key: &[char]) -> (r: (usize, bool))
    requires
        keys_ascend(e@),
    ensures
        r.0 <= e@.len(),
        forall|i: int| 0 <= i < r.0 ==> lex_lt(#[trigger] e@[i].0@, key@),
        r.1 ==> r.0 < e@.len() && e@[r.0 as int].0@ == key@,
        !r.1 ==> forall|i: int| r.0 <= i < e@.len() ==> lex_lt(key@, #[trigger] e@[i].0@),
        !r.1 ==> !entries_map(e@).contains_key(key@),
{
    let mut i: usize = 0;
    while i < e.len()
        invariant
            keys_ascend(e@),
            i <= e@.len(),
            forall|j: int| 0 <= j < i ==> lex_lt(#[trigger] e@[j].0@, key@),
        decreases e@.len() - i,
    {
        let k = chars_of(e[i].0.as_str());
        match compare_chars(&k, key) {
            KeyOrder::Less => {
                i += 1;
            },
            KeyOrder::Equal => {
                return (i, true);
            },
            KeyOrder::Greater => {
                assert forall|j: int| i <= j < e@.len() implies lex_lt(key@, #[trigger] e@[j].0@) by {
                    if j > i {
                        lemma_lex_transitive(key@, e@[i as int].0@, e@[j].0@);
                    }
                }
                proof {
                    lemma_absent(e@, key@, i as int);
                }
                return (i, false);
            },
        }
    }
    proof {
        lemma_absent(e@, key@, i as int);
    }
    (i, false)
}

proof fn lemma_absent<V>(e: Seq<(String, V)>, key: Seq<char>, i: int)
    requires
        0 <= i <= e.len(),
        forall|j: int| 0 <= j < i ==> lex_lt(#[trigger] e[j].0@, key),
        forall|j: int| i <= j < e.len() ==> lex_lt(key, #[trigger] e[j].0@),
    ensures
        !entries_map(e).contains_key(key),
{
    if entries_map(e).contains_key(key) {
        let j = choose|j: int| 0 <= j < e.len() && e[j].0@ == key;
        lemma_lex_irreflexive(key);
        if j < i {
            assert(lex_lt(e[j].0@, key));
        } else {
            assert(lex_lt(key, e[j].0@));
        }
    }
}

/// A map from string keys to values that keeps its entries in key order
/// (the layout of a `BTreeMap<String, V>`).
#[derive(Debug)]
pub struct KeyMap<V> {
    entries: Vec<(String, V)>,
}

impl<V> KeyMap<V> {
    #[verifier::type_invariant]
    closed spec fn wf(self) -> bool {
        keys_ascend(self.entries@)
    }

    /// The keys, in ascending order.
    pub closed spec fn keys(self) -> Seq<Seq<char>> {
        self.entries@.map_values(|e: (String, V)| e.0@)
    }

    /// The map that the entries form.
    pub closed spec fn view(self) -> Map<Seq<char>, V> {
        entries_map(self.entries@)
    }

    pub fn new() -> (m: Self)
        ensures
            m.view() == Map::<Seq<char>, V>::empty(),
            m.keys() == Seq::<Seq<char>>::empty(),
    {
        let m = KeyMap { entries: Vec::new() };
        assert(m.view() =~= Map::<Seq<char>, V>::empty());
        assert(m.keys() =~= Seq::<Seq<char>>::empty());
        m
    }

    pub fn len(&self) -> (n: usize)
        ensures
            n == self.view().len(),
            n == self.keys().len(),
    {
        proof {
            use_type_invariant(self);
            lemma_map_len(self.entries@);
        }
        self.entries.len()
    }

    pub fn is_empty(&self) -> (b: bool)
        ensures
            b == (self.view().len() == 0),
    {
        proof {
            use_type_invariant(self);
            lemma_map_len(self.entries@);
        }
        self.entries.len() == 0
    }

    /// The key of the entry at position `i` in key order.
    pub fn key_at(&self, i: usize) -> (k: &String)
        requires
            i < self.keys().len(),
        ensures
            k@ == self.keys()[i as int],
    {
        &self.entries[i].0
    }

    /// The value of the entry at position `i` in key order.
    pub fn value_at(&self, i: usize) -> (v: &V)
        requires
            i < self.keys().len(),
        ensures
            self.view().contains_key(self.keys()[i as int]),
            *v == self.view()[self.keys()[i as int]],
    {
        proof {
            use_type_invariant(self);
            lemma_entry_in_map(self.entries@, i as int);
        }
        &self.entries[i].1
    }

    /// The value stored under `key` (`BTreeMap::get`).
    pub fn get(&self, key: &str) -> (r: Option<&V>)
        ensures
            r matches Some(v) ==> self.view().contains_key(key@) && *v == self.view()[key@],
            r is None ==> !self.view().contains_key(key@),
    {
        proof {
            use_type_invariant(self);
        }
        let k = chars_of(key);
        let (i, found) = locate(&self.entries, &k);
        if found {
            proof {
                lemma_entry_in_map(self.entries@, i as int);
            }
            Some(&self.entries[i].1)
        } else {
            None
        }
    }

    /// Stores `value` under `key`, replacing an earlier value (`BTreeMap::insert`).
    pub fn insert(&mut self, key: String, value: V) -> (old_value: Option<V>)
        ensures
            final(self).view() == old(self).view().insert(key@, value),
            old(self).view().contains_key(key@) ==> old_value == Some(old(self).view()[key@]),
            !old(self).view().contains_key(key@) ==> old_value is None,
    {
        proof {
            use_type_invariant(&*self);
        }
        let mut entries: Vec<(String, V)> = Vec::new();
        std::mem::swap(&mut entries, &mut self.entries);
        let ghost old_entries = entries@;
        let ghost old_map = entries_map(old_entries);
        assert(old_map == old(self).view());
        let k = chars_of(key.as_str());
        let (i, found) = locate(&entries, &k);
        if found {
            proof {
                lemma_entry_in_map(old_entries, i as int);
            }
            let previous = entries.remove(i);
            entries.insert(i, (key, value));
            assert(entries@ == old_entries.update(i as int, (key, value)));
            assert(keys_ascend(entries@)) by {
                assert forall|a: int, b: int| 0 <= a < b < entries@.len() implies lex_lt(
                    #[trigger] entries@[a].0@,
                    #[trigger] entries@[b].0@,
                ) by {
                    assert(lex_lt(old_entries[a].0@, old_entries[b].0@));
                }
            }
            proof {
                lemma_entry_in_map(entries@, i as int);
                assert forall|q: Seq<char>| q != key@ implies (#[trigger] entries_map(
                    entries@,
                ).contains_key(q) == old_map.contains_key(q)) && (old_map.contains_key(q)
                    ==> entries_map(entries@)[q] == old_map[q]) by {
                    if old_map.contains_key(q) {
                        let j = choose|j: int| 0 <= j < old_entries.len() && old_entries[j].0@ == q;
                        lemma_entry_in_map(old_entries, j);
                        assert(entries@[j].0@ == q);
                        lemma_entry_in_map(entries@, j);
                    }
                    if entries_map(entries@).contains_key(q) {
                        let j = choose|j: int| 0 <= j < entries@.len() && entries@[j].0@ == q;
                        assert(old_entries[j].0@ == q);
                    }
                }
                lemma_map_insert_eq(entries_map(entries@), old_map, key@, value);
            }
            self.entries = entries;
            Some(previous.1)
        } else {
            entries.insert(i, (key, value));
            assert(keys_ascend(entries@)) by {
                assert forall|a: int, b: int| 0 <= a < b < entries@.len() implies lex_lt(
                    #[trigger] entries@[a].0@,
                    #[trigger] entries@[b].0@,
                ) by {
                    if a < i && b < i {
                        assert(lex_lt(old_entries[a].0@, old_entries[b].0@));
                    } else if a < i && b == i {
                    } else if a < i && b > i {
                        assert(lex_lt(old_entries[a].0@, k@));
                        assert(lex_lt(k@, old_entries[b - 1].0@));
                        lemma_lex_transitive(old_entries[a].0@, k@, old_entries[b - 1].0@);
                    } else if a == i {
                        assert(lex_lt(k@, old_entries[b - 1].0@));
                    } else {
                        assert(lex_lt(old_entries[a - 1].0@, old_entries[b - 1].0@));
                    }
                }
            }
            proof {
                lemma_entry_in_map(entries@, i as int);
                assert forall|q: Seq<char>| q != key@ implies (#[trigger] entries_map(
                    entries@,
                ).contains_key(q) == old_map.contains_key(q)) && (old_map.contains_key(q)
                    ==> entries_map(entries@)[q] == old_map[q]) by {
                    if old_map.contains_key(q) {
                        let j = choose|j: int| 0 <= j < old_entries.len() && old_entries[j].0@ == q;
                        let nj = if j < i { j } else { j + 1 };
                        lemma_entry_in_map(old_entries, j);
                        assert(entries@[nj].0@ == q);
                        lemma_entry_in_map(entries@, nj);
                    }
                    if entries_map(entries@).contains_key(q) {
                        let j = choose|j: int| 0 <= j < entries@.len() && entries@[j].0@ == q;
                        if j < i {
                            assert(old_entries[j].0@ == q);
                        } else if j > i {
                            assert(old_entries[j - 1].0@ == q);
                        }
                    }
                }
                lemma_map_insert_eq(entries_map(entries@), old_map, key@, value);
            }
            self.entries = entries;
            None
        }
    }
}

} // verus!
