//! A map whose keys are kept in increasing order.
use vstd::prelude::*;

verus! {

/// Keys with a strict total order.
pub trait OrderedKey: Sized {
    /// Whether `self` comes strictly before `other`.
    spec fn precedes(self, other: Self) -> bool;

    proof fn lemma_irreflexive(a: Self)
        ensures
            !a.precedes(a),
    ;

    proof fn lemma_transitive(a: Self, b: Self, c: Self)
        requires
            a.precedes(b),
            b.precedes(c),
        ensures
            a.precedes(c),
    ;

    proof fn lemma_total(a: Self, b: Self)
        ensures
            a.precedes(b) || a == b || b.precedes(a),
    ;

    fn is_before(&self, other: &Self) -> (before: bool)
        ensures
            before == self.precedes(*other),
    ;
}

impl OrderedKey for u64 {
    open spec fn precedes(self, other: Self) -> bool {
        self < other
    }

    proof fn lemma_irreflexive(a: Self) {
    }

    proof fn lemma_transitive(a: Self, b: Self, c: Self) {
    }

    proof fn lemma_total(a: Self, b: Self) {
    }

    fn is_before(&self, other: &Self) -> (before: bool) {
        *self < *other
    }
}

impl OrderedKey for (u128, u128) {
    open spec fn precedes(self, other: Self) -> bool {
        self.0 < other.0 || (self.0 == other.0 && self.1 < other.1)
    }

    proof fn lemma_irreflexive(a: Self) {
    }

    proof fn lemma_transitive(a: Self, b: Self, c: Self) {
    }

    proof fn lemma_total(a: Self, b: Self) {
        assert(a.0 == b.0 && a.1 == b.1 ==> a == b);
    }

    fn is_before(&self, other: &Self) -> (before: bool) {
        self.0 < other.0 || (self.0 == other.0 && self.1 < other.1)
    }
}

impl OrderedKey for ((u128, u128), u64) {
    open spec fn precedes(self, other: Self) -> bool {
        self.0.precedes(other.0) || (self.0 == other.0 && self.1 < other.1)
    }

    proof fn lemma_irreflexive(a: Self) {
    }

    proof fn lemma_transitive(a: Self, b: Self, c: Self) {
    }

    proof fn lemma_total(a: Self, b: Self) {
        <(u128, u128) as OrderedKey>::lemma_total(a.0, b.0);
        assert(a.0 == b.0 && a.1 == b.1 ==> a == b);
    }

    fn is_before(&self, other: &Self) -> (before: bool) {
        self.0.is_before(&other.0) || (self.0.0 == other.0.0 && self.0.1 == other.0.1 && self.1
            < other.1)
    }
}

/// Whether the keys of a sequence of entries increase strictly.
pub open spec fn increasing<K: OrderedKey, V>(s: Seq<(K, V)>) -> bool {
    forall|i: int, j: int|
        0 <= i < j < s.len() ==> (#[trigger] s[i]).0.precedes((#[trigger] s[j]).0)
}

/// Whether an entry of the sequence has the key.
pub open spec fn has_key<K, V>(s: Seq<(K, V)>, k: K) -> bool {
    exists|i: int| 0 <= i < s.len() && (#[trigger] s[i]).0 == k
}

/// The map that a sequence of entries stands for.
pub open spec fn entries_map<K, V>(s: Seq<(K, V)>) -> Map<K, V> {
    Map::new(
        |k: K| has_key(s, k),
        |k: K| s[choose|i: int| 0 <= i < s.len() && (#[trigger] s[i]).0 == k].1,
    )
}

/// Each entry of an increasing sequence is what the map holds under its key.
pub proof fn lemma_entry_in_map<K: OrderedKey, V>(s: Seq<(K, V)>, i: int)
    requires
        increasing(s),
        0 <= i < s.len(),
    ensures
        entries_map(s).contains_key(s[i].0),
        entries_map(s)[s[i].0] == s[i].1,
{
    let j = choose|j: int| 0 <= j < s.len() && (#[trigger] s[j]).0 == s[i].0;
    assert(has_key(s, s[i].0));
    K::lemma_irreflexive(s[i].0);
    if j < i {
        assert(s[j].0.precedes(s[i].0));
    } else if i < j {
        assert(s[i].0.precedes(s[j].0));
    }
}

/// The keys of an increasing sequence are pairwise different.
pub proof fn lemma_increasing_keys_distinct<K: OrderedKey, V>(s: Seq<(K, V)>, i: int, j: int)
    requires
        increasing(s),
        0 <= i < s.len(),
        0 <= j < s.len(),
        s[i].0 == s[j].0,
    ensures
        i == j,
{
    K::lemma_irreflexive(s[i].0);
    if i < j {
        assert(s[i].0.precedes(s[j].0));
    } else if j < i {
        assert(s[j].0.precedes(s[i].0));
    }
}

/// Taking one more entry inserts it.
pub proof fn lemma_take_next<K: OrderedKey, V>(s: Seq<(K, V)>, i: int)
    requires
        increasing(s),
        0 <= i < s.len(),
    ensures
        increasing(s.take(i)),
        increasing(s.take(i + 1)),
        !entries_map(s.take(i)).contains_key(s[i].0),
        entries_map(s.take(i + 1)) =~= entries_map(s.take(i)).insert(s[i].0, s[i].1),
{
    let before = s.take(i);
    let after = s.take(i + 1);
    assert(after =~= before.insert(i, s[i]));
    assert forall|j: int| 0 <= j < i implies (#[trigger] before[j]).0.precedes(s[i].0) by {
        assert(s[j].0.precedes(s[i].0));
    }
    lemma_inserted(before, after, i, s[i].0, s[i].1);
}

/// The entries that are left out of a part are not in its map.
pub proof fn lemma_whole<K: OrderedKey, V>(s: Seq<(K, V)>)
    ensures
        s.take(s.len() as int) =~= s,
{
}

/// A map kept as a vector of entries in strictly increasing order of their keys.
pub struct OrderedMap<K: OrderedKey, V> {
    entries: Vec<(K, V)>,
}

impl<K: OrderedKey, V> View for OrderedMap<K, V> {
    type V = Map<K, V>;

    open spec fn view(&self) -> Map<K, V> {
        entries_map(self.sorted())
    }
}

impl<K: OrderedKey, V> OrderedMap<K, V> {
    /// The entries in increasing order of their keys.
    pub closed spec fn sorted(&self) -> Seq<(K, V)> {
        self.entries@
    }

    /// The keys of the entries increase strictly.
    pub open spec fn wf(&self) -> bool {
        increasing(self.sorted())
    }

    /// An empty map.
    pub fn new() -> (map: Self)
        ensures
            map.wf(),
            map.sorted().len() == 0,
            map@ =~= Map::<K, V>::empty(),
    {
        OrderedMap { entries: Vec::new() }
    }

    /// The number of entries.
    pub fn len(&self) -> (count: usize)
        ensures
            count == self.sorted().len(),
    {
        self.entries.len()
    }

    /// Whether there is no entry.
    pub fn is_empty(&self) -> (empty: bool)
        requires
            self.wf(),
        ensures
            empty == (self.sorted().len() == 0),
            empty <==> self@.dom() =~= Set::<K>::empty(),
    {
        proof {
            if self.sorted().len() > 0 {
                lemma_entry_in_map(self.sorted(), 0);
                assert(self@.dom().contains(self.sorted()[0].0));
            }
        }
        self.entries.len() == 0
    }

    /// The entry at a position in the order of the keys.
    pub fn entry_at(&self, index: usize) -> (entry: &(K, V))
        requires
            index < self.sorted().len(),
        ensures
            *entry == self.sorted()[index as int],
    {
        &self.entries[index]
    }

    /// The number of entries whose key comes before `key`.
    fn position(&self, key: &K) -> (index: usize)
        requires
            self.wf(),
        ensures
            index <= self.sorted().len(),
            forall|i: int| 0 <= i < index ==> (#[trigger] self.sorted()[i]).0.precedes(*key),
            forall|i: int|
                index <= i < self.sorted().len() ==> !(#[trigger] self.sorted()[i]).0.precedes(
                    *key,
                ),
    {
        let mut low: usize = 0;
        let mut high: usize = self.entries.len();
        while low < high
            invariant
                self.wf(),
                low <= high <= self.sorted().len(),
                self.sorted() == self.entries@,
                forall|i: int| 0 <= i < low ==> (#[trigger] self.sorted()[i]).0.precedes(*key),
                forall|i: int|
                    high <= i < self.sorted().len() ==> !(#[trigger] self.sorted()[i]).0.precedes(
                        *key,
                    ),
            decreases high - low,
        {
            let middle: usize = low + (high - low) / 2;
            if self.entries[middle].0.is_before(key) {
                proof {
                    assert forall|i: int| 0 <= i < middle + 1 implies (
                    #[trigger] self.sorted()[i]).0.precedes(*key) by {
                        if i < middle {
                            assert(self.sorted()[i].0.precedes(self.sorted()[middle as int].0));
                            K::lemma_transitive(
                                self.sorted()[i].0,
                                self.sorted()[middle as int].0,
                                *key,
                            );
                        }
                    }
                }
                low = middle + 1;
            } else {
                proof {
                    assert forall|i: int| middle <= i < self.sorted().len() implies !(
                    #[trigger] self.sorted()[i]).0.precedes(*key) by {
                        if middle < i && self.sorted()[i].0.precedes(*key) {
                            assert(self.sorted()[middle as int].0.precedes(self.sorted()[i].0));
                            K::lemma_transitive(
                                self.sorted()[middle as int].0,
                                self.sorted()[i].0,
                                *key,
                            );
                        }
                    }
                }
                high = middle;
            }
        }
        low
    }

    /// Whether the map holds the key, and where.
    fn find(&self, key: &K) -> (found: Option<usize>)
        requires
            self.wf(),
        ensures
            match found {
                Some(i) => i < self.sorted().len() && self.sorted()[i as int].0 == *key
                    && self@.contains_key(*key) && self@[*key] == self.sorted()[i as int].1,
                None => !self@.contains_key(*key),
            },
    {
        let index: usize = self.position(key);
        if index < self.entries.len() && !key.is_before(&self.entries[index].0) {
            proof {
                K::lemma_total(self.sorted()[index as int].0, *key);
                lemma_entry_in_map(self.sorted(), index as int);
            }
            Some(index)
        } else {
            proof {
                if has_key(self.sorted(), *key) {
                    let i = choose|i: int|
                        0 <= i < self.sorted().len() && (#[trigger] self.sorted()[i]).0 == *key;
                    K::lemma_irreflexive(*key);
                    if i < index {
                        assert(self.sorted()[i].0.precedes(*key));
                    } else if i > index {
                        assert(self.sorted()[index as int].0.precedes(self.sorted()[i].0));
                    }
                }
            }
            None
        }
    }

    /// Whether the map holds the key.
    pub fn contains_key(&self, key: &K) -> (present: bool)
        requires
            self.wf(),
        ensures
            present == self@.contains_key(*key),
    {
        match self.find(key) {
            Some(_) => true,
            None => false,
        }
    }

    /// What the map holds under the key.
    pub fn get(&self, key: &K) -> (value: Option<&V>)
        requires
            self.wf(),
        ensures
            match value {
                Some(v) => self@.contains_key(*key) && *v == self@[*key],
                None => !self@.contains_key(*key),
            },
    {
        match self.find(key) {
            Some(index) => Some(&self.entries[index].1),
            None => None,
        }
    }

    /// A map with the same keys and with clones of the values.
    pub fn duplicate(&self) -> (copy: Self) where K: Copy, V: Clone
        ensures
            copy.sorted().len() == self.sorted().len(),
            forall|i: int|
                0 <= i < self.sorted().len() ==> (#[trigger] copy.sorted()[i]).0
                    == self.sorted()[i].0 && cloned(self.sorted()[i].1, copy.sorted()[i].1),
    {
        let mut entries: Vec<(K, V)> = Vec::new();
        let mut i: usize = 0;
        while i < self.entries.len()
            invariant
                i <= self.entries.len(),
                entries@.len() == i,
                forall|j: int|
                    0 <= j < i ==> (#[trigger] entries@[j]).0 == self.sorted()[j].0 && cloned(
                        self.sorted()[j].1,
                        entries@[j].1,
                    ),
            decreases self.entries.len() - i,
        {
            let key: K = self.entries[i].0;
            let value: V = self.entries[i].1.clone();
            entries.push((key, value));
            i = i + 1;
        }
        OrderedMap { entries }
    }

    /// Adds an entry whose key comes after all others.
    pub fn push_last(&mut self, key: K, value: V)
        requires
            old(self).wf(),
            forall|i: int|
                0 <= i < old(self).sorted().len() ==> (#[trigger] old(
                    self,
                ).sorted()[i]).0.precedes(key),
        ensures
            final(self).wf(),
            final(self).sorted() =~= old(self).sorted().push((key, value)),
    {
        self.entries.push((key, value));
    }

    /// Maps the key to the value, in place of what was there.
    pub fn insert(&mut self, key: K, value: V)
        requires
            old(self).wf(),
        ensures
            final(self).wf(),
            final(self)@ =~= old(self)@.insert(key, value),
            old(self)@.contains_key(key) ==> final(self).sorted().len() == old(
                self,
            ).sorted().len(),
            !old(self)@.contains_key(key) ==> final(self).sorted().len() == old(
                self,
            ).sorted().len() + 1,
    {
        let ghost before = self.sorted();
        let index: usize = self.position(&key);
        let replaces: bool = index < self.entries.len() && !key.is_before(&self.entries[index].0);
        if replaces {
            proof {
                K::lemma_total(before[index as int].0, key);
                lemma_entry_in_map(before, index as int);
            }
            self.entries[index] = (key, value);
            proof {
                let after = self.sorted();
                assert(after =~= before.update(index as int, (key, value)));
                assert(increasing(after)) by {
                    assert forall|i: int, j: int| 0 <= i < j < after.len() implies (
                    #[trigger] after[i]).0.precedes((#[trigger] after[j]).0) by {
                        assert(before[i].0.precedes(before[j].0));
                    }
                }
                lemma_replaced(before, after, index as int, key, value);
            }
        } else {
            self.entries.insert(index, (key, value));
            proof {
                let after = self.sorted();
                assert(after =~= before.insert(index as int, (key, value)));
                lemma_inserted(before, after, index as int, key, value);
            }
        }
    }
}

proof fn lemma_replaced<K: OrderedKey, V>(
    before: Seq<(K, V)>,
    after: Seq<(K, V)>,
    index: int,
    key: K,
    value: V,
)
    requires
        increasing(before),
        increasing(after),
        0 <= index < before.len(),
        before[index].0 == key,
        after == before.update(index, (key, value)),
    ensures
        entries_map(after) =~= entries_map(before).insert(key, value),
{
    let expected = entries_map(before).insert(key, value);
    assert forall|k: K| #[trigger]
        entries_map(after).contains_key(k) <==> expected.contains_key(k) by {
        if has_key(after, k) {
            let i = choose|i: int| 0 <= i < after.len() && (#[trigger] after[i]).0 == k;
            assert(before[i].0 == k);
        }
        if has_key(before, k) {
            let i = choose|i: int| 0 <= i < before.len() && (#[trigger] before[i]).0 == k;
            assert(after[i].0 == k);
        }
        assert(after[index].0 == key);
    }
    assert forall|k: K| #[trigger] entries_map(after).contains_key(k) implies entries_map(
        after,
    )[k] == expected[k] by {
        let i = choose|i: int| 0 <= i < after.len() && (#[trigger] after[i]).0 == k;
        lemma_entry_in_map(after, i);
        lemma_entry_in_map(after, index);
        if k == key {
            lemma_increasing_keys_distinct(after, i, index);
        } else {
            assert(before[i] == after[i]);
            lemma_entry_in_map(before, i);
        }
    }
}

proof fn lemma_inserted<K: OrderedKey, V>(
    before: Seq<(K, V)>,
    after: Seq<(K, V)>,
    index: int,
    key: K,
    value: V,
)
    requires
        increasing(before),
        0 <= index <= before.len(),
        forall|i: int| 0 <= i < index ==> (#[trigger] before[i]).0.precedes(key),
        forall|i: int| index <= i < before.len() ==> !(#[trigger] before[i]).0.precedes(key),
        index < before.len() ==> key.precedes(before[index].0),
        after == before.insert(index, (key, value)),
    ensures
        increasing(after),
        !entries_map(before).contains_key(key),
        entries_map(after) =~= entries_map(before).insert(key, value),
{
    assert forall|i: int| index <= i < before.len() implies key.precedes(
        (#[trigger] before[i]).0,
    ) by {
        if index < i {
            assert(before[index].0.precedes(before[i].0));
            K::lemma_transitive(key, before[index].0, before[i].0);
        }
    }
    assert forall|i: int| 0 <= i < before.len() implies (#[trigger] before[i]).0 != key by {
        K::lemma_irreflexive(key);
    }
    assert(increasing(after)) by {
        assert forall|i: int, j: int| 0 <= i < j < after.len() implies (
        #[trigger] after[i]).0.precedes((#[trigger] after[j]).0) by {
            if j < index {
                assert(before[i].0.precedes(before[j].0));
            } else if i < index && j > index {
                assert(before[i].0.precedes(before[j - 1].0));
            } else if i > index {
                assert(before[i - 1].0.precedes(before[j - 1].0));
            }
        }
    }
    let expected = entries_map(before).insert(key, value);
    assert(after[index] == (key, value));
    assert forall|k: K| #[trigger]
        entries_map(after).contains_key(k) <==> expected.contains_key(k) by {
        if has_key(after, k) {
            let i = choose|i: int| 0 <= i < after.len() && (#[trigger] after[i]).0 == k;
            if i < index {
                assert(before[i].0 == k);
            } else if i > index {
                assert(before[i - 1].0 == k);
            }
        }
        if has_key(before, k) {
            let i = choose|i: int| 0 <= i < before.len() && (#[trigger] before[i]).0 == k;
            if i < index {
                assert(after[i].0 == k);
            } else {
                assert(after[i + 1].0 == k);
            }
        }
    }
    assert forall|k: K| #[trigger] entries_map(after).contains_key(k) implies entries_map(
        after,
    )[k] == expected[k] by {
        let i = choose|i: int| 0 <= i < after.len() && (#[trigger] after[i]).0 == k;
        lemma_entry_in_map(after, i);
        lemma_entry_in_map(after, index);
        if k == key {
            lemma_increasing_keys_distinct(after, i, index);
        } else if i < index {
            lemma_entry_in_map(before, i);
        } else {
            lemma_entry_in_map(before, i - 1);
        }
    }
}

/// Identifiers are ordered as the numbers that they stand for, and keys of
/// one identifier by their versions.
pub proof fn law_keys_are_ordered_as_numbers(
    a: (u128, u128),
    b: (u128, u128),
    m: u64,
    n: u64,
)
    ensures
        a.precedes(b) <==> a.0 * 0x1_0000_0000_0000_0000_0000_0000_0000_0000int + a.1 < b.0
            * 0x1_0000_0000_0000_0000_0000_0000_0000_0000int + b.1,
        (a, m).precedes((a, n)) <==> m < n,
        a != b ==> ((a, m).precedes((b, n)) <==> a.precedes(b)),
        m.precedes(n) <==> m < n,
{
}

/// A map in order holds just its entries, each key once.
pub proof fn law_entries_are_what_the_map_holds<K: OrderedKey, V>(s: Seq<(K, V)>, i: int, j: int)
    requires
        increasing(s),
        0 <= i < s.len(),
        0 <= j < s.len(),
    ensures
        entries_map(s).contains_key(s[i].0),
        entries_map(s)[s[i].0] == s[i].1,
        s[i].0 == s[j].0 ==> i == j,
        forall|k: K| #[trigger]
            entries_map(s).contains_key(k) ==> exists|m: int|
                0 <= m < s.len() && (#[trigger] s[m]).0 == k,
{
    let k = s[i].0;
    assert(has_key(s, k));
    let m = choose|m: int| 0 <= m < s.len() && (#[trigger] s[m]).0 == k;
    K::lemma_irreflexive(k);
    if m < i {
        assert(s[m].0.precedes(s[i].0));
    }
    if i < m {
        assert(s[i].0.precedes(s[m].0));
    }
    if s[i].0 == s[j].0 {
        if i < j {
            assert(s[i].0.precedes(s[j].0));
        }
        if j < i {
            assert(s[j].0.precedes(s[i].0));
        }
    }
}

} // verus!
