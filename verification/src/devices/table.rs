//! The devices that a manager runs, each under the text it found it by
//! (a URL or a serial port name), and the keys that managers act on.
use vstd::prelude::*;

verus! {

/// A key of a device table, compared by its value.
pub trait TableKey: Sized {
    type Model;

    spec fn model(&self) -> Self::Model;

    /// Whether the two keys are the same.
    fn same(&self, other: &Self) -> (r: bool)
        ensures
            r == (self.model() == other.model());
}

impl TableKey for u16 {
    type Model = u16;

    open spec fn model(&self) -> u16 {
        *self
    }

    fn same(&self, other: &Self) -> (r: bool) {
        *self == *other
    }
}

impl TableKey for u128 {
    type Model = u128;

    open spec fn model(&self) -> u128 {
        *self
    }

    fn same(&self, other: &Self) -> (r: bool) {
        *self == *other
    }
}

impl TableKey for String {
    type Model = Seq<char>;

    open spec fn model(&self) -> Seq<char> {
        self@
    }

    fn same(&self, other: &Self) -> (r: bool) {
        *self == *other
    }
}

/// The map that a list of entries stands for: a later entry of a key
/// replaces an earlier one.
pub open spec fn table_map<K: TableKey, V>(s: Seq<(K, V)>) -> Map<K::Model, V>
    decreases s.len(),
{
    if s.len() == 0 {
        Map::empty()
    } else {
        table_map(s.drop_last()).insert(s.last().0.model(), s.last().1)
    }
}

/// No key occurs twice.
pub open spec fn distinct_keys<K: TableKey, V>(s: Seq<(K, V)>) -> bool {
    forall|i: int, j: int| 0 <= i < j < s.len() ==> (#[trigger] s[i]).0.model() != (#[trigger] s[j]).0.model()
}

/// The devices of a manager, each under its key.
#[derive(Debug)]
pub struct DeviceTable<K, V> {
    pub entries: Vec<(K, V)>,
}

proof fn lemma_table_keys<K: TableKey, V>(s: Seq<(K, V)>, k: K::Model)
    ensures
        table_map(s).contains_key(k) <==> exists|i: int| 0 <= i < s.len() && (#[trigger] s[i]).0.model() == k,
    decreases s.len(),
{
    if s.len() > 0 {
        lemma_table_keys(s.drop_last(), k);
        if table_map(s.drop_last()).contains_key(k) {
            let i = choose|i: int| 0 <= i < s.drop_last().len() && (#[trigger] s.drop_last()[i]).0.model() == k;
            assert(s[i] == s.drop_last()[i]);
        }
        if exists|i: int| 0 <= i < s.len() && (#[trigger] s[i]).0.model() == k {
            let i = choose|i: int| 0 <= i < s.len() && (#[trigger] s[i]).0.model() == k;
            if i < s.len() - 1 {
                assert(s.drop_last()[i] == s[i]);
            }
        }
    }
}

proof fn lemma_table_value<K: TableKey, V>(s: Seq<(K, V)>, i: int)
    requires
        distinct_keys(s),
        0 <= i < s.len(),
    ensures
        table_map(s).contains_key(s[i].0.model()),
        table_map(s)[s[i].0.model()] == s[i].1,
    decreases s.len(),
{
    if i < s.len() - 1 {
        let t = s.drop_last();
        assert(t[i] == s[i]);
        assert(distinct_keys(t)) by {
            assert forall|a: int, b: int| 0 <= a < b < t.len() implies (#[trigger] t[a]).0.model() != (#[trigger] t[b]).0.model() by {
                assert(t[a] == s[a] && t[b] == s[b]);
            }
        }
        lemma_table_value(t, i);
        assert(s[i].0.model() != s[s.len() - 1].0.model());
    }
}

proof fn lemma_table_remove<K: TableKey, V>(s: Seq<(K, V)>, i: int)
    requires
        distinct_keys(s),
        0 <= i < s.len(),
    ensures
        table_map(s.remove(i)) == table_map(s).remove(s[i].0.model()),
        distinct_keys(s.remove(i)),
    decreases s.len(),
{
    let k = s[i].0.model();
    let r = s.remove(i);
    assert(distinct_keys(r)) by {
        assert forall|a: int, b: int| 0 <= a < b < r.len() implies (#[trigger] r[a]).0.model() != (#[trigger] r[b]).0.model() by {
            let a2 = if a < i { a } else { a + 1 };
            let b2 = if b < i { b } else { b + 1 };
            assert(r[a] == s[a2] && r[b] == s[b2]);
        }
    }
    if i == s.len() - 1 {
        assert(r =~= s.drop_last());
        lemma_table_keys(s.drop_last(), k);
        assert(!table_map(s.drop_last()).contains_key(k)) by {
            if table_map(s.drop_last()).contains_key(k) {
                let j = choose|j: int| 0 <= j < s.drop_last().len() && (#[trigger] s.drop_last()[j]).0.model() == k;
                assert(s[j] == s.drop_last()[j]);
            }
        }
        assert(table_map(s.drop_last()) =~= table_map(s).remove(k));
    } else {
        let t = s.drop_last();
        assert(distinct_keys(t)) by {
            assert forall|a: int, b: int| 0 <= a < b < t.len() implies (#[trigger] t[a]).0.model() != (#[trigger] t[b]).0.model() by {
                assert(t[a] == s[a] && t[b] == s[b]);
            }
        }
        assert(t[i] == s[i]);
        lemma_table_remove(t, i);
        assert(r.drop_last() =~= t.remove(i));
        assert(r.last() == s.last());
        assert(s.last().0.model() != k);
        assert(table_map(r) =~= table_map(s).remove(k));
    }
}

impl<K: TableKey, V> DeviceTable<K, V> {
    /// The table as a map from key to device.
    pub open spec fn model(&self) -> Map<K::Model, V> {
        table_map(self.entries@)
    }

    /// Each key occurs once.
    pub open spec fn wf(&self) -> bool {
        distinct_keys(self.entries@)
    }

    /// An empty table.
    pub fn new() -> (r: Self)
        ensures
            r.wf(),
            r.model() == Map::<K::Model, V>::empty(),
    {
        DeviceTable { entries: Vec::new() }
    }

    /// The position of `key`, if it is in the table.
    fn position(&self, key: &K) -> (r: Option<usize>)
        requires
            self.wf(),
        ensures
            match r {
                Some(i) => i < self.entries@.len() && self.entries@[i as int].0.model() == key.model(),
                None => !self.model().contains_key(key.model()),
            },
    {
        let mut i: usize = 0;
        while i < self.entries.len()
            invariant
                i <= self.entries@.len(),
                forall|j: int| 0 <= j < i ==> (#[trigger] self.entries@[j]).0.model() != key.model(),
            decreases self.entries.len() - i,
        {
            if self.entries[i].0.same(key) {
                return Some(i);
            }
            i = i + 1;
        }
        proof {
            lemma_table_keys(self.entries@, key.model());
        }
        None
    }

    /// Whether a device is under `key`.
    pub fn contains(&self, key: &K) -> (r: bool)
        requires
            self.wf(),
        ensures
            r == self.model().contains_key(key.model()),
    {
        match self.position(key) {
            Some(i) => {
                proof {
                    lemma_table_value(self.entries@, i as int);
                }
                true
            },
            None => false,
        }
    }

    /// The device under `key`, if any.
    pub fn get(&self, key: &K) -> (r: Option<&V>)
        requires
            self.wf(),
        ensures
            match r {
                Some(v) => self.model().contains_key(key.model()) && self.model()[key.model()] == *v,
                None => !self.model().contains_key(key.model()),
            },
    {
        match self.position(key) {
            Some(i) => {
                proof {
                    lemma_table_value(self.entries@, i as int);
                }
                Some(&self.entries[i].1)
            },
            None => None,
        }
    }

    /// Takes the device under `key` out of the table, if there is one.
    pub fn remove(&mut self, key: &K) -> (r: Option<V>)
        requires
            old(self).wf(),
        ensures
            final(self).wf(),
            final(self).model() == old(self).model().remove(key.model()),
            match r {
                Some(v) => old(self).model().contains_key(key.model()) && old(self).model()[key.model()] == v,
                None => !old(self).model().contains_key(key.model()),
            },
    {
        match self.position(key) {
            Some(i) => {
                proof {
                    lemma_table_value(self.entries@, i as int);
                    lemma_table_remove(self.entries@, i as int);
                }
                let (_, v) = self.entries.remove(i);
                Some(v)
            },
            None => {
                assert(self.model() =~= old(self).model().remove(key.model()));
                None
            },
        }
    }

    /// Puts `value` under `key`, in place of what was there.
    pub fn insert(&mut self, key: K, value: V)
        requires
            old(self).wf(),
        ensures
            final(self).wf(),
            final(self).model() == old(self).model().insert(key.model(), value),
    {
        let _ = self.remove(&key);
        let ghost before = self.entries@;
        proof {
            lemma_table_keys(before, key.model());
        }
        self.entries.push((key, value));
        proof {
            assert(self.entries@.drop_last() =~= before);
            assert(distinct_keys(self.entries@)) by {
                assert forall|a: int, b: int| 0 <= a < b < self.entries@.len() implies
                    (#[trigger] self.entries@[a]).0.model() != (#[trigger] self.entries@[b]).0.model() by {
                    assert(self.entries@[a] == before[a]);
                    if b < before.len() {
                        assert(self.entries@[b] == before[b]);
                    }
                }
            }
            assert(self.model() =~= old(self).model().insert(key.model(), value));
        }
    }

    /// Empties the table.
    pub fn clear(&mut self)
        ensures
            final(self).wf(),
            final(self).model() == Map::<K::Model, V>::empty(),
    {
        self.entries.clear();
    }
}

} // verus!
