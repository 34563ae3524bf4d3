//! A partition of the catalog: values under text keys, each key at most
//! once.

use crate::text::same_text;
use vstd::prelude::*;

verus! {

/// A map from text keys to values, kept as two columns.
pub struct Table<V> {
    keys: Vec<String>,
    values: Vec<V>,
}

/// Whether some row of `keys` holds `key`.
pub open spec fn has_key(keys: Seq<String>, key: Seq<char>) -> bool {
    exists|i: int| 0 <= i < keys.len() && (#[trigger] keys[i])@ == key
}

/// A row of `keys` that holds `key`.
pub open spec fn row_of(keys: Seq<String>, key: Seq<char>) -> int {
    choose|i: int| 0 <= i < keys.len() && (#[trigger] keys[i])@ == key
}

/// No key stands in two rows.
pub open spec fn distinct_keys(keys: Seq<String>) -> bool {
    forall|i: int, j: int|
        0 <= i < keys.len() && 0 <= j < keys.len() && i != j ==> (#[trigger] keys[i])@ != (
        #[trigger] keys[j])@
}

proof fn lemma_row(keys: Seq<String>, i: int)
    requires
        distinct_keys(keys),
        0 <= i < keys.len(),
    ensures
        has_key(keys, keys[i]@),
        row_of(keys, keys[i]@) == i,
{
    assert(has_key(keys, keys[i]@));
    let j = row_of(keys, keys[i]@);
    assert(0 <= j < keys.len() && keys[j]@ == keys[i]@);
}

impl<V> View for Table<V> {
    type V = Map<Seq<char>, V>;

    closed spec fn view(&self) -> Map<Seq<char>, V> {
        Map::new(
            |key: Seq<char>| has_key(self.keys@, key),
            |key: Seq<char>| self.values@[row_of(self.keys@, key)],
        )
    }
}

impl<V> Table<V> {
    /// The columns have one length and no key occurs twice.
    pub closed spec fn wf(&self) -> bool {
        self.keys@.len() == self.values@.len() && distinct_keys(self.keys@)
    }

    /// An empty table.
    pub fn new() -> (table: Self)
        ensures
            table.wf(),
            table@ == Map::<Seq<char>, V>::empty(),
    {
        let table = Table { keys: Vec::new(), values: Vec::new() };
        assert(table@ =~= Map::<Seq<char>, V>::empty());
        table
    }

    fn find(&self, key: &str) -> (row: Option<usize>)
        requires
            self.wf(),
        ensures
            match row {
                Some(i) => i < self.keys@.len() && self.keys@[i as int]@ == key@,
                None => !has_key(self.keys@, key@),
            },
    {
        let mut at: usize = 0;
        while at < self.keys.len()
            invariant
                at <= self.keys.len(),
                forall|i: int| 0 <= i < at ==> (#[trigger] self.keys@[i])@ != key@,
            decreases self.keys.len() - at,
        {
            if same_text(self.keys[at].as_str(), key) {
                return Some(at);
            }
            at = at + 1;
        }
        None
    }

    /// The value under `key`, if there is one.
    pub fn get(&self, key: &str) -> (value: Option<&V>)
        requires
            self.wf(),
        ensures
            match value {
                Some(value) => self@.contains_key(key@) && self@[key@] == *value,
                None => !self@.contains_key(key@),
            },
    {
        match self.find(key) {
            Some(row) => {
                proof {
                    lemma_row(self.keys@, row as int);
                }
                Some(&self.values[row])
            },
            None => None,
        }
    }

    /// Whether there is a value under `key`.
    pub fn contains(&self, key: &str) -> (found: bool)
        requires
            self.wf(),
        ensures
            found == self@.contains_key(key@),
    {
        self.find(key).is_some()
    }

    /// Puts `value` under `key`, in place of what was there.
    pub fn insert(&mut self, key: &str, value: V)
        requires
            old(self).wf(),
        ensures
            final(self).wf(),
            final(self)@ == old(self)@.insert(key@, value),
    {
        let ghost keys = self.keys@;
        let ghost values = self.values@;
        match self.find(key) {
            Some(row) => {
                self.values.set(row, value);
                proof {
                    lemma_row(keys, row as int);
                    assert forall|q: Seq<char>| has_key(keys, q) implies #[trigger] self@[q]
                        == old(self)@.insert(key@, value)[q] by {
                        let j = row_of(keys, q);
                        assert(keys[j]@ == q);
                    }
                    assert(self@ =~= old(self)@.insert(key@, value));
                }
            },
            None => {
                self.keys.push(key.to_owned());
                self.values.push(value);
                proof {
                    let longer = self.keys@;
                    let last = keys.len() as int;
                    assert(longer[last]@ == key@);
                    assert forall|i: int, j: int|
                        0 <= i < longer.len() && 0 <= j < longer.len() && i != j implies (
                    #[trigger] longer[i])@ != (#[trigger] longer[j])@ by {
                        if i < last {
                            assert(longer[i] == keys[i]);
                        }
                        if j < last {
                            assert(longer[j] == keys[j]);
                        }
                    }
                    assert forall|q: Seq<char>| has_key(longer, q) == (has_key(keys, q) || q
                        == key@) by {
                        if has_key(longer, q) {
                            let j = row_of(longer, q);
                            if j < last {
                                assert(keys[j]@ == q);
                            }
                        }
                        if has_key(keys, q) {
                            let j = row_of(keys, q);
                            assert(longer[j]@ == q);
                        }
                    }
                    assert forall|q: Seq<char>| has_key(longer, q) implies #[trigger] self@[q]
                        == old(self)@.insert(key@, value)[q] by {
                        let j = row_of(longer, q);
                        assert(longer[j]@ == q);
                        if q == key@ {
                            lemma_row(longer, last);
                        } else {
                            assert(j < last);
                            assert(keys[j]@ == q);
                            lemma_row(keys, j);
                        }
                    }
                    assert(self@ =~= old(self)@.insert(key@, value));
                }
            },
        }
    }

    /// Takes away what is under `key`, if anything.
    pub fn remove(&mut self, key: &str)
        requires
            old(self).wf(),
        ensures
            final(self).wf(),
            final(self)@ == old(self)@.remove(key@),
    {
        let ghost keys = self.keys@;
        let ghost values = self.values@;
        match self.find(key) {
            Some(row) => {
                self.keys.remove(row);
                self.values.remove(row);
                proof {
                    let fewer = self.keys@;
                    let gone = row as int;
                    assert forall|i: int| 0 <= i < fewer.len() implies #[trigger] fewer[i] == keys[if i
                        < gone {
                        i
                    } else {
                        i + 1
                    }] by {}
                    assert forall|i: int, j: int|
                        0 <= i < fewer.len() && 0 <= j < fewer.len() && i != j implies (
                    #[trigger] fewer[i])@ != (#[trigger] fewer[j])@ by {
                        let a = if i < gone { i } else { i + 1 };
                        let b = if j < gone { j } else { j + 1 };
                        assert(fewer[i] == keys[a] && fewer[j] == keys[b]);
                    }
                    assert forall|q: Seq<char>| has_key(fewer, q) == (has_key(keys, q) && q
                        != key@) by {
                        if has_key(fewer, q) {
                            let j = row_of(fewer, q);
                            let b = if j < gone { j } else { j + 1 };
                            assert(keys[b]@ == q);
                        }
                        if has_key(keys, q) && q != key@ {
                            let j = row_of(keys, q);
                            let b = if j < gone { j } else { j - 1 };
                            assert(fewer[b]@ == q);
                        }
                    }
                    assert forall|q: Seq<char>| has_key(fewer, q) implies #[trigger] self@[q]
                        == old(self)@.remove(key@)[q] by {
                        let j = row_of(fewer, q);
                        let b = if j < gone { j } else { j + 1 };
                        assert(fewer[j]@ == q);
                        assert(keys[b]@ == q);
                        lemma_row(keys, b);
                    }
                    assert(self@ =~= old(self)@.remove(key@));
                }
            },
            None => {
                assert(self@ =~= old(self)@.remove(key@));
            },
        }
    }
}

} // verus!
