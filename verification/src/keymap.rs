use vstd::prelude::*;

verus! {

/// The permanent key-to-color record of one run: each distinct column value
/// seen so far, mapped to the color it was assigned. Keys are unique; the
/// map only ever grows, one key per genuinely new column value.
pub struct KeyColorMap {
    entries: Vec<(String, u8)>,
}

/// Keys occur at most once among the entries.
spec fn entry_keys_unique(entries: Seq<(String, u8)>) -> bool {
    forall|i: int, j: int|
        0 <= i < j < entries.len() ==> entries[i].0@ != entries[j].0@
}

/// The mathematical map denoted by a sequence of entries; a later entry for
/// the same key would win, though well-formedness keeps keys unique anyway.
spec fn map_of(entries: Seq<(String, u8)>) -> Map<Seq<char>, u8>
    decreases entries.len(),
{
    if entries.len() == 0 {
        Map::empty()
    } else {
        map_of(entries.drop_last()).insert(entries.last().0@, entries.last().1)
    }
}

proof fn lemma_map_of_contains(entries: Seq<(String, u8)>, k: Seq<char>)
    ensures
        map_of(entries).contains_key(k) <==> exists|i: int|
            0 <= i < entries.len() && entries[i].0@ == k,
    decreases entries.len(),
{
    if entries.len() > 0 {
        let prefix = entries.drop_last();
        lemma_map_of_contains(prefix, k);
        if entries.last().0@ == k {
            assert(entries[entries.len() - 1].0@ == k);
        } else {
            if map_of(entries).contains_key(k) {
                let i = choose|i: int| 0 <= i < prefix.len() && prefix[i].0@ == k;
                assert(entries[i].0@ == k);
            }
            if exists|i: int| 0 <= i < entries.len() && entries[i].0@ == k {
                let i = choose|i: int| 0 <= i < entries.len() && entries[i].0@ == k;
                assert(prefix[i].0@ == k);
            }
        }
    }
}

proof fn lemma_map_of_len(entries: Seq<(String, u8)>)
    requires
        entry_keys_unique(entries),
    ensures
        map_of(entries).dom().finite(),
        map_of(entries).dom().len() == entries.len(),
    decreases entries.len(),
{
    if entries.len() == 0 {
        assert(map_of(entries).dom() =~= Set::<Seq<char>>::empty());
    } else {
        let prefix = entries.drop_last();
        let k = entries.last().0@;
        assert(entry_keys_unique(prefix));
        lemma_map_of_len(prefix);
        lemma_map_of_contains(prefix, k);
        assert(!map_of(prefix).contains_key(k)) by {
            if exists|i: int| 0 <= i < prefix.len() && prefix[i].0@ == k {
                let i = choose|i: int| 0 <= i < prefix.len() && prefix[i].0@ == k;
                assert(entries[i].0@ == entries[entries.len() - 1].0@);
            }
        }
        assert(map_of(entries).dom() =~= map_of(prefix).dom().insert(k));
        vstd::set::axiom_set_insert_len(map_of(prefix).dom(), k);
    }
}

proof fn lemma_map_of_value(entries: Seq<(String, u8)>, i: int)
    requires
        entry_keys_unique(entries),
        0 <= i < entries.len(),
    ensures
        map_of(entries)[entries[i].0@] == entries[i].1,
    decreases entries.len(),
{
    let prefix = entries.drop_last();
    if i < entries.len() - 1 {
        assert(entry_keys_unique(prefix));
        lemma_map_of_value(prefix, i);
        assert(entries.last().0@ != entries[i].0@);
    }
}

proof fn lemma_map_of_remove(entries: Seq<(String, u8)>, i: int)
    requires
        entry_keys_unique(entries),
        0 <= i < entries.len(),
    ensures
        map_of(entries.remove(i)) == map_of(entries).remove(entries[i].0@),
    decreases entries.len(),
{
    let k = entries[i].0@;
    let prefix = entries.drop_last();
    assert(entry_keys_unique(prefix));
    if i == entries.len() - 1 {
        assert(entries.remove(i) =~= prefix);
        lemma_map_of_contains(prefix, k);
        assert(!map_of(prefix).contains_key(k)) by {
            if exists|j: int| 0 <= j < prefix.len() && prefix[j].0@ == k {
                let j = choose|j: int| 0 <= j < prefix.len() && prefix[j].0@ == k;
                assert(entries[j].0@ == entries[entries.len() - 1].0@);
            }
        }
        assert(map_of(prefix).insert(k, entries.last().1).remove(k) =~= map_of(prefix));
    } else {
        let shorter = entries.remove(i);
        assert(shorter.last() == entries.last());
        assert(shorter.drop_last() =~= prefix.remove(i));
        lemma_map_of_remove(prefix, i);
        assert(map_of(shorter) == map_of(prefix).remove(k).insert(
            entries.last().0@,
            entries.last().1,
        ));
        assert(entries.last().0@ != k);
        assert(map_of(prefix).remove(k).insert(entries.last().0@, entries.last().1)
            =~= map_of(prefix).insert(entries.last().0@, entries.last().1).remove(k));
    }
}

impl View for KeyColorMap {
    type V = Map<Seq<char>, u8>;

    closed spec fn view(&self) -> Map<Seq<char>, u8> {
        map_of(self.entries@)
    }
}

impl KeyColorMap {
    #[verifier::type_invariant]
    spec fn wf(&self) -> bool {
        entry_keys_unique(self.entries@)
    }

    /// A fresh, empty record: no key has a color yet.
    pub fn new() -> (m: KeyColorMap)
        ensures
            m@ == Map::<Seq<char>, u8>::empty(),
    {
        KeyColorMap { entries: Vec::new() }
    }

    /// How many keys have a color recorded.
    pub fn len(&self) -> (n: usize)
        ensures
            self@.dom().finite(),
            n == self@.dom().len(),
    {
        proof {
            use_type_invariant(&*self);
            lemma_map_of_len(self.entries@);
        }
        self.entries.len()
    }

    fn find_index(entries: &Vec<(String, u8)>, key: &String) -> (r: Option<usize>)
        ensures
            match r {
                Some(i) => i < entries@.len() && entries@[i as int].0@ == key@,
                None => forall|i: int| 0 <= i < entries@.len() ==> entries@[i].0@ != key@,
            },
    {
        let n = entries.len();
        let mut i: usize = 0;
        while i < n
            invariant
                n == entries@.len(),
                i <= n,
                forall|j: int| 0 <= j < i ==> entries@[j].0@ != key@,
            decreases n - i,
        {
            let e = &entries[i];
            if e.0 == *key {
                return Some(i);
            }
            i = i + 1;
        }
        None
    }

    /// The color recorded for `key`, if any.
    pub fn get(&self, key: &String) -> (r: Option<u8>)
        ensures
            match r {
                Some(c) => self@.contains_key(key@) && self@[key@] == c,
                None => !self@.contains_key(key@),
            },
    {
        proof {
            use_type_invariant(&*self);
            lemma_map_of_contains(self.entries@, key@);
        }
        match Self::find_index(&self.entries, key) {
            Some(i) => {
                proof {
                    lemma_map_of_value(self.entries@, i as int);
                }
                Some(self.entries[i].1)
            }
            None => None,
        }
    }

    /// Records `color` for `key`, replacing any earlier record for the same
    /// key.
    pub fn insert(&mut self, key: String, color: u8)
        ensures
            final(self)@ == old(self)@.insert(key@, color),
    {
        proof {
            use_type_invariant(&*self);
        }
        let ghost orig = self.entries@;
        let ghost keyview = key@;
        let idx_opt = Self::find_index(&self.entries, &key);
        let mut entries: Vec<(String, u8)> = Vec::new();
        core::mem::swap(&mut entries, &mut self.entries);
        if let Some(i) = idx_opt {
            let _replaced = entries.remove(i);
            proof {
                lemma_map_of_remove(orig, i as int);
                assert forall|j: int| 0 <= j < entries@.len() implies entries@[j].0@
                    != keyview by {
                    if j < i {
                        assert(entries@[j] == orig[j]);
                    } else {
                        assert(entries@[j] == orig[j + 1]);
                    }
                }
                assert forall|j: int, k: int|
                    0 <= j < k < entries@.len() implies entries@[j].0@ != entries@[k].0@ by {
                    assert(entries@[j] == if j < i {
                        orig[j]
                    } else {
                        orig[j + 1]
                    });
                    assert(entries@[k] == if k < i {
                        orig[k]
                    } else {
                        orig[k + 1]
                    });
                }
            }
        }
        let ghost pre = entries@;
        entries.push((key, color));
        proof {
            let done = entries@;
            assert(done.last().0@ == keyview);
            assert(done.drop_last() =~= pre);
            assert(map_of(done) == map_of(pre).insert(keyview, color));
            if let Some(i) = idx_opt {
                assert(pre == orig.remove(i as int));
                assert(map_of(pre) == map_of(orig).remove(keyview));
                assert(map_of(orig).remove(keyview).insert(keyview, color) =~= map_of(
                    orig,
                ).insert(keyview, color));
            } else {
                assert(pre == orig);
            }
            assert(map_of(done) == map_of(orig).insert(keyview, color));
            assert(entry_keys_unique(done)) by {
                assert forall|j: int, k: int|
                    0 <= j < k < done.len() implies done[j].0@ != done[k].0@ by {
                    if k < done.len() - 1 {
                        assert(done[j] == pre[j] && done[k] == pre[k]);
                    } else {
                        assert(done[j] == pre[j] && done[k].0@ == keyview);
                    }
                }
            }
        }
        core::mem::swap(&mut entries, &mut self.entries);
    }
}

} // verus!
