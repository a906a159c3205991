use vstd::prelude::*;

verus! {

/// The mapping described by a sequence of key/value pairs when the pairs
/// are inserted in order: a later pair with the same key overwrites an
/// earlier one.
pub open spec fn map_of(entries: Seq<(Seq<char>, Seq<char>)>) -> Map<Seq<char>, Seq<char>>
    decreases entries.len(),
{
    if entries.len() == 0 {
        Map::empty()
    } else {
        map_of(entries.drop_last()).insert(entries.last().0, entries.last().1)
    }
}

/// Every key occurs at most once in the sequence of pairs.
pub open spec fn unique_keys(entries: Seq<(Seq<char>, Seq<char>)>) -> bool {
    forall|i: int, j: int|
        0 <= i < j < entries.len() ==> entries[i].0 != entries[j].0
}

/// An item whose attributes are `item` satisfies the query `query` when
/// every queried attribute is present on the item with the same value;
/// the item may carry further attributes.
pub open spec fn spec_matches(
    item: Map<Seq<char>, Seq<char>>,
    query: Map<Seq<char>, Seq<char>>,
) -> bool {
    forall|k: Seq<char>|
        query.contains_key(k) ==> item.contains_key(k) && item[k] == query[k]
}

/// A key of the mapping is exactly a key of one of the pairs.
pub proof fn lemma_map_of_contains(entries: Seq<(Seq<char>, Seq<char>)>, k: Seq<char>)
    ensures
        map_of(entries).contains_key(k) <==> exists|i: int|
            0 <= i < entries.len() && entries[i].0 == k,
    decreases entries.len(),
{
    if entries.len() > 0 {
        lemma_map_of_contains(entries.drop_last(), k);
        if entries.last().0 == k {
            assert(entries[entries.len() - 1].0 == k);
        } else if map_of(entries).contains_key(k) {
            let i = choose|i: int| 0 <= i < entries.drop_last().len()
                && entries.drop_last()[i].0 == k;
            assert(entries[i].0 == k);
        } else if exists|i: int| 0 <= i < entries.len() && entries[i].0 == k {
            let i = choose|i: int| 0 <= i < entries.len() && entries[i].0 == k;
            assert(entries.drop_last()[i].0 == k);
        }
    }
}

/// With unique keys, the pair at position `i` gives the value the mapping
/// assigns to that pair's key.
pub proof fn lemma_map_of_index(entries: Seq<(Seq<char>, Seq<char>)>, i: int)
    requires
        unique_keys(entries),
        0 <= i < entries.len(),
    ensures
        map_of(entries).contains_key(entries[i].0),
        map_of(entries)[entries[i].0] == entries[i].1,
    decreases entries.len(),
{
    if i == entries.len() - 1 {
    } else {
        assert(forall|a: int, b: int|
            0 <= a < b < entries.drop_last().len() ==> entries[a].0 != entries[b].0);
        lemma_map_of_index(entries.drop_last(), i);
        assert(entries.last().0 != entries[i].0);
    }
}

/// With unique keys, the mapping has exactly one key per pair.
pub proof fn lemma_map_of_len(entries: Seq<(Seq<char>, Seq<char>)>)
    requires
        unique_keys(entries),
    ensures
        map_of(entries).dom().finite(),
        map_of(entries).dom().len() == entries.len(),
    decreases entries.len(),
{
    broadcast use vstd::set::axiom_set_insert_len, vstd::set::axiom_set_insert_finite;

    if entries.len() == 0 {
        assert(map_of(entries).dom() =~= Set::<Seq<char>>::empty());
    } else {
        let prefix = entries.drop_last();
        assert(forall|a: int, b: int|
            0 <= a < b < prefix.len() ==> entries[a].0 != entries[b].0);
        lemma_map_of_len(prefix);
        lemma_map_of_contains(prefix, entries.last().0);
        assert(forall|i: int| 0 <= i < prefix.len()
            ==> #[trigger] entries[i].0 != entries[entries.len() - 1].0);
        assert(!map_of(prefix).contains_key(entries.last().0));
        assert(map_of(entries).dom() =~= map_of(prefix).dom().insert(entries.last().0));
    }
}

/// A mapping from attribute names to attribute values, with unique keys.
#[derive(Debug)]
pub struct AttrMap {
    entries: Vec<(String, String)>,
}

impl View for AttrMap {
    type V = Map<Seq<char>, Seq<char>>;

    closed spec fn view(&self) -> Map<Seq<char>, Seq<char>> {
        map_of(self.entries.deep_view())
    }
}

impl AttrMap {
    /// No key is stored twice.
    pub closed spec fn wf(&self) -> bool {
        unique_keys(self.entries.deep_view())
    }

    /// An empty attribute mapping.
    pub fn new() -> (m: AttrMap)
        ensures
            m.wf(),
            m@ == Map::<Seq<char>, Seq<char>>::empty(),
    {
        let m = AttrMap { entries: Vec::new() };
        proof {
            assert(m.entries.deep_view() =~= Seq::<(Seq<char>, Seq<char>)>::empty());
        }
        m
    }

    /// The position of the pair holding `key`, if one is stored.
    fn index_of(&self, key: &String) -> (r: Option<usize>)
        ensures
            match r {
                Some(i) => i < self.entries.deep_view().len()
                    && self.entries.deep_view()[i as int].0 == key@,
                None => forall|i: int|
                    0 <= i < self.entries.deep_view().len()
                        ==> self.entries.deep_view()[i].0 != key@,
            },
    {
        let n = self.entries.len();
        for i in 0..n
            invariant
                n == self.entries.len(),
                forall|j: int| 0 <= j < i ==> self.entries.deep_view()[j].0 != key@,
        {
            if self.entries[i].0 == *key {
                return Some(i);
            }
        }
        None
    }

    /// Store `value` under `key`, overwriting any value stored there before.
    pub fn insert(&mut self, key: String, value: String)
        requires
            old(self).wf(),
        ensures
            final(self).wf(),
            final(self)@ == old(self)@.insert(key@, value@),
    {
        let ghost pre = self.entries.deep_view();
        match self.index_of(&key) {
            Some(i) => {
                self.entries.set(i, (key, value));
                proof {
                    assert(self.entries.deep_view() =~= pre.update(i as int, (key@, value@)));
                    lemma_map_of_update(pre, i as int, (key@, value@));
                }
            },
            None => {
                self.entries.push((key, value));
                proof {
                    assert(self.entries.deep_view() =~= pre.push((key@, value@)));
                    assert(self.entries.deep_view().drop_last() =~= pre);
                }
            },
        }
    }

    /// The value stored under `key`, if any.
    pub fn get(&self, key: &String) -> (r: Option<&String>)
        requires
            self.wf(),
        ensures
            r is Some <==> self@.contains_key(key@),
            r matches Some(v) ==> self@[key@] == v@,
    {
        proof {
            lemma_map_of_contains(self.entries.deep_view(), key@);
        }
        match self.index_of(key) {
            Some(i) => {
                proof {
                    lemma_map_of_index(self.entries.deep_view(), i as int);
                }
                Some(&self.entries[i].1)
            },
            None => None,
        }
    }

    /// How many attributes are stored.
    pub fn len(&self) -> (n: usize)
        requires
            self.wf(),
        ensures
            n == self@.dom().len(),
    {
        proof {
            lemma_map_of_len(self.entries.deep_view());
        }
        self.entries.len()
    }

    /// Does an item carrying the attributes `self` satisfy the query
    /// `query`?  True when every queried attribute is present with the
    /// same value; `self` may carry further attributes.
    pub fn is_match(&self, query: &AttrMap) -> (r: bool)
        requires
            self.wf(),
            query.wf(),
        ensures
            r == spec_matches(self@, query@),
    {
        let ghost q = query.entries.deep_view();
        let n = query.entries.len();
        for i in 0..n
            invariant
                self.wf(),
                query.wf(),
                n == query.entries.len(),
                q == query.entries.deep_view(),
                forall|j: int| 0 <= j < i
                    ==> self@.contains_key(q[j].0) && self@[q[j].0] == q[j].1,
        {
            proof {
                lemma_map_of_index(q, i as int);
            }
            match self.get(&query.entries[i].0) {
                Some(v) => {
                    if !(*v == query.entries[i].1) {
                        proof {
                            assert(query@.contains_key(q[i as int].0));
                            assert(self@[q[i as int].0] != query@[q[i as int].0]);
                        }
                        return false;
                    }
                },
                None => {
                    proof {
                        assert(query@.contains_key(q[i as int].0));
                        assert(!self@.contains_key(q[i as int].0));
                    }
                    return false;
                },
            }
        }
        proof {
            assert forall|k: Seq<char>| #[trigger] query@.contains_key(k)
                implies self@.contains_key(k) && self@[k] == query@[k] by {
                lemma_map_of_contains(q, k);
                let j = choose|j: int| 0 <= j < q.len() && q[j].0 == k;
                lemma_map_of_index(q, j);
                assert(self@.contains_key(q[j].0) && self@[q[j].0] == q[j].1);
                assert(query@[k] == q[j].1);
            }
        }
        true
    }

    /// The stored pairs; their induced mapping is exactly `self@`.
    pub fn pairs(&self) -> (r: &Vec<(String, String)>)
        ensures
            map_of(r.deep_view()) == self@,
    {
        &self.entries
    }
}

/// Replacing the pair at position `i` by one with the same key leaves the
/// keys unique and simply overwrites that key's value in the mapping.
proof fn lemma_map_of_update(entries: Seq<(Seq<char>, Seq<char>)>, i: int, p: (Seq<char>, Seq<char>))
    requires
        unique_keys(entries),
        0 <= i < entries.len(),
        entries[i].0 == p.0,
    ensures
        unique_keys(entries.update(i, p)),
        map_of(entries.update(i, p)) == map_of(entries).insert(p.0, p.1),
    decreases entries.len(),
{
    let updated = entries.update(i, p);
    assert(forall|a: int| 0 <= a < entries.len() && a != i ==> updated[a] == entries[a]);
    if i == entries.len() - 1 {
        assert(updated.drop_last() =~= entries.drop_last());
        assert(updated.last() == p);
        assert(map_of(entries).insert(p.0, p.1)
            =~= map_of(entries.drop_last()).insert(p.0, p.1));
    } else {
        let prefix = entries.drop_last();
        assert(forall|a: int, b: int|
            0 <= a < b < prefix.len() ==> entries[a].0 != entries[b].0);
        lemma_map_of_update(prefix, i, p);
        assert(updated.drop_last() =~= prefix.update(i, p));
        assert(updated.last() == entries.last());
        assert(entries.last().0 != p.0);
        assert(map_of(prefix).insert(p.0, p.1).insert(entries.last().0, entries.last().1)
            =~= map_of(prefix).insert(entries.last().0, entries.last().1).insert(p.0, p.1));
    }
}

} // verus!
