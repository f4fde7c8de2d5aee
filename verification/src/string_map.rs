//! A small string-keyed association with last-write-wins inserts, used for
//! request headers, response headers, and extracted path parameters.
use crate::text::str_eq;
use vstd::prelude::*;

verus! {

/// The views of a sequence of owned string pairs.
pub open spec fn kv_views(entries: Seq<(String, String)>) -> Seq<(Seq<char>, Seq<char>)> {
    entries.map_values(|p: (String, String)| (p.0@, p.1@))
}

/// No key occurs twice.
pub open spec fn distinct_keys(kvs: Seq<(Seq<char>, Seq<char>)>) -> bool {
    forall|i: int, j: int| 0 <= i < j < kvs.len() ==> (#[trigger] kvs[i]).0 != (#[trigger] kvs[j]).0
}

/// The mapping a sequence of pairs denotes, later entries overriding earlier ones.
pub open spec fn map_of(kvs: Seq<(Seq<char>, Seq<char>)>) -> Map<Seq<char>, Seq<char>>
    decreases kvs.len(),
{
    if kvs.len() == 0 {
        Map::empty()
    } else {
        map_of(kvs.drop_last()).insert(kvs.last().0, kvs.last().1)
    }
}

pub proof fn lemma_map_of_contains(kvs: Seq<(Seq<char>, Seq<char>)>, k: Seq<char>)
    ensures
        map_of(kvs).contains_key(k) <==> exists|i: int| 0 <= i < kvs.len() && (#[trigger] kvs[i]).0 == k,
    decreases kvs.len(),
{
    if kvs.len() > 0 {
        lemma_map_of_contains(kvs.drop_last(), k);
        if kvs.last().0 == k {
            assert((kvs[kvs.len() - 1]).0 == k);
        } else {
            if exists|i: int| 0 <= i < kvs.drop_last().len() && (#[trigger] kvs.drop_last()[i]).0 == k {
                let i = choose|i: int| 0 <= i < kvs.drop_last().len() && (#[trigger] kvs.drop_last()[i]).0 == k;
                assert((kvs[i]).0 == k);
            }
            if exists|i: int| 0 <= i < kvs.len() && (#[trigger] kvs[i]).0 == k {
                let i = choose|i: int| 0 <= i < kvs.len() && (#[trigger] kvs[i]).0 == k;
                assert((kvs.drop_last()[i]).0 == k);
            }
        }
    }
}

pub proof fn lemma_map_of_value(kvs: Seq<(Seq<char>, Seq<char>)>, i: int)
    requires
        distinct_keys(kvs),
        0 <= i < kvs.len(),
    ensures
        map_of(kvs).contains_key(kvs[i].0),
        map_of(kvs)[kvs[i].0] == kvs[i].1,
    decreases kvs.len(),
{
    if i == kvs.len() - 1 {
    } else {
        assert(distinct_keys(kvs.drop_last())) by {
            assert(forall|a: int, b: int|
                0 <= a < b < kvs.drop_last().len() ==> (#[trigger] kvs.drop_last()[a]).0 != (#[trigger] kvs.drop_last()[b]).0) by {
                assert(forall|a: int| 0 <= a < kvs.drop_last().len() ==> #[trigger] kvs.drop_last()[a] == kvs[a]);
            }
        }
        lemma_map_of_value(kvs.drop_last(), i);
        assert(kvs[i].0 != kvs.last().0);
    }
}

pub proof fn lemma_map_of_len(kvs: Seq<(Seq<char>, Seq<char>)>)
    requires
        distinct_keys(kvs),
    ensures
        map_of(kvs).dom().finite(),
        map_of(kvs).dom().len() == kvs.len(),
    decreases kvs.len(),
{
    if kvs.len() > 0 {
        assert(forall|a: int| 0 <= a < kvs.drop_last().len() ==> #[trigger] kvs.drop_last()[a] == kvs[a]);
        lemma_map_of_len(kvs.drop_last());
        lemma_map_of_contains(kvs.drop_last(), kvs.last().0);
        assert(!map_of(kvs.drop_last()).contains_key(kvs.last().0)) by {
            if exists|i: int| 0 <= i < kvs.drop_last().len() && (#[trigger] kvs.drop_last()[i]).0 == kvs.last().0 {
                let i = choose|i: int| 0 <= i < kvs.drop_last().len() && (#[trigger] kvs.drop_last()[i]).0 == kvs.last().0;
                assert((kvs[i]).0 == (kvs[kvs.len() - 1]).0);
                assert(false);
            }
        }
        assert(map_of(kvs).dom() =~= map_of(kvs.drop_last()).dom().insert(kvs.last().0));
    }
}

/// An association from strings to strings. Inserting an existing key replaces
/// its value in place; a fresh key is appended, so iteration order is the
/// order of first insertion.
#[derive(Debug)]
pub struct StringMap {
    pub entries: Vec<(String, String)>,
}

impl View for StringMap {
    type V = Map<Seq<char>, Seq<char>>;

    open spec fn view(&self) -> Map<Seq<char>, Seq<char>> {
        map_of(self.kvs())
    }
}

impl StringMap {
    /// The entries in iteration order, as character sequences.
    pub open spec fn kvs(&self) -> Seq<(Seq<char>, Seq<char>)> {
        kv_views(self.entries@)
    }

    /// Each key occurs at most once.
    pub open spec fn wf(&self) -> bool {
        distinct_keys(self.kvs())
    }

    /// An empty association.
    pub fn new() -> (r: StringMap)
        ensures
            r.wf(),
            r@ == Map::<Seq<char>, Seq<char>>::empty(),
            r.kvs() == Seq::<(Seq<char>, Seq<char>)>::empty(),
    {
        let r = StringMap { entries: Vec::new() };
        proof {
            assert(r.kvs() =~= Seq::<(Seq<char>, Seq<char>)>::empty());
        }
        r
    }

    /// How many keys are present.
    pub fn len(&self) -> (r: usize)
        ensures
            r == self.kvs().len(),
            self.wf() ==> r == self@.dom().len(),
    {
        proof {
            if self.wf() {
                lemma_map_of_len(self.kvs());
            }
        }
        self.entries.len()
    }

    /// The index of the entry holding `key`, if one does.
    fn position_of(&self, key: &str) -> (r: Option<usize>)
        ensures
            match r {
                Some(i) => i < self.kvs().len() && self.kvs()[i as int].0 == key@,
                None => forall|i: int| 0 <= i < self.kvs().len() ==> (#[trigger] self.kvs()[i]).0 != key@,
            },
    {
        let mut i: usize = 0;
        while i < self.entries.len()
            invariant
                0 <= i <= self.entries@.len(),
                forall|j: int| 0 <= j < i ==> (#[trigger] self.kvs()[j]).0 != key@,
            decreases self.entries@.len() - i,
        {
            if str_eq(self.entries[i].0.as_str(), key) {
                return Some(i);
            }
            i += 1;
        }
        None
    }

    /// The value stored under `key`, if any.
    pub fn get(&self, key: &str) -> (r: Option<&String>)
        requires
            self.wf(),
        ensures
            match r {
                Some(v) => self@.contains_key(key@) && v@ == self@[key@],
                None => !self@.contains_key(key@),
            },
    {
        match self.position_of(key) {
            Some(i) => {
                proof {
                    lemma_map_of_value(self.kvs(), i as int);
                }
                Some(&self.entries[i].1)
            },
            None => {
                proof {
                    lemma_map_of_contains(self.kvs(), key@);
                }
                None
            },
        }
    }

    /// The entry at a position, in iteration order.
    pub fn get_at(&self, i: usize) -> (r: (&String, &String))
        requires
            i < self.kvs().len(),
        ensures
            r.0@ == self.kvs()[i as int].0,
            r.1@ == self.kvs()[i as int].1,
    {
        let p = &self.entries[i];
        (&p.0, &p.1)
    }

    /// Stores `value` under `key`; an existing entry for `key` is overwritten.
    pub fn insert(&mut self, key: String, value: String)
        requires
            old(self).wf(),
        ensures
            final(self).wf(),
            final(self)@ == old(self)@.insert(key@, value@),
            (forall|i: int| 0 <= i < old(self).kvs().len() ==> (#[trigger] old(self).kvs()[i]).0 != key@)
                ==> final(self).kvs() == old(self).kvs().push((key@, value@)),
            (exists|i: int| 0 <= i < old(self).kvs().len() && (#[trigger] old(self).kvs()[i]).0 == key@)
                ==> exists|i: int|
                    0 <= i < old(self).kvs().len() && (#[trigger] old(self).kvs()[i]).0 == key@
                    && final(self).kvs() == old(self).kvs().update(i, (key@, value@)),
    {
        let ghost old_kvs = self.kvs();
        match self.position_of(key.as_str()) {
            Some(i) => {
                self.entries.remove(i);
                self.entries.insert(i, (key, value));
                proof {
                    assert(self.kvs() =~= old_kvs.update(i as int, (key@, value@)));
                    lemma_map_of_update(old_kvs, i as int, value@);
                    assert(final(self)@ =~= old(self)@.insert(key@, value@));
                }
            },
            None => {
                self.entries.push((key, value));
                proof {
                    assert(self.kvs() =~= old_kvs.push((key@, value@)));
                    assert(self.kvs().drop_last() =~= old_kvs);
                    assert(final(self)@ =~= old(self)@.insert(key@, value@));
                }
            },
        }
    }
}

proof fn lemma_map_of_update(kvs: Seq<(Seq<char>, Seq<char>)>, i: int, v: Seq<char>)
    requires
        distinct_keys(kvs),
        0 <= i < kvs.len(),
    ensures
        distinct_keys(kvs.update(i, (kvs[i].0, v))),
        map_of(kvs.update(i, (kvs[i].0, v))) == map_of(kvs).insert(kvs[i].0, v),
    decreases kvs.len(),
{
    let k = kvs[i].0;
    let upd = kvs.update(i, (k, v));
    assert(distinct_keys(upd)) by {
        assert(forall|a: int| 0 <= a < kvs.len() ==> (#[trigger] upd[a]).0 == kvs[a].0);
    }
    if i == kvs.len() - 1 {
        assert(upd.drop_last() =~= kvs.drop_last());
        assert(map_of(upd) =~= map_of(kvs).insert(k, v));
    } else {
        assert(distinct_keys(kvs.drop_last())) by {
            assert(forall|a: int| 0 <= a < kvs.drop_last().len() ==> #[trigger] kvs.drop_last()[a] == kvs[a]);
        }
        lemma_map_of_update(kvs.drop_last(), i, v);
        assert(upd.drop_last() =~= kvs.drop_last().update(i, (k, v)));
        assert(upd.last() == kvs.last());
        assert(k != kvs.last().0);
        assert(map_of(upd) =~= map_of(kvs).insert(k, v));
    }
}

} // verus!
