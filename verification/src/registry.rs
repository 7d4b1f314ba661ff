//! Cancellation registry: a map from pull identifier to a cancellation
//! flag, holding an entry exactly while a pull with that identifier is
//! streaming.

use vstd::prelude::*;
use vstd::map::*;

verus! {

/// The registry as a mathematical map from identifier to flag.
pub open spec fn map_of(entries: Seq<(String, bool)>) -> Map<Seq<char>, bool>
    decreases entries.len(),
{
    if entries.len() == 0 {
        Map::empty()
    } else {
        map_of(entries.drop_last()).insert(entries.last().0@, entries.last().1)
    }
}

/// No identifier occurs twice.
pub open spec fn unique_keys(entries: Seq<(String, bool)>) -> bool {
    forall|i: int, j: int|
        0 <= i < j < entries.len() ==> entries[i].0@ != entries[j].0@
}

proof fn lemma_map_of_contains(entries: Seq<(String, bool)>, k: Seq<char>)
    ensures
        map_of(entries).contains_key(k) <==> exists|i: int|
            0 <= i < entries.len() && entries[i].0@ == k,
    decreases entries.len(),
{
    if entries.len() == 0 {
    } else {
        lemma_map_of_contains(entries.drop_last(), k);
        if map_of(entries).contains_key(k) {
            if entries.last().0@ == k {
                assert(entries[entries.len() - 1].0@ == k);
            } else {
                let i = choose|i: int|
                    0 <= i < entries.drop_last().len() && entries.drop_last()[i].0@ == k;
                assert(entries[i].0@ == k);
            }
        }
        if exists|i: int| 0 <= i < entries.len() && entries[i].0@ == k {
            let i = choose|i: int| 0 <= i < entries.len() && entries[i].0@ == k;
            if i < entries.len() - 1 {
                assert(entries.drop_last()[i].0@ == k);
            }
        }
    }
}

proof fn lemma_map_of_lookup(entries: Seq<(String, bool)>, i: int)
    requires
        unique_keys(entries),
        0 <= i < entries.len(),
    ensures
        map_of(entries).contains_key(entries[i].0@),
        map_of(entries)[entries[i].0@] == entries[i].1,
    decreases entries.len(),
{
    if i == entries.len() - 1 {
    } else {
        assert(unique_keys(entries.drop_last())) by {
            assert(forall|a: int, b: int|
                0 <= a < b < entries.drop_last().len() ==> entries.drop_last()[a].0@
                    == entries[a].0@ && entries.drop_last()[b].0@ == entries[b].0@);
        }
        assert(entries.drop_last()[i] == entries[i]);
        lemma_map_of_lookup(entries.drop_last(), i);
        assert(entries.last().0@ != entries[i].0@);
    }
}

proof fn lemma_map_of_update(entries: Seq<(String, bool)>, i: int, p: (String, bool))
    requires
        unique_keys(entries),
        0 <= i < entries.len(),
        p.0@ == entries[i].0@,
    ensures
        map_of(entries.update(i, p)) == map_of(entries).insert(p.0@, p.1),
    decreases entries.len(),
{
    let e2 = entries.update(i, p);
    if i == entries.len() - 1 {
        assert(e2.drop_last() =~= entries.drop_last());
        assert(e2.last() == p);
        assert(map_of(e2) =~= map_of(entries).insert(p.0@, p.1));
    } else {
        assert(unique_keys(entries.drop_last())) by {
            assert(forall|a: int, b: int|
                0 <= a < b < entries.drop_last().len() ==> entries.drop_last()[a].0@
                    == entries[a].0@ && entries.drop_last()[b].0@ == entries[b].0@);
        }
        assert(entries.drop_last()[i] == entries[i]);
        lemma_map_of_update(entries.drop_last(), i, p);
        assert(e2.drop_last() =~= entries.drop_last().update(i, p));
        assert(e2.last() == entries.last());
        assert(entries.last().0@ != p.0@);
        assert(map_of(e2) =~= map_of(entries).insert(p.0@, p.1));
    }
}

proof fn lemma_map_of_remove(entries: Seq<(String, bool)>, i: int)
    requires
        unique_keys(entries),
        0 <= i < entries.len(),
    ensures
        map_of(entries.remove(i)) == map_of(entries).remove(entries[i].0@),
    decreases entries.len(),
{
    let k = entries[i].0@;
    if i == entries.len() - 1 {
        assert(entries.remove(i) =~= entries.drop_last());
        assert(!map_of(entries.drop_last()).contains_key(k)) by {
            lemma_map_of_contains(entries.drop_last(), k);
            assert(forall|j: int|
                0 <= j < entries.drop_last().len() ==> entries.drop_last()[j].0@ == entries[j].0@
                    && entries[j].0@ != k);
        }
        assert(map_of(entries.remove(i)) =~= map_of(entries).remove(k));
    } else {
        assert(unique_keys(entries.drop_last())) by {
            assert(forall|a: int, b: int|
                0 <= a < b < entries.drop_last().len() ==> entries.drop_last()[a].0@
                    == entries[a].0@ && entries.drop_last()[b].0@ == entries[b].0@);
        }
        assert(entries.drop_last()[i] == entries[i]);
        lemma_map_of_remove(entries.drop_last(), i);
        assert(entries.remove(i).drop_last() =~= entries.drop_last().remove(i));
        assert(entries.remove(i).last() == entries.last());
        assert(entries.last().0@ != k);
        assert(map_of(entries.remove(i)) =~= map_of(entries).remove(k));
    }
}

/// Map from pull identifier to its cancellation flag; an entry exists iff a
/// pull with that identifier is currently streaming.
pub struct CancellationRegistry {
    entries: Vec<(String, bool)>,
}

impl View for CancellationRegistry {
    type V = Map<Seq<char>, bool>;

    closed spec fn view(&self) -> Map<Seq<char>, bool> {
        map_of(self.entries@)
    }
}

impl CancellationRegistry {
    /// Identifiers are pairwise distinct.
    pub closed spec fn wf(&self) -> bool {
        unique_keys(self.entries@)
    }

    /// An empty registry.
    pub fn new() -> (r: Self)
        ensures
            r.wf(),
            r@ == Map::<Seq<char>, bool>::empty(),
    {
        CancellationRegistry { entries: Vec::new() }
    }

    /// Index of the entry for `id`, if one is present.
    fn find(&self, id: &String) -> (r: Option<usize>)
        ensures
            match r {
                Some(i) => i < self.entries@.len() && self.entries@[i as int].0@ == id@,
                None => forall|j: int|
                    0 <= j < self.entries@.len() ==> self.entries@[j].0@ != id@,
            },
    {
        let n = self.entries.len();
        let mut j: usize = 0;
        while j < n
            invariant
                0 <= j <= n,
                n == self.entries@.len(),
                forall|t: int| 0 <= t < j ==> self.entries@[t].0@ != id@,
            decreases n - j,
        {
            if self.entries[j].0 == *id {
                return Some(j);
            }
            j = j + 1;
        }
        None
    }

    /// Whether `id` currently has an entry.
    pub fn contains(&self, id: &String) -> (r: bool)
        ensures
            r == self@.contains_key(id@),
    {
        proof {
            lemma_map_of_contains(self.entries@, id@);
        }
        match self.find(id) {
            Some(_) => true,
            None => false,
        }
    }

    /// Insert a fresh, unset flag under `id`. Returns false, changing
    /// nothing, if `id` is already registered: two concurrently active
    /// pulls never share an identifier.
    pub fn register(&mut self, id: &String) -> (fresh: bool)
        requires
            old(self).wf(),
        ensures
            final(self).wf(),
            fresh == !old(self)@.contains_key(id@),
            fresh ==> final(self)@ == old(self)@.insert(id@, false),
            !fresh ==> *final(self) == *old(self),
    {
        proof {
            lemma_map_of_contains(self.entries@, id@);
        }
        match self.find(id) {
            Some(_) => false,
            None => {
                let ghost pre = self.entries@;
                self.entries.push((id.clone(), false));
                proof {
                    assert(self.entries@.drop_last() =~= pre);
                    assert(self.entries@.last().0@ == id@);
                    assert(final(self)@ =~= old(self)@.insert(id@, false));
                }
                true
            },
        }
    }

    /// Set the flag under `id`, telling its streaming loop to stop at the
    /// next chunk boundary. Returns false, changing nothing, if `id` has no
    /// entry: that pull already finished, a normal reportable outcome.
    pub fn request_cancel(&mut self, id: &String) -> (found: bool)
        requires
            old(self).wf(),
        ensures
            final(self).wf(),
            found == old(self)@.contains_key(id@),
            found ==> final(self)@ == old(self)@.insert(id@, true),
            !found ==> *final(self) == *old(self),
    {
        proof {
            lemma_map_of_contains(self.entries@, id@);
        }
        match self.find(id) {
            Some(i) => {
                let ghost pre = self.entries@;
                let pair = self.entries.remove(i);
                self.entries.insert(i, (pair.0, true));
                proof {
                    assert(self.entries@ =~= pre.update(i as int, (pre[i as int].0, true)));
                    assert(unique_keys(self.entries@)) by {
                        assert(forall|t: int|
                            0 <= t < pre.len() ==> self.entries@[t].0@ == pre[t].0@);
                    }
                    lemma_map_of_update(pre, i as int, (pre[i as int].0, true));
                    assert(final(self)@ == old(self)@.insert(id@, true));
                }
                true
            },
            None => false,
        }
    }

    /// Whether cancellation has been requested for `id`; false when `id`
    /// has no entry.
    pub fn is_cancelled(&self, id: &String) -> (r: bool)
        requires
            self.wf(),
        ensures
            r == (self@.contains_key(id@) && self@[id@]),
    {
        proof {
            lemma_map_of_contains(self.entries@, id@);
        }
        match self.find(id) {
            Some(i) => {
                proof {
                    lemma_map_of_lookup(self.entries@, i as int);
                }
                self.entries[i].1
            },
            None => false,
        }
    }

    /// Remove the entry for `id` unconditionally; called exactly once per
    /// pull, on every exit path, so an entry never outlives its pull.
    pub fn unregister(&mut self, id: &String)
        requires
            old(self).wf(),
        ensures
            final(self).wf(),
            final(self)@ == old(self)@.remove(id@),
            !final(self)@.contains_key(id@),
    {
        proof {
            lemma_map_of_contains(self.entries@, id@);
        }
        match self.find(id) {
            Some(i) => {
                let ghost pre = self.entries@;
                self.entries.remove(i);
                proof {
                    assert(unique_keys(self.entries@)) by {
                        assert(forall|t: int|
                            0 <= t < self.entries@.len() ==> (self.entries@[t] == pre[t]
                                || self.entries@[t] == pre[t + 1]));
                    }
                    lemma_map_of_remove(pre, i as int);
                    lemma_map_of_contains(self.entries@, id@);
                }
            },
            None => {
                proof {
                    assert(final(self)@ =~= old(self)@.remove(id@));
                    lemma_map_of_contains(self.entries@, id@);
                }
            },
        }
    }
}

} // verus!
