use vstd::prelude::*;

verus! {

// The client registry is presence bookkeeping: a mapping from username to
// the numeric handle of that client's live connection. A later insert
// under the same name silently overwrites the earlier entry; removing an
// absent name is a no-op.

/// The map an entry list stands for, later entries overriding earlier
/// ones with the same key.
pub open spec fn map_of(s: Seq<(String, u64)>) -> Map<Seq<char>, u64>
    decreases s.len(),
{
    if s.len() == 0 {
        Map::empty()
    } else {
        map_of(s.drop_last()).insert(s[s.len() - 1].0@, s[s.len() - 1].1)
    }
}

pub open spec fn unique_keys(s: Seq<(String, u64)>) -> bool {
    forall|a: int, b: int| 0 <= a < b < s.len() ==> s[a].0@ != s[b].0@
}

proof fn lemma_map_of_contains(s: Seq<(String, u64)>, k: Seq<char>)
    ensures
        map_of(s).dom().contains(k) <==> exists|j: int| 0 <= j < s.len() && s[j].0@ == k,
    decreases s.len(),
{
    if s.len() > 0 {
        let pre = s.drop_last();
        lemma_map_of_contains(pre, k);
        if s[s.len() - 1].0@ == k {
            assert(s[s.len() - 1].0@ == k);
        } else {
            if exists|j: int| 0 <= j < pre.len() && pre[j].0@ == k {
                let j = choose|j: int| 0 <= j < pre.len() && pre[j].0@ == k;
                assert(s[j].0@ == k);
            }
            if exists|j: int| 0 <= j < s.len() && s[j].0@ == k {
                let j = choose|j: int| 0 <= j < s.len() && s[j].0@ == k;
                assert(j != s.len() - 1);
                assert(pre[j].0@ == k);
            }
        }
    }
}

proof fn lemma_unique_drop_last(s: Seq<(String, u64)>)
    requires
        s.len() > 0,
        unique_keys(s),
    ensures
        unique_keys(s.drop_last()),
{
    assert forall|a: int, b: int|
        0 <= a < b < s.drop_last().len() implies s.drop_last()[a].0@ != s.drop_last()[b].0@ by {
        assert(s[a].0@ != s[b].0@);
    }
}

proof fn lemma_map_of_remove(s: Seq<(String, u64)>, i: int)
    requires
        0 <= i < s.len(),
        unique_keys(s),
    ensures
        map_of(s.remove(i)) == map_of(s).remove(s[i].0@),
    decreases s.len(),
{
    let k = s[i].0@;
    if i == s.len() - 1 {
        assert(s.remove(i) =~= s.drop_last());
        lemma_map_of_contains(s.drop_last(), k);
        assert(forall|j: int| 0 <= j < s.drop_last().len() ==> s.drop_last()[j].0@ != k);
        assert(!map_of(s.drop_last()).dom().contains(k));
        assert(map_of(s.drop_last()).insert(k, s[i].1).remove(k) =~= map_of(s.drop_last()));
    } else {
        let pre = s.drop_last();
        let lastk = s[s.len() - 1].0@;
        let lastv = s[s.len() - 1].1;
        lemma_unique_drop_last(s);
        lemma_map_of_remove(pre, i);
        assert(s.remove(i).drop_last() =~= pre.remove(i));
        assert(s.remove(i)[s.remove(i).len() - 1] == s[s.len() - 1]);
        assert(k != lastk);
        assert(map_of(pre).remove(k).insert(lastk, lastv) =~= map_of(pre).insert(
            lastk,
            lastv,
        ).remove(k));
    }
}

/// Presence map from username to connection handle.
pub struct Registry {
    entries: Vec<(String, u64)>,
}

impl View for Registry {
    type V = Map<Seq<char>, u64>;

    closed spec fn view(&self) -> Map<Seq<char>, u64> {
        map_of(self.entries@)
    }
}

impl Registry {
    /// Each username appears at most once.
    pub closed spec fn inv(&self) -> bool {
        unique_keys(self.entries@)
    }

    /// An empty registry: nobody is present.
    pub fn new() -> (r: Registry)
        ensures
            r.inv(),
            r@ == Map::<Seq<char>, u64>::empty(),
    {
        Registry { entries: Vec::new() }
    }

    /// Whether a username is currently present.
    pub fn contains(&self, name: &String) -> (r: bool)
        ensures
            r == self@.dom().contains(name@),
    {
        let n = self.entries.len();
        let mut i: usize = 0;
        while i < n
            invariant
                i <= n,
                n == self.entries@.len(),
                forall|j: int| 0 <= j < i ==> self.entries@[j].0@ != name@,
            decreases n - i,
        {
            if self.entries[i].0 == *name {
                proof {
                    assert(self.entries@[i as int].0@ == name@);
                    lemma_map_of_contains(self.entries@, name@);
                }
                return true;
            }
            i = i + 1;
        }
        proof {
            lemma_map_of_contains(self.entries@, name@);
        }
        false
    }

    /// Drops a username; doing so when it is absent changes nothing.
    pub fn remove(&mut self, name: &String)
        requires
            old(self).inv(),
        ensures
            final(self).inv(),
            final(self)@ == old(self)@.remove(name@),
    {
        let n = self.entries.len();
        let mut i: usize = 0;
        while i < n
            invariant
                i <= n,
                n == self.entries@.len(),
                self.entries@ == old(self).entries@,
                unique_keys(self.entries@),
                forall|j: int| 0 <= j < i ==> self.entries@[j].0@ != name@,
            decreases n - i,
        {
            if self.entries[i].0 == *name {
                proof {
                    assert(self.entries@[i as int].0@ == name@);
                    lemma_map_of_remove(self.entries@, i as int);
                    let s = self.entries@;
                    assert forall|a: int, b: int|
                        0 <= a < b < s.remove(i as int).len() implies s.remove(i as int)[a].0@ != s.remove(
                        i as int,
                    )[b].0@ by {
                        if b < i {
                            assert(s.remove(i as int)[a] == s[a]);
                            assert(s.remove(i as int)[b] == s[b]);
                        } else if a < i {
                            assert(s.remove(i as int)[a] == s[a]);
                            assert(s.remove(i as int)[b] == s[b + 1]);
                        } else {
                            assert(s.remove(i as int)[a] == s[a + 1]);
                            assert(s.remove(i as int)[b] == s[b + 1]);
                        }
                    }
                }
                let _ = self.entries.remove(i);
                return;
            }
            i = i + 1;
        }
        proof {
            lemma_map_of_contains(self.entries@, name@);
            assert(!self@.dom().contains(name@));
            assert(self@.remove(name@) =~= self@);
        }
    }

    /// Registers a username, overwriting any earlier entry under the same
    /// name — no uniqueness is enforced across sessions.
    pub fn insert(&mut self, name: String, conn: u64)
        requires
            old(self).inv(),
        ensures
            final(self).inv(),
            final(self)@ == old(self)@.insert(name@, conn),
    {
        self.remove(&name);
        proof {
            lemma_map_of_contains(self.entries@, name@);
            assert(!map_of(self.entries@).dom().contains(name@));
            assert(forall|j: int| 0 <= j < self.entries@.len() ==> self.entries@[j].0@ != name@);
        }
        let ghost pre = self.entries@;
        self.entries.push((name, conn));
        proof {
            assert(self.entries@.drop_last() =~= pre);
            assert(old(self)@.remove(self.entries@[self.entries@.len() - 1].0@).insert(
                self.entries@[self.entries@.len() - 1].0@,
                conn,
            ) =~= old(self)@.insert(self.entries@[self.entries@.len() - 1].0@, conn));
        }
    }
}

} // verus!
