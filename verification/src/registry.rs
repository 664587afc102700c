use vstd::prelude::*;

use crate::model::{File_, FileV, Env};

verus! {

/// One origin's entry in the registry: its id and its last pushed inventory.
pub struct OriginEntry {
    pub id: String,
    pub files: Vec<File_>,
}

/// Mathematical image of a registry entry.
pub ghost struct OriginEntryV {
    pub id: Seq<char>,
    pub files: Seq<FileV>,
}

impl View for OriginEntry {
    type V = OriginEntryV;

    open spec fn view(&self) -> OriginEntryV {
        OriginEntryV { id: self.id@, files: self.files.deep_view() }
    }
}

impl DeepView for OriginEntry {
    type V = OriginEntryV;

    open spec fn deep_view(&self) -> OriginEntryV {
        self.view()
    }
}

/// The registry as a mathematical map: the entries folded up from the left,
/// a later entry for an id shadowing an earlier one.
pub open spec fn reg_map(s: Seq<OriginEntry>) -> Map<Seq<char>, Seq<FileV>>
    decreases s.len(),
{
    if s.len() == 0 {
        Map::empty()
    } else {
        reg_map(s.drop_last()).insert(s.last().id@, s.last().files.deep_view())
    }
}

/// Store of every origin's latest full inventory snapshot, keyed by origin id.
pub struct OriginRegistry {
    pub entries: Vec<OriginEntry>,
}

impl View for OriginRegistry {
    type V = Map<Seq<char>, Seq<FileV>>;

    open spec fn view(&self) -> Map<Seq<char>, Seq<FileV>> {
        reg_map(self.entries@)
    }
}

impl OriginRegistry {
    /// No two entries claim the same origin id.
    pub open spec fn wf(&self) -> bool {
        forall|i: int, j: int|
            0 <= i < j < self.entries@.len() ==> self.entries@[i].id@ != self.entries@[j].id@
    }

    pub fn new() -> (r: OriginRegistry)
        ensures
            r.wf(),
            r@ == Map::<Seq<char>, Seq<FileV>>::empty(),
    {
        OriginRegistry { entries: Vec::new() }
    }

    /// Replaces the whole snapshot held for `id` with `files`, or records it
    /// anew when `id` was unknown.
    #[verifier::loop_isolation(false)]
    pub fn upsert(&mut self, id: String, files: Vec<File_>)
        requires
            old(self).wf(),
        ensures
            final(self).wf(),
            final(self)@ == old(self)@.insert(id@, files.deep_view()),
    {
        let ghost s0 = self.entries@;
        let mut i: usize = 0;
        while i < self.entries.len()
            invariant
                self.entries@ == s0,
                i <= s0.len(),
                forall|j: int| 0 <= j < i ==> s0[j].id@ != id@,
            decreases s0.len() - i,
        {
            if self.entries[i].id.eq(&id) {
                proof {
                    lemma_reg_map_remove(s0, i as int);
                    assert(s0.remove(i as int).push(OriginEntry { id, files }).drop_last()
                        =~= s0.remove(i as int));
                }
                let e = self.entries.remove(i);
                self.entries.push(OriginEntry { id, files });
                proof {
                    lemma_reg_map_insert_remove(s0, i as int);
                }
                return;
            }
            i = i + 1;
        }
        proof {
            assert(s0.push(OriginEntry { id, files }).drop_last() =~= s0);
        }
        self.entries.push(OriginEntry { id, files });
    }

    /// Deletes the snapshot held for `id`; a no-op when `id` was unknown.
    #[verifier::loop_isolation(false)]
    pub fn remove(&mut self, id: &String)
        requires
            old(self).wf(),
        ensures
            final(self).wf(),
            final(self)@ == old(self)@.remove(id@),
    {
        let ghost s0 = self.entries@;
        let mut i: usize = 0;
        while i < self.entries.len()
            invariant
                self.entries@ == s0,
                i <= s0.len(),
                forall|j: int| 0 <= j < i ==> s0[j].id@ != id@,
            decreases s0.len() - i,
        {
            if self.entries[i].id.eq(id) {
                proof {
                    lemma_reg_map_remove(s0, i as int);
                    lemma_reg_map_contains(s0);
                }
                let e = self.entries.remove(i);
                proof {
                    assert(reg_map(s0.remove(i as int)) =~= reg_map(s0).remove(id@));
                }
                return;
            }
            i = i + 1;
        }
        proof {
            lemma_reg_map_contains(s0);
            assert(!reg_map(s0).contains_key(id@));
            assert(reg_map(s0).remove(id@) =~= reg_map(s0));
        }
    }

    /// A read-consistent view of every entry, for the merger.
    pub fn snapshot(&self) -> (r: &Vec<OriginEntry>)
        ensures
            r == self.entries,
    {
        &self.entries
    }
}

/// The map holds exactly the ids that some entry carries; with unique ids,
/// each entry's id maps to that entry's inventory.
pub proof fn lemma_reg_map_contains(s: Seq<OriginEntry>)
    ensures
        forall|k: Seq<char>|
            reg_map(s).contains_key(k) <==> exists|i: int| 0 <= i < s.len() && s[i].id@ == k,
        (forall|i: int, j: int| 0 <= i < j < s.len() ==> s[i].id@ != s[j].id@) ==> forall|i: int|
            0 <= i < s.len() ==> reg_map(s).contains_key(#[trigger] s[i].id@)
                && reg_map(s)[s[i].id@] == s[i].files.deep_view(),
    decreases s.len(),
{
    if s.len() > 0 {
        lemma_reg_map_contains(s.drop_last());
        assert(reg_map(s) == reg_map(s.drop_last()).insert(s.last().id@, s.last().files.deep_view()));
        assert forall|k: Seq<char>|
            reg_map(s).contains_key(k) implies exists|i: int| 0 <= i < s.len() && s[i].id@ == k by {
            if k == s.last().id@ {
                assert(s[s.len() - 1].id@ == k);
            } else {
                assert(reg_map(s.drop_last()).contains_key(k));
                let i = choose|i: int| 0 <= i < s.drop_last().len() && s.drop_last()[i].id@ == k;
                assert(s.drop_last()[i] == s[i]);
                assert(s[i].id@ == k);
            }
        }
        assert forall|k: Seq<char>|
            (exists|i: int| 0 <= i < s.len() && s[i].id@ == k) implies reg_map(s).contains_key(k) by {
            let i = choose|i: int| 0 <= i < s.len() && s[i].id@ == k;
            if i < s.len() - 1 {
                assert(s.drop_last()[i].id@ == k);
            }
        }
        if forall|i: int, j: int| 0 <= i < j < s.len() ==> s[i].id@ != s[j].id@ {
            assert forall|i: int| 0 <= i < s.len() implies reg_map(s).contains_key(#[trigger] s[i].id@)
                && reg_map(s)[s[i].id@] == s[i].files.deep_view() by {
                if i < s.len() - 1 {
                    assert(s.drop_last()[i] == s[i]);
                    assert(s[i].id@ != s[s.len() - 1].id@);
                }
            }
        }
    }
}

/// Removing the entry at `i` removes exactly its id from the map, provided
/// ids are unique.
pub proof fn lemma_reg_map_remove(s: Seq<OriginEntry>, i: int)
    requires
        0 <= i < s.len(),
        forall|p: int, q: int| 0 <= p < q < s.len() ==> s[p].id@ != s[q].id@,
    ensures
        reg_map(s.remove(i)) =~= reg_map(s).remove(s[i].id@),
    decreases s.len(),
{
    lemma_reg_map_contains(s);
    lemma_reg_map_contains(s.remove(i));
    if i == s.len() - 1 {
        assert(s.remove(i) =~= s.drop_last());
        assert(!reg_map(s.drop_last()).contains_key(s[i].id@));
        assert(reg_map(s.drop_last()) =~= reg_map(s).remove(s[i].id@));
    } else {
        let t = s.drop_last();
        assert(s.remove(i).drop_last() =~= t.remove(i));
        assert(s.remove(i).last() == s.last());
        lemma_reg_map_remove(t, i);
        assert(reg_map(s.remove(i)) =~= reg_map(t).remove(s[i].id@).insert(
            s.last().id@,
            s.last().files.deep_view(),
        ));
        assert(s[i].id@ != s.last().id@);
        assert(reg_map(t).remove(s[i].id@).insert(s.last().id@, s.last().files.deep_view())
            =~= reg_map(s).remove(s[i].id@));
    }
}

/// Removing an entry and appending a replacement with the same id is one
/// map insertion, provided ids are unique.
pub proof fn lemma_reg_map_insert_remove(s: Seq<OriginEntry>, i: int)
    requires
        0 <= i < s.len(),
        forall|p: int, q: int| 0 <= p < q < s.len() ==> s[p].id@ != s[q].id@,
    ensures
        forall|e: OriginEntry| #![auto] e.id@ == s[i].id@ ==> reg_map(s.remove(i).push(e))
            =~= reg_map(s).insert(e.id@, e.files.deep_view()),
        forall|p: int, q: int|
            0 <= p < q < s.remove(i).len() ==> s.remove(i)[p].id@ != s.remove(i)[q].id@,
{
    lemma_reg_map_remove(s, i);
    assert forall|e: OriginEntry| #![auto] e.id@ == s[i].id@ implies reg_map(s.remove(i).push(e))
        =~= reg_map(s).insert(e.id@, e.files.deep_view()) by {
        assert(s.remove(i).push(e).drop_last() =~= s.remove(i));
        assert(reg_map(s.remove(i).push(e)) =~= reg_map(s).remove(s[i].id@).insert(
            e.id@,
            e.files.deep_view(),
        ));
    }
}

/// Full node state: the immutable configuration and the origin registry.
pub struct MyState {
    pub host: String,
    pub port: u16,
    pub workers: usize,
    pub origin: String,
    pub relay_url: String,
    pub token: String,
    pub origins: OriginRegistry,
}

impl MyState {
    /// Initial state for a freshly loaded configuration: an empty registry.
    pub fn from_env(env: Env) -> (r: MyState)
        ensures
            r.origins.wf(),
            r.origins@ == Map::<Seq<char>, Seq<FileV>>::empty(),
            r.host == env.host,
            r.port == env.port,
            r.workers == env.workers,
            r.origin == env.origin,
            r.relay_url == env.relay_url,
            r.token == env.token,
    {
        MyState {
            host: env.host,
            port: env.port,
            workers: env.workers,
            origin: env.origin,
            relay_url: env.relay_url,
            token: env.token,
            origins: OriginRegistry::new(),
        }
    }
}

} // verus!
