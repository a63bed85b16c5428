//! The session registry: at most one running agent process per session.
//!
//! The registry maps a session identifier to the handle used to address that
//! session's process (for example a channel into its standard input). A
//! start request inserts the entry before any stream reader runs; the exit
//! watcher or a stop request removes it.

use vstd::prelude::*;
use crate::json::str_eq;

verus! {

/// A table of running sessions, keyed by session identifier, holding one
/// handle per session.
pub struct SessionRegistry<H> {
    entries: Vec<(String, H)>,
}

/// The identifiers of the entries, in table order.
pub open spec fn entry_ids<H>(s: Seq<(String, H)>) -> Seq<Seq<char>> {
    Seq::new(s.len(), |i: int| s[i].0@)
}

/// The map that a list of entries denotes; a later entry would win, though a
/// well-formed registry never holds two entries with one identifier.
pub open spec fn map_of<H>(s: Seq<(String, H)>) -> Map<Seq<char>, H>
    decreases s,
{
    if s.len() == 0 {
        Map::empty()
    } else {
        map_of(s.drop_last()).insert(s.last().0@, s.last().1)
    }
}

/// Membership in the denoted map is membership among the identifiers.
pub proof fn lemma_map_of_contains<H>(s: Seq<(String, H)>, k: Seq<char>)
    ensures
        map_of(s).contains_key(k) <==> entry_ids(s).contains(k),
    decreases s,
{
    if s.len() > 0 {
        lemma_map_of_contains(s.drop_last(), k);
        assert(entry_ids(s.drop_last()) =~= entry_ids(s).drop_last());
        if entry_ids(s).contains(k) {
            let i = choose|i: int| 0 <= i < entry_ids(s).len() && entry_ids(s)[i] == k;
            if i < s.len() - 1 {
                assert(entry_ids(s).drop_last()[i] == k);
            }
        }
        if entry_ids(s).drop_last().contains(k) {
            let i = choose|i: int|
                0 <= i < entry_ids(s).drop_last().len() && entry_ids(s).drop_last()[i] == k;
            assert(entry_ids(s)[i] == k);
        }
        if s.last().0@ == k {
            assert(entry_ids(s)[s.len() - 1] == k);
        }
    }
}

/// In a registry without duplicate identifiers, the denoted map sends each
/// entry's identifier to its handle.
pub proof fn lemma_map_of_index<H>(s: Seq<(String, H)>, i: int)
    requires
        0 <= i < s.len(),
        forall|x: int, y: int|
            0 <= x < y < s.len() ==> entry_ids(s)[x] != entry_ids(s)[y],
    ensures
        map_of(s).contains_key(s[i].0@),
        map_of(s)[s[i].0@] == s[i].1,
    decreases s,
{
    lemma_map_of_contains(s, s[i].0@);
    assert(entry_ids(s)[i] == s[i].0@);
    if i == s.len() - 1 {
    } else {
        assert(entry_ids(s)[i] != entry_ids(s)[s.len() - 1]);
        assert(entry_ids(s.drop_last()) =~= entry_ids(s).drop_last());
        lemma_map_of_index(s.drop_last(), i);
    }
}

/// Removing the entry at an index removes exactly its key from the denoted
/// map, in a registry without duplicate identifiers.
pub proof fn lemma_map_of_remove<H>(s: Seq<(String, H)>, i: int)
    requires
        0 <= i < s.len(),
        forall|x: int, y: int|
            0 <= x < y < s.len() ==> entry_ids(s)[x] != entry_ids(s)[y],
    ensures
        map_of(s.remove(i)) == map_of(s).remove(s[i].0@),
    decreases s,
{
    if i == s.len() - 1 {
        assert(s.remove(i) =~= s.drop_last());
        lemma_map_of_contains(s.drop_last(), s[i].0@);
        assert(!entry_ids(s.drop_last()).contains(s[i].0@)) by {
            assert(entry_ids(s.drop_last()) =~= entry_ids(s).drop_last());
            if entry_ids(s).drop_last().contains(s[i].0@) {
                let j = choose|j: int|
                    0 <= j < entry_ids(s).drop_last().len() && entry_ids(s).drop_last()[j]
                        == s[i].0@;
                assert(entry_ids(s)[j] == s[i].0@);
                assert(entry_ids(s)[i] == s[i].0@);
            }
        }
        assert(map_of(s.drop_last()).insert(s.last().0@, s.last().1).remove(s.last().0@)
            =~= map_of(s.drop_last()));
    } else {
        assert(s.remove(i).drop_last() =~= s.drop_last().remove(i));
        assert(s.remove(i).last() == s.last());
        assert(entry_ids(s.drop_last()) =~= entry_ids(s).drop_last());
        lemma_map_of_remove(s.drop_last(), i);
        assert(entry_ids(s)[i] == s[i].0@);
        assert(entry_ids(s)[s.len() - 1] == s.last().0@);
        assert(s[i].0@ != s.last().0@);
        assert(map_of(s.remove(i)) == map_of(s.drop_last().remove(i)).insert(
            s.last().0@,
            s.last().1,
        ));
        assert(map_of(s.drop_last()).remove(s[i].0@).insert(s.last().0@, s.last().1)
            =~= map_of(s.drop_last()).insert(s.last().0@, s.last().1).remove(s[i].0@));
    }
}

/// Distinctness of identifiers survives removing one entry.
pub proof fn lemma_nodup_remove(ids: Seq<Seq<char>>, i: int)
    requires
        0 <= i < ids.len(),
        forall|x: int, y: int| 0 <= x < y < ids.len() ==> ids[x] != ids[y],
    ensures
        forall|x: int, y: int|
            0 <= x < y < ids.remove(i).len() ==> ids.remove(i)[x] != ids.remove(i)[y],
{
    assert forall|x: int, y: int|
        0 <= x < y < ids.remove(i).len() implies ids.remove(i)[x] != ids.remove(i)[y] by {
        let xx: int = if x < i {
            x
        } else {
            x + 1
        };
        let yy: int = if y < i {
            y
        } else {
            y + 1
        };
        assert(ids.remove(i) =~= ids.subrange(0, i) + ids.subrange(i + 1, ids.len() as int));
        assert(ids.remove(i)[x] == ids[xx]);
        assert(ids.remove(i)[y] == ids[yy]);
        assert(ids[xx] != ids[yy]);
    }
}

/// The denoted map's domain is the set of identifiers.
pub proof fn lemma_map_of_dom<H>(s: Seq<(String, H)>)
    ensures
        map_of(s).dom() == entry_ids(s).to_set(),
    decreases s,
{
    if s.len() == 0 {
        assert(entry_ids(s).to_set() =~= Set::<Seq<char>>::empty());
        assert(map_of(s).dom() =~= Set::<Seq<char>>::empty());
    } else {
        lemma_map_of_dom(s.drop_last());
        assert(entry_ids(s.drop_last()) =~= entry_ids(s).drop_last());
        assert(entry_ids(s).drop_last().push(entry_ids(s).last()) =~= entry_ids(s));
        assert(map_of(s).dom() =~= entry_ids(s).to_set()) by {
            assert forall|k: Seq<char>| map_of(s).dom().contains(k) implies entry_ids(
                s,
            ).to_set().contains(k) by {
                lemma_map_of_contains(s, k);
            }
            assert forall|k: Seq<char>| entry_ids(s).to_set().contains(k) implies map_of(
                s,
            ).dom().contains(k) by {
                lemma_map_of_contains(s, k);
            }
        }
    }
}

impl<H> SessionRegistry<H> {
    /// The map from session identifier to handle that this registry holds.
    pub closed spec fn view(&self) -> Map<Seq<char>, H> {
        map_of(self.entries@)
    }

    /// No two entries share an identifier: each session has at most one
    /// running process.
    pub closed spec fn wf(&self) -> bool {
        forall|x: int, y: int|
            0 <= x < y < self.entries@.len() ==> entry_ids(self.entries@)[x] != entry_ids(
                self.entries@,
            )[y]
    }

    /// An empty registry.
    pub fn new() -> (r: SessionRegistry<H>)
        ensures
            r.wf(),
            r@ == Map::<Seq<char>, H>::empty(),
    {
        SessionRegistry { entries: Vec::new() }
    }

    /// The index of the entry for an identifier, if one exists.
    fn find_index(&self, session_id: &str) -> (r: Option<usize>)
        ensures
            r matches Some(i) ==> i < self.entries@.len() && self.entries@[
                i as int
            ].0@ == session_id@,
            r is None ==> !entry_ids(self.entries@).contains(session_id@),
    {
        let mut i: usize = 0;
        while i < self.entries.len()
            invariant
                i <= self.entries@.len(),
                forall|j: int| 0 <= j < i ==> self.entries@[j].0@ != session_id@,
            decreases self.entries@.len() - i,
        {
            if str_eq(self.entries[i].0.as_str(), session_id) {
                return Some(i);
            }
            i += 1;
        }
        proof {
            if entry_ids(self.entries@).contains(session_id@) {
                let j = choose|j: int|
                    0 <= j < entry_ids(self.entries@).len() && entry_ids(self.entries@)[j]
                        == session_id@;
                assert(self.entries@[j].0@ == session_id@);
            }
        }
        None
    }

    /// Whether a process is registered for this session.
    pub fn is_running(&self, session_id: &str) -> (r: bool)
        ensures
            r == self@.contains_key(session_id@),
    {
        proof {
            lemma_map_of_contains(self.entries@, session_id@);
        }
        match self.find_index(session_id) {
            Some(i) => {
                proof {
                    assert(entry_ids(self.entries@)[i as int] == session_id@);
                }
                true
            },
            None => false,
        }
    }

    /// Registers a session's process handle. Rejected, with the registry
    /// untouched, if the session already has one: a second start for a
    /// running session never replaces the first.
    pub fn try_insert(&mut self, session_id: String, handle: H) -> (r: Result<(), ()>)
        requires
            old(self).wf(),
        ensures
            final(self).wf(),
            r is Ok <==> !old(self)@.contains_key(session_id@),
            r is Ok ==> final(self)@ == old(self)@.insert(session_id@, handle),
            r is Err ==> final(self)@ == old(self)@ && *final(self) == *old(self),
    {
        proof {
            lemma_map_of_contains(self.entries@, session_id@);
        }
        match self.find_index(session_id.as_str()) {
            Some(i) => {
                proof {
                    assert(entry_ids(self.entries@)[i as int] == session_id@);
                }
                Err(())
            },
            None => {
                let ghost pre = self.entries@;
                self.entries.push((session_id, handle));
                proof {
                    assert(self.entries@.drop_last() =~= pre);
                    assert(entry_ids(self.entries@).drop_last() =~= entry_ids(pre));
                    assert forall|x: int, y: int|
                        0 <= x < y < self.entries@.len() implies entry_ids(self.entries@)[x]
                        != entry_ids(self.entries@)[y] by {
                        if y == self.entries@.len() - 1 {
                            assert(entry_ids(self.entries@)[x] == entry_ids(pre)[x]);
                            assert(entry_ids(self.entries@)[y] == session_id@);
                            assert(entry_ids(pre)[x] != session_id@) by {
                                if entry_ids(pre)[x] == session_id@ {
                                    assert(entry_ids(pre).contains(session_id@));
                                }
                            }
                        } else {
                            assert(entry_ids(self.entries@)[x] == entry_ids(pre)[x]);
                            assert(entry_ids(self.entries@)[y] == entry_ids(pre)[y]);
                            assert(entry_ids(pre)[x] != entry_ids(pre)[y]);
                        }
                    }
                }
                Ok(())
            },
        }
    }

    /// Removes a session's entry and hands back its handle, or reports that
    /// no process is registered for the session.
    pub fn remove(&mut self, session_id: &str) -> (r: Option<H>)
        requires
            old(self).wf(),
        ensures
            final(self).wf(),
            r is Some <==> old(self)@.contains_key(session_id@),
            r matches Some(h) ==> h == old(self)@[session_id@] && final(self)@ == old(
                self,
            )@.remove(session_id@),
            r is None ==> final(self)@ == old(self)@ && *final(self) == *old(self),
    {
        proof {
            lemma_map_of_contains(self.entries@, session_id@);
        }
        match self.find_index(session_id) {
            Some(i) => {
                let ghost pre = self.entries@;
                proof {
                    lemma_map_of_index(pre, i as int);
                    lemma_map_of_remove(pre, i as int);
                }
                let (_, h) = self.entries.remove(i);
                proof {
                    assert(entry_ids(self.entries@) =~= entry_ids(pre).remove(i as int)) by {
                        assert(pre.remove(i as int) =~= pre.subrange(0, i as int) + pre.subrange(
                            i as int + 1,
                            pre.len() as int,
                        ));
                        assert(entry_ids(pre).remove(i as int) =~= entry_ids(pre).subrange(
                            0,
                            i as int,
                        ) + entry_ids(pre).subrange(i as int + 1, entry_ids(pre).len() as int));
                    }
                    lemma_nodup_remove(entry_ids(pre), i as int);
                }
                Some(h)
            },
            None => None,
        }
    }

    /// The identifiers of all running sessions, in registration order.
    pub fn list_running(&self) -> (r: Vec<String>)
        requires
            self.wf(),
        ensures
            r@.len() == self@.dom().len(),
            forall|i: int| 0 <= i < r@.len() ==> self@.contains_key(#[trigger] r@[i]@),
            forall|k: Seq<char>|
                self@.contains_key(k) ==> exists|i: int| 0 <= i < r@.len() && #[trigger] r@[
                    i
                ]@ == k,
    {
        let mut out: Vec<String> = Vec::new();
        let mut i: usize = 0;
        while i < self.entries.len()
            invariant
                i <= self.entries@.len(),
                out@.len() == i,
                forall|j: int| 0 <= j < i ==> out@[j]@ == self.entries@[j].0@,
            decreases self.entries@.len() - i,
        {
            let id = self.entries[i].0.clone();
            out.push(id);
            i += 1;
        }
        proof {
            lemma_map_of_dom(self.entries@);
            assert forall|j: int|
                0 <= j < out@.len() implies self@.contains_key(#[trigger] out@[j]@) by {
                assert(entry_ids(self.entries@)[j] == out@[j]@);
                lemma_map_of_contains(self.entries@, out@[j]@);
            }
            assert forall|k: Seq<char>| self@.contains_key(k) implies exists|i: int|
                0 <= i < out@.len() && #[trigger] out@[i]@ == k by {
                lemma_map_of_contains(self.entries@, k);
                let j = choose|j: int|
                    0 <= j < entry_ids(self.entries@).len() && entry_ids(self.entries@)[j]
                        == k;
                assert(out@[j]@ == k);
            }
            assert(self@.dom().len() == out@.len()) by {
                assert(entry_ids(self.entries@).to_set().len() == entry_ids(
                    self.entries@,
                ).len()) by {
                    entry_ids(self.entries@).unique_seq_to_set();
                }
            }
        }
        out
    }

    /// Borrows the handle registered for a session.
    pub fn get(&self, session_id: &str) -> (r: Option<&H>)
        requires
            self.wf(),
        ensures
            r is Some <==> self@.contains_key(session_id@),
            r matches Some(h) ==> *h == self@[session_id@],
    {
        proof {
            lemma_map_of_contains(self.entries@, session_id@);
        }
        match self.find_index(session_id) {
            Some(i) => {
                proof {
                    lemma_map_of_index(self.entries@, i as int);
                    assert(entry_ids(self.entries@)[i as int] == session_id@);
                }
                Some(&self.entries[i].1)
            },
            None => None,
        }
    }
}

} // verus!
