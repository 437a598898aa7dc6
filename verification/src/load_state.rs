//! Per-identifier load states, as reported by the external fetch collaborator.

use vstd::prelude::*;

verus! {

/// Load state of a single resource identifier. The external fetch collaborator
/// owns these states; this crate only reads snapshots of them.
#[derive(Clone, Copy, Debug, PartialEq, Eq, Structural)]
pub enum LoadState {
    NotStarted,
    Loading,
    Loaded,
    Failed,
    Unloaded,
}

/// A snapshot of the fetch collaborator's per-identifier load states, handed
/// to this crate as plain values once per tick. An identifier without an entry
/// is `NotStarted`.
pub struct LoadStates {
    entries: Vec<(u64, LoadState)>,
}

impl LoadStates {
    /// Each identifier appears at most once, so `state_of` is unambiguous.
    pub closed spec fn wf(&self) -> bool {
        forall|i: int, j: int|
            0 <= i < j < self.entries@.len()
                ==> (#[trigger] self.entries@[i]).0 != (#[trigger] self.entries@[j]).0
    }

    /// The state recorded for `id`, `NotStarted` when none is.
    pub closed spec fn state_of(&self, id: u64) -> LoadState {
        if exists|i: int| 0 <= i < self.entries@.len() && self.entries@[i].0 == id {
            let i = choose|i: int| 0 <= i < self.entries@.len() && self.entries@[i].0 == id;
            self.entries@[i].1
        } else {
            LoadState::NotStarted
        }
    }

    pub fn new() -> (r: LoadStates)
        ensures
            r.wf(),
            forall|id: u64| r.state_of(id) == LoadState::NotStarted,
    {
        LoadStates { entries: Vec::new() }
    }

    fn find(&self, id: u64) -> (r: Option<usize>)
        ensures
            match r {
                Some(i) => i < self.entries@.len() && self.entries@[i as int].0 == id,
                None => forall|j: int|
                    0 <= j < self.entries@.len() ==> (#[trigger] self.entries@[j]).0 != id,
            },
    {
        let mut i: usize = 0;
        while i < self.entries.len()
            invariant
                i <= self.entries@.len(),
                forall|j: int| 0 <= j < i ==> (#[trigger] self.entries@[j]).0 != id,
            decreases self.entries@.len() - i,
        {
            if self.entries[i].0 == id {
                return Some(i);
            }
            i = i + 1;
        }
        None
    }

    /// Record `st` as the state of `id`, replacing any earlier entry.
    pub fn set(&mut self, id: u64, st: LoadState)
        requires
            old(self).wf(),
        ensures
            final(self).wf(),
            final(self).state_of(id) == st,
            forall|q: u64| q != id ==> final(self).state_of(q) == old(self).state_of(q),
    {
        let found = self.find(id);
        match found {
            Some(i) => {
                self.entries[i] = (id, st);
                proof {
                    assert(self.entries@ =~= old(self).entries@.update(i as int, (id, st)));
                    assert forall|q: u64| q != id implies self.state_of(q) == old(
                        self,
                    ).state_of(q) by {
                        lemma_state_unchanged(old(self), self, q);
                    }
                    lemma_state_at(self, i as int);
                }
            },
            None => {
                self.entries.push((id, st));
                proof {
                    assert forall|q: u64| q != id implies self.state_of(q) == old(
                        self,
                    ).state_of(q) by {
                        lemma_state_unchanged(old(self), self, q);
                    }
                    lemma_state_at(self, self.entries@.len() - 1);
                }
            },
        }
    }

    /// Look up the state of `id`.
    pub fn get(&self, id: u64) -> (st: LoadState)
        requires
            self.wf(),
        ensures
            st == self.state_of(id),
    {
        let found = self.find(id);
        match found {
            Some(i) => {
                proof {
                    lemma_state_at(self, i as int);
                }
                self.entries[i].1
            },
            None => LoadState::NotStarted,
        }
    }
}

/// In a well-formed table the entry at index `i` is what `state_of` returns
/// for its identifier.
proof fn lemma_state_at(s: &LoadStates, i: int)
    requires
        s.wf(),
        0 <= i < s.entries@.len(),
    ensures
        s.state_of(s.entries@[i].0) == s.entries@[i].1,
{
    let id = s.entries@[i].0;
    let j = choose|j: int| 0 <= j < s.entries@.len() && s.entries@[j].0 == id;
    if i != j {
        assert(s.entries@[i].0 != s.entries@[j].0);
    }
}

/// Two tables whose entries carry the same identifiers everywhere but at `q`'s
/// entries agree on `q`.
proof fn lemma_state_unchanged(s1: &LoadStates, s2: &LoadStates, q: u64)
    requires
        s1.wf(),
        s2.entries@.len() >= s1.entries@.len(),
        forall|k: int|
            0 <= k < s1.entries@.len() ==> #[trigger] s2.entries@[k] == s1.entries@[k] || (
            s2.entries@[k].0 == s1.entries@[k].0 && s1.entries@[k].0 != q),
        forall|k: int|
            s1.entries@.len() <= k < s2.entries@.len() ==> (#[trigger] s2.entries@[k]).0 != q,
    ensures
        s2.state_of(q) == s1.state_of(q),
{
    if exists|i: int| 0 <= i < s1.entries@.len() && s1.entries@[i].0 == q {
        let i = choose|i: int| 0 <= i < s1.entries@.len() && s1.entries@[i].0 == q;
        assert(s2.entries@[i].0 == q);
        let j = choose|j: int| 0 <= j < s2.entries@.len() && s2.entries@[j].0 == q;
        assert(s2.entries@[j].1 == s1.entries@[j].1);
    } else {
        assert forall|j: int| 0 <= j < s2.entries@.len() implies (#[trigger] s2.entries@[j]).0
            != q by {
            if j < s1.entries@.len() {
                assert(s1.entries@[j].0 != q);
            }
        }
    }
}

} // verus!
