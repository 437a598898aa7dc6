//! Parent/child registry over opaque resource identifiers.
//!
//! Fetching a composite resource can discover further sub-resources that must
//! also finish loading before a group is ready. External loader collaborators
//! record such discoveries here with [`SubAssets::add`] and undo them with
//! [`SubAssets::remove`], [`SubAssets::remove_all`] and [`SubAssets::clear`];
//! [`SubAssets::children`] expands a parent to all of its transitive
//! descendants. Identifiers are opaque `u64` tokens; nothing is assumed of
//! them beyond identity.

use vstd::prelude::*;

verus! {

/// The parent -> children registry. Each parent maps to a set of child
/// identifiers: no duplicate children, and a parent whose set becomes empty is
/// dropped. Tracking is manual; the registry is only as complete as the calls
/// its collaborators make.
pub struct SubAssets {
    entries: Vec<(u64, Vec<u64>)>,
}

impl SubAssets {
    /// Parents are unique, and each child list is duplicate-free and
    /// non-empty, so `children_of` is unambiguous and a known parent always
    /// has at least one child.
    pub closed spec fn wf(&self) -> bool {
        &&& forall|i: int, j: int|
            0 <= i < j < self.entries@.len()
                ==> (#[trigger] self.entries@[i]).0 != (#[trigger] self.entries@[j]).0
        &&& forall|i: int|
            0 <= i < self.entries@.len() ==> (#[trigger] self.entries@[i]).1@.len() > 0
        &&& forall|i: int|
            0 <= i < self.entries@.len() ==> (#[trigger] self.entries@[i]).1@.no_duplicates()
    }

    /// The direct children registered under `p`, in registration order; empty
    /// when `p` is unknown.
    pub closed spec fn children_of(&self, p: u64) -> Seq<u64> {
        if exists|i: int| 0 <= i < self.entries@.len() && self.entries@[i].0 == p {
            let i = choose|i: int| 0 <= i < self.entries@.len() && self.entries@[i].0 == p;
            self.entries@[i].1@
        } else {
            Seq::empty()
        }
    }

    /// Whether some child is registered under `p`.
    pub open spec fn is_parent(&self, p: u64) -> bool {
        self.children_of(p).len() > 0
    }

    pub fn new() -> (r: SubAssets)
        ensures
            r.wf(),
            forall|p: u64| #[trigger] r.children_of(p) == Seq::<u64>::empty(),
    {
        SubAssets { entries: Vec::new() }
    }

    #[verifier::loop_isolation(false)]
    fn find(&self, p: u64) -> (r: Option<usize>)
        ensures
            match r {
                Some(i) => i < self.entries@.len() && self.entries@[i as int].0 == p,
                None => forall|j: int|
                    0 <= j < self.entries@.len() ==> (#[trigger] self.entries@[j]).0 != p,
            },
    {
        let mut i: usize = 0;
        while i < self.entries.len()
            invariant
                i <= self.entries@.len(),
                forall|j: int| 0 <= j < i ==> (#[trigger] self.entries@[j]).0 != p,
            decreases self.entries@.len() - i,
    {
            if self.entries[i].0 == p {
                return Some(i);
            }
            i = i + 1;
        }
        None
    }

    /// Register `child` under `parent`. Returns true iff the pair was not
    /// already present.
    pub fn add(&mut self, parent: u64, child: u64) -> (r: bool)
        requires
            old(self).wf(),
        ensures
            final(self).wf(),
            add_spec(*old(self), *final(self), parent, child, r),
    {
        let found = self.find(parent);
        match found {
            Some(i) => {
                proof {
                    lemma_children_at(old(self), i as int);
                }
                if let Some(_) = index_of_id(&self.entries[i].1, child) {
                    false
                } else {
                    self.entries[i].1.push(child);
                    proof {
                        let l0 = old(self).entries@[i as int].1@;
                        let l1 = self.entries@[i as int].1@;
                        assert(l1.no_duplicates()) by {
                            assert forall|a: int, b: int| 0 <= a < b < l1.len() implies l1[a]
                                != l1[b] by {
                                if b == l1.len() - 1 && l1[a] == child {
                                    assert(l0[a] == child);
                                    assert(l0.contains(child));
                                }
                            }
                        }
                        assert(self.wf());
                        lemma_children_at(self, i as int);
                        assert forall|q: u64| q != parent implies #[trigger] self.children_of(q)
                            == old(self).children_of(q) by {
                            lemma_frame_same_keys(old(self), self, i as int, q);
                        }
                    }
                    true
                }
            },
            None => {
                self.entries.push((parent, vec![child]));
                proof {
                    let n = self.entries@.len() - 1;
                    assert(self.entries@[n].1@ =~= seq![child]);
                    assert(self.wf());
                    lemma_children_at(self, n);
                    assert(old(self).children_of(parent) =~= Seq::<u64>::empty());
                    assert(self.children_of(parent) =~= old(self).children_of(parent).push(child));
                    assert forall|q: u64| q != parent implies #[trigger] self.children_of(q) == old(
                        self,
                    ).children_of(q) by {
                        lemma_frame_push(old(self), self, q);
                    }
                }
                true
            },
        }
    }

    /// Remove `child` from `parent`'s set; a parent whose set becomes empty is
    /// dropped. Returns true iff a pair was actually removed.
    pub fn remove(&mut self, parent: u64, child: u64) -> (r: bool)
        requires
            old(self).wf(),
        ensures
            final(self).wf(),
            remove_spec(*old(self), *final(self), parent, child, r),
    {
        let found = self.find(parent);
        match found {
            Some(i) => {
                proof {
                    lemma_children_at(old(self), i as int);
                }
                let pos = index_of_id(&self.entries[i].1, child);
                match pos {
                    Some(j) => {
                        proof {
                            let l0 = old(self).entries@[i as int].1@;
                            l0.index_of_first_ensures(child);
                            let f = l0.index_of_first(child)->Some_0;
                            if f != j as int {
                                assert(l0[f] == l0[j as int]);
                            }
                            assert(l0.remove_value(child) == l0.remove(j as int));
                        }
                        if self.entries[i].1.len() == 1 {
                            self.entries.remove(i);
                            proof {
                                old(self).entries@.remove_ensures(i as int);
                                lemma_wf_remove_entry(old(self), self, i as int);
                                assert(old(self).entries@[i as int].1@.remove(0)
                                    =~= Seq::<u64>::empty());
                                assert forall|k: int|
                                    0 <= k < self.entries@.len() implies (
                                #[trigger] self.entries@[k]).0 != parent by {
                                    if k < i as int {
                                        assert(self.entries@[k] == old(self).entries@[k]);
                                    } else {
                                        assert(self.entries@[k] == old(self).entries@[k + 1]);
                                    }
                                }
                                assert(self.children_of(parent) =~= Seq::<u64>::empty());
                                assert forall|q: u64| q != parent implies #[trigger] self
                                    .children_of(q) == old(self).children_of(q) by {
                                    lemma_frame_remove_entry(old(self), self, i as int, q);
                                }
                            }
                        } else {
                            self.entries[i].1.remove(j);
                            proof {
                                let l0 = old(self).entries@[i as int].1@;
                                l0.remove_ensures(j as int);
                                lemma_no_dup_remove(l0, j as int);
                                assert(self.wf());
                                lemma_children_at(self, i as int);
                                assert forall|q: u64| q != parent implies #[trigger] self
                                    .children_of(q) == old(self).children_of(q) by {
                                    lemma_frame_same_keys(old(self), self, i as int, q);
                                }
                            }
                        }
                        true
                    },
                    None => {
                        proof {
                            old(self).children_of(parent).index_of_first_ensures(child);
                        }
                        false
                    },
                }
            },
            None => {
                proof {
                    assert(old(self).children_of(parent) =~= Seq::<u64>::empty());
                    old(self).children_of(parent).index_of_first_ensures(child);
                }
                false
            },
        }
    }

    /// Remove `child` from every parent's set. Returns true iff at least one
    /// removal occurred. Costs one pass per distinct parent, but serves
    /// callers that do not know the parent.
    #[verifier::loop_isolation(false)]
    pub fn remove_all(&mut self, child: u64) -> (r: bool)
        requires
            old(self).wf(),
        ensures
            final(self).wf(),
            remove_all_spec(*old(self), *final(self), child, r),
    {
        let mut parents: Vec<u64> = Vec::new();
        let mut i: usize = 0;
        while i < self.entries.len()
            invariant
                parents@.len() == i,
                i <= self.entries@.len(),
                forall|k: int| 0 <= k < i ==> parents@[k] == (#[trigger] self.entries@[k]).0,
            decreases self.entries@.len() - i,
        {
            let p = self.entries[i].0;
            parents.push(p);
            i = i + 1;
        }
        let mut removed = false;
        let mut k: usize = 0;
        while k < parents.len()
            invariant
                k <= parents@.len(),
                self.wf(),
                removed == exists|t: int|
                    0 <= t < k && old(self).children_of(#[trigger] parents@[t]).contains(child),
                forall|t: int|
                    0 <= t < k ==> #[trigger] self.children_of(parents@[t]) == old(
                    self,
                ).children_of(parents@[t]).remove_value(child),
                forall|q: u64|
                    (forall|t: int| 0 <= t < k ==> q != #[trigger] parents@[t])
                        ==> #[trigger] self.children_of(q) == old(self).children_of(q),
            decreases parents@.len() - k,
        {
            let ghost pre = *self;
            let p = parents[k];
            proof {
                assert forall|t: int| 0 <= t < k implies p != #[trigger] parents@[t] by {
                    if p == parents@[t] {
                        assert(old(self).entries@[t].0 == old(self).entries@[k as int].0);
                    }
                }
                assert(pre.children_of(p) == old(self).children_of(p));
            }
            if self.remove(p, child) {
                removed = true;
            }
            proof {
                assert forall|q: u64| (forall|t: int| 0 <= t < k + 1 ==> q != #[trigger] parents@[t])
                    implies #[trigger] self.children_of(q) == old(self).children_of(q) by {
                    assert(q != parents@[k as int]);
                    assert(forall|t: int| 0 <= t < k ==> q != #[trigger] parents@[t]);
                    assert(pre.children_of(q) == old(self).children_of(q));
                }
                assert forall|t: int| 0 <= t < k + 1 implies #[trigger] self.children_of(
                    parents@[t],
                ) == old(self).children_of(parents@[t]).remove_value(child) by {
                    if t < k {
                        assert(parents@[t] != p);
                        assert(pre.children_of(parents@[t]) == old(self).children_of(
                            parents@[t],
                        ).remove_value(child));
                    }
                }
            }
            k = k + 1;
        }
        proof {
            assert forall|q: u64| #[trigger] self.children_of(q) == old(self).children_of(
                q,
            ).remove_value(child) by {
                if exists|t: int| 0 <= t < parents@.len() && parents@[t] == q {
                    let t = choose|t: int| 0 <= t < parents@.len() && parents@[t] == q;
                    assert(self.children_of(parents@[t]) == old(self).children_of(
                        parents@[t],
                    ).remove_value(child));
                } else {
                    assert forall|t: int| 0 <= t < parents@.len() implies q
                        != #[trigger] parents@[t] by {}
                    assert(self.children_of(q) == old(self).children_of(q));
                    assert(old(self).children_of(q) =~= Seq::<u64>::empty());
                    old(self).children_of(q).index_of_first_ensures(child);
                }
            }
            if removed {
                let t = choose|t: int|
                    0 <= t < parents@.len() && old(self).children_of(
                        #[trigger] parents@[t],
                    ).contains(child);
            } else {
                assert forall|q: u64| !(#[trigger] old(self).children_of(q).contains(child)) by {
                    if old(self).children_of(q).len() > 0 {
                        let e = choose|e: int|
                            0 <= e < old(self).entries@.len() && old(self).entries@[e].0 == q;
                        assert(parents@[e] == q);
                        assert(!old(self).children_of(parents@[e]).contains(child));
                    }
                }
            }
        }
        removed
    }

    /// How deep `children` is willing to recurse: one level per known parent.
    /// A descent that only ever passes through distinct parents — which is
    /// every descent in an acyclic registry — can never go deeper.
    pub closed spec fn depth_bound(&self) -> nat {
        self.entries@.len() as nat
    }

    /// The full transitive expansion of `p` that `children` returns.
    pub open spec fn expansion(&self, p: u64) -> Seq<u64> {
        expand_node(*self, p, self.depth_bound())
    }

    /// Expand `parent` to all of its transitive descendants: each registered
    /// child appears preceded by the expansion of its own descendants, so a
    /// subtree's children always come before the subtree root. Returns an
    /// empty vector for an unknown parent.
    ///
    /// The descent is depth-bounded by the number of known parents, which
    /// covers every acyclic registry. A registry with a cycle reachable from
    /// `parent` is a caller invariant violation; the walk then truncates at
    /// the bound instead of recursing without end.
    pub fn children(&self, parent: u64) -> (r: Vec<u64>)
        requires
            self.wf(),
        ensures
            r@ == self.expansion(parent),
    {
        let fuel = self.entries.len();
        self.children_rec(parent, fuel)
    }

    #[verifier::loop_isolation(false)]
    fn children_rec(&self, p: u64, fuel: usize) -> (r: Vec<u64>)
        requires
            self.wf(),
        ensures
            r@ == expand_node(*self, p, fuel as nat),
        decreases fuel,
    {
        let mut out: Vec<u64> = Vec::new();
        let found = self.find(p);
        match found {
            None => {
                proof {
                    assert(self.children_of(p) =~= Seq::<u64>::empty());
                }
                out
            },
            Some(i) => {
                proof {
                    lemma_children_at(self, i as int);
                }
                if fuel == 0 {
                    return out;
                }
                let n = self.entries[i].1.len();
                let mut j: usize = 0;
                while j < n
                    invariant
                        j <= n,
                        out@ == expand_list(
                            *self,
                            self.entries@[i as int].1@.take(j as int),
                            (fuel - 1) as nat,
                        ),
                    decreases n - j,
                {
                    let c = self.entries[i].1[j];
                    let mut sub = self.children_rec(c, fuel - 1);
                    out.append(&mut sub);
                    out.push(c);
                    proof {
                        let cs = self.entries@[i as int].1@;
                        assert(cs.take(j as int + 1) =~= cs.take(j as int).push(c));
                        lemma_expand_list_push(*self, cs.take(j as int), c, (fuel - 1) as nat);
                    }
                    j = j + 1;
                }
                proof {
                    assert(self.entries@[i as int].1@.take(n as int) =~= self.entries@[i as int].1@);
                }
                out
            },
        }
    }

    /// Apply one tick's worth of sub-asset discovery from a loader
    /// collaborator: register every newly created (parent, child) pair in
    /// order, then remove every disposed child from all parents.
    #[verifier::loop_isolation(false)]
    pub fn apply_discovery(&mut self, created: &Vec<(u64, u64)>, disposed: &Vec<u64>)
        requires
            old(self).wf(),
        ensures
            final(self).wf(),
            forall|q: u64|
                #[trigger] final(self).children_of(q) == after_disposals(
                    after_creates(old(self).children_of(q), q, created@),
                    disposed@,
                ),
    {
        let mut i: usize = 0;
        while i < created.len()
            invariant
                i <= created@.len(),
                self.wf(),
                forall|q: u64|
                    #[trigger] self.children_of(q) == after_creates(
                        old(self).children_of(q),
                        q,
                        created@.take(i as int),
                    ),
            decreases created@.len() - i,
        {
            let (p, c) = created[i];
            let ghost pre = *self;
            self.add(p, c);
            proof {
                assert forall|q: u64| #[trigger] self.children_of(q) == after_creates(
                    old(self).children_of(q),
                    q,
                    created@.take(i + 1),
                ) by {
                    assert(created@.take(i + 1).drop_last() =~= created@.take(i as int));
                    assert(created@.take(i + 1).last() == created@[i as int]);
                    if q != p {
                        assert(self.children_of(q) == pre.children_of(q));
                    }
                }
            }
            i = i + 1;
        }
        proof {
            assert(created@.take(created@.len() as int) =~= created@);
        }
        let ghost mid = *self;
        let mut j: usize = 0;
        while j < disposed.len()
            invariant
                j <= disposed@.len(),
                self.wf(),
                forall|q: u64|
                    #[trigger] self.children_of(q) == after_disposals(
                        mid.children_of(q),
                        disposed@.take(j as int),
                    ),
            decreases disposed@.len() - j,
        {
            let d = disposed[j];
            let ghost pre = *self;
            self.remove_all(d);
            proof {
                assert forall|q: u64| #[trigger] self.children_of(q) == after_disposals(
                    mid.children_of(q),
                    disposed@.take(j + 1),
                ) by {
                    assert(disposed@.take(j + 1).drop_last() =~= disposed@.take(j as int));
                    assert(disposed@.take(j + 1).last() == disposed@[j as int]);
                    assert(self.children_of(q) == pre.children_of(q).remove_value(d));
                }
            }
            j = j + 1;
        }
        proof {
            assert(disposed@.take(disposed@.len() as int) =~= disposed@);
        }
    }

    /// Drop all of `parent`'s children unconditionally.
    pub fn clear(&mut self, parent: u64)
        requires
            old(self).wf(),
        ensures
            final(self).wf(),
            clear_spec(*old(self), *final(self), parent),
    {
        let found = self.find(parent);
        match found {
            Some(i) => {
                self.entries.remove(i);
                proof {
                    old(self).entries@.remove_ensures(i as int);
                    lemma_wf_remove_entry(old(self), self, i as int);
                    assert forall|k: int|
                        0 <= k < self.entries@.len() implies (#[trigger] self.entries@[k]).0
                        != parent by {
                        if k < i as int {
                            assert(self.entries@[k] == old(self).entries@[k]);
                        } else {
                            assert(self.entries@[k] == old(self).entries@[k + 1]);
                        }
                    }
                    assert(self.children_of(parent) =~= Seq::<u64>::empty());
                    assert forall|q: u64| q != parent implies #[trigger] self.children_of(q) == old(
                        self,
                    ).children_of(q) by {
                        lemma_frame_remove_entry(old(self), self, i as int, q);
                    }
                }
            },
            None => {
                proof {
                    assert(self.children_of(parent) =~= Seq::<u64>::empty());
                }
            },
        }
    }
}

/// What `add(parent, child)` does: the pair becomes present, `r` says whether
/// it was new, and no other parent's set changes.
pub open spec fn add_spec(pre: SubAssets, post: SubAssets, parent: u64, child: u64, r: bool) -> bool {
    &&& r == !pre.children_of(parent).contains(child)
    &&& post.children_of(parent) == if r {
        pre.children_of(parent).push(child)
    } else {
        pre.children_of(parent)
    }
    &&& forall|q: u64| q != parent ==> #[trigger] post.children_of(q) == pre.children_of(q)
}

/// What `remove(parent, child)` does: the pair's occurrence goes away, `r`
/// says whether there was one, and no other parent's set changes.
pub open spec fn remove_spec(
    pre: SubAssets,
    post: SubAssets,
    parent: u64,
    child: u64,
    r: bool,
) -> bool {
    &&& r == pre.children_of(parent).contains(child)
    &&& post.children_of(parent) == pre.children_of(parent).remove_value(child)
    &&& forall|q: u64| q != parent ==> #[trigger] post.children_of(q) == pre.children_of(q)
}

/// What `remove_all(child)` does: `child` goes away from every parent's set,
/// and `r` says whether any parent had it.
pub open spec fn remove_all_spec(pre: SubAssets, post: SubAssets, child: u64, r: bool) -> bool {
    &&& r == exists|q: u64| pre.children_of(q).contains(child)
    &&& forall|q: u64| #[trigger] post.children_of(q) == pre.children_of(q).remove_value(child)
}

/// What `clear(parent)` does: `parent`'s set empties, and no other parent's
/// set changes.
pub open spec fn clear_spec(pre: SubAssets, post: SubAssets, parent: u64) -> bool {
    &&& post.children_of(parent) == Seq::<u64>::empty()
    &&& forall|q: u64| q != parent ==> #[trigger] post.children_of(q) == pre.children_of(q)
}

/// `s` with `x` appended unless already present.
pub open spec fn dedup_push(s: Seq<u64>, x: u64) -> Seq<u64> {
    if s.contains(x) {
        s
    } else {
        s.push(x)
    }
}

/// One parent's child set after a batch of created (parent, child) pairs is
/// registered in order: each pair aimed at this parent appends its child
/// unless already present.
pub open spec fn after_creates(cs: Seq<u64>, p: u64, created: Seq<(u64, u64)>) -> Seq<u64>
    decreases created.len(),
{
    if created.len() == 0 {
        cs
    } else {
        let rest = after_creates(cs, p, created.drop_last());
        if created.last().0 == p {
            dedup_push(rest, created.last().1)
        } else {
            rest
        }
    }
}

/// One parent's child set after a batch of disposed children is removed from
/// every parent, in order.
pub open spec fn after_disposals(cs: Seq<u64>, disposed: Seq<u64>) -> Seq<u64>
    decreases disposed.len(),
{
    if disposed.len() == 0 {
        cs
    } else {
        after_disposals(cs, disposed.drop_last()).remove_value(disposed.last())
    }
}

/// Position of `x` in `v`, when present.
#[verifier::loop_isolation(false)]
fn index_of_id(v: &Vec<u64>, x: u64) -> (r: Option<usize>)
    ensures
        match r {
            Some(j) => j < v@.len() && v@[j as int] == x,
            None => !v@.contains(x),
        },
{
    let mut i: usize = 0;
    while i < v.len()
        invariant
            i <= v@.len(),
            forall|j: int| 0 <= j < i ==> v@[j] != x,
        decreases v@.len() - i,
    {
        if v[i] == x {
            return Some(i);
        }
        i = i + 1;
    }
    None
}

/// In a well-formed registry the entry at index `i` is what `children_of`
/// returns for its parent.
proof fn lemma_children_at(s: &SubAssets, i: int)
    requires
        s.wf(),
        0 <= i < s.entries@.len(),
    ensures
        s.children_of(s.entries@[i].0) == s.entries@[i].1@,
{
    let p = s.entries@[i].0;
    let j = choose|j: int| 0 <= j < s.entries@.len() && s.entries@[j].0 == p;
    if i != j {
        assert(s.entries@[i].0 != s.entries@[j].0);
    }
}

/// Replacing the child list at index `i` leaves every other parent's children
/// unchanged.
proof fn lemma_frame_same_keys(s1: &SubAssets, s2: &SubAssets, i: int, q: u64)
    requires
        s1.wf(),
        s2.wf(),
        0 <= i < s1.entries@.len(),
        s2.entries@.len() == s1.entries@.len(),
        s2.entries@[i].0 == s1.entries@[i].0,
        forall|k: int|
            0 <= k < s1.entries@.len() && k != i ==> #[trigger] s2.entries@[k] == s1.entries@[k],
        q != s1.entries@[i].0,
    ensures
        s2.children_of(q) == s1.children_of(q),
{
    assert forall|k: int| 0 <= k < s1.entries@.len() implies (#[trigger] s2.entries@[k]).0
        == s1.entries@[k].0 by {}
    if exists|j: int| 0 <= j < s1.entries@.len() && s1.entries@[j].0 == q {
        let j = choose|j: int| 0 <= j < s1.entries@.len() && s1.entries@[j].0 == q;
        assert(s2.entries@[j].0 == q);
        lemma_children_at(s1, j);
        lemma_children_at(s2, j);
    } else {
        assert forall|k: int| 0 <= k < s2.entries@.len() implies (#[trigger] s2.entries@[k]).0
            != q by {
            assert(s1.entries@[k].0 != q);
        }
    }
}

/// Appending an entry for a new parent leaves every other parent's children
/// unchanged.
proof fn lemma_frame_push(s1: &SubAssets, s2: &SubAssets, q: u64)
    requires
        s1.wf(),
        s2.wf(),
        s2.entries@.len() == s1.entries@.len() + 1,
        forall|k: int|
            0 <= k < s1.entries@.len() ==> #[trigger] s2.entries@[k] == s1.entries@[k],
        q != s2.entries@[s1.entries@.len() as int].0,
    ensures
        s2.children_of(q) == s1.children_of(q),
{
    if exists|j: int| 0 <= j < s1.entries@.len() && s1.entries@[j].0 == q {
        let j = choose|j: int| 0 <= j < s1.entries@.len() && s1.entries@[j].0 == q;
        assert(s2.entries@[j].0 == q);
        lemma_children_at(s1, j);
        lemma_children_at(s2, j);
    } else {
        assert forall|k: int| 0 <= k < s2.entries@.len() implies (#[trigger] s2.entries@[k]).0
            != q by {
            if k < s1.entries@.len() {
                assert(s1.entries@[k].0 != q);
            }
        }
    }
}

/// Removing the entry at index `i` leaves every other parent's children
/// unchanged.
proof fn lemma_frame_remove_entry(s1: &SubAssets, s2: &SubAssets, i: int, q: u64)
    requires
        s1.wf(),
        s2.wf(),
        0 <= i < s1.entries@.len(),
        s2.entries@ == s1.entries@.remove(i),
        q != s1.entries@[i].0,
    ensures
        s2.children_of(q) == s1.children_of(q),
{
    s1.entries@.remove_ensures(i);
    if exists|j: int| 0 <= j < s1.entries@.len() && s1.entries@[j].0 == q {
        let j = choose|j: int| 0 <= j < s1.entries@.len() && s1.entries@[j].0 == q;
        let j2: int = if j < i {
            j
        } else {
            j - 1
        };
        assert(s2.entries@[j2] == s1.entries@[j]);
        lemma_children_at(s1, j);
        lemma_children_at(s2, j2);
    } else {
        assert forall|k: int| 0 <= k < s2.entries@.len() implies (#[trigger] s2.entries@[k]).0
            != q by {
            if k < i {
                assert(s2.entries@[k] == s1.entries@[k]);
            } else {
                assert(s2.entries@[k] == s1.entries@[k + 1]);
            }
        }
    }
}

/// Removing an entry keeps the registry well-formed.
proof fn lemma_wf_remove_entry(s1: &SubAssets, s2: &SubAssets, i: int)
    requires
        s1.wf(),
        0 <= i < s1.entries@.len(),
        s2.entries@ == s1.entries@.remove(i),
    ensures
        s2.wf(),
{
    s1.entries@.remove_ensures(i);
    assert forall|a: int, b: int| 0 <= a < b < s2.entries@.len() implies (
    #[trigger] s2.entries@[a]).0 != (#[trigger] s2.entries@[b]).0 by {
        let a1: int = if a < i {
            a
        } else {
            a + 1
        };
        let b1: int = if b < i {
            b
        } else {
            b + 1
        };
        assert(s2.entries@[a] == s1.entries@[a1]);
        assert(s2.entries@[b] == s1.entries@[b1]);
        assert(s1.entries@[a1].0 != s1.entries@[b1].0);
    }
    assert forall|k: int| 0 <= k < s2.entries@.len() implies (#[trigger] s2.entries@[k]).1@.len()
        > 0 && (#[trigger] s2.entries@[k]).1@.no_duplicates() by {
        let k1: int = if k < i {
            k
        } else {
            k + 1
        };
        assert(s2.entries@[k] == s1.entries@[k1]);
    }
}

/// Depth-bounded transitive expansion of one node: nothing for an unknown
/// parent or at exhausted depth, otherwise the expansion of its child list.
pub open spec fn expand_node(g: SubAssets, p: u64, fuel: nat) -> Seq<u64>
    decreases fuel, 0int, 0int,
{
    if g.children_of(p).len() == 0 {
        Seq::empty()
    } else if fuel == 0 {
        Seq::empty()
    } else {
        expand_list(g, g.children_of(p), (fuel - 1) as nat)
    }
}

/// Expansion of a list of siblings: each sibling's own expansion, then the
/// sibling itself, in list order.
pub open spec fn expand_list(g: SubAssets, cs: Seq<u64>, fuel: nat) -> Seq<u64>
    decreases fuel, 1int, cs.len(),
{
    if cs.len() == 0 {
        Seq::empty()
    } else {
        expand_node(g, cs[0], fuel) + seq![cs[0]] + expand_list(g, cs.drop_first(), fuel)
    }
}

/// Expanding one more sibling appends its expansion and then the sibling.
proof fn lemma_expand_list_push(g: SubAssets, cs: Seq<u64>, x: u64, fuel: nat)
    ensures
        expand_list(g, cs.push(x), fuel) == expand_list(g, cs, fuel) + expand_node(g, x, fuel)
            + seq![x],
    decreases cs.len(),
{
    if cs.len() == 0 {
        assert(cs.push(x)[0] == x);
        assert(cs.push(x).drop_first() =~= Seq::<u64>::empty());
        assert(expand_list(g, cs.push(x), fuel) == expand_node(g, x, fuel) + seq![x]
            + expand_list(g, cs.push(x).drop_first(), fuel));
        assert(expand_list(g, cs.push(x), fuel) =~= expand_list(g, cs, fuel) + expand_node(
            g,
            x,
            fuel,
        ) + seq![x]);
    } else {
        assert(cs.push(x)[0] == cs[0]);
        assert(cs.push(x).drop_first() =~= cs.drop_first().push(x));
        lemma_expand_list_push(g, cs.drop_first(), x, fuel);
        assert(expand_list(g, cs.push(x), fuel) == expand_node(g, cs[0], fuel) + seq![cs[0]]
            + expand_list(g, cs.drop_first().push(x), fuel));
        assert(expand_list(g, cs.push(x), fuel) =~= expand_list(g, cs, fuel) + expand_node(
            g,
            x,
            fuel,
        ) + seq![x]);
    }
}

/// A ranking that witnesses acyclicity: every registered child ranks strictly
/// below its parent, so no descent can return to a node it came through.
pub open spec fn ranked(g: SubAssets, rank: spec_fn(u64) -> nat) -> bool {
    forall|p: u64, c: u64| #[trigger] g.children_of(p).contains(c) ==> rank(c) < rank(p)
}

/// On an acyclic registry the expansion does not depend on the depth bound
/// once the bound covers the start's rank.
proof fn lemma_node_fuel(g: SubAssets, p: u64, rank: spec_fn(u64) -> nat, f1: nat, f2: nat)
    requires
        ranked(g, rank),
        rank(p) <= f1,
        rank(p) <= f2,
    ensures
        expand_node(g, p, f1) == expand_node(g, p, f2),
    decreases rank(p) + 1, 0int, 0int,
{
    let cs = g.children_of(p);
    if cs.len() > 0 {
        assert(cs.contains(cs[0]));
        assert(rank(p) >= 1);
        assert forall|k: int| 0 <= k < cs.len() implies rank(cs[k]) < rank(p) by {
            assert(cs.contains(cs[k]));
        }
        lemma_list_fuel(g, cs, rank, rank(p), (f1 - 1) as nat, (f2 - 1) as nat);
    }
}

/// As [`lemma_node_fuel`], for a list of siblings whose ranks all lie below
/// `b`.
proof fn lemma_list_fuel(
    g: SubAssets,
    cs: Seq<u64>,
    rank: spec_fn(u64) -> nat,
    b: nat,
    f1: nat,
    f2: nat,
)
    requires
        ranked(g, rank),
        forall|k: int| 0 <= k < cs.len() ==> rank(#[trigger] cs[k]) < b,
        b <= f1 + 1,
        b <= f2 + 1,
    ensures
        expand_list(g, cs, f1) == expand_list(g, cs, f2),
    decreases b, 1int, cs.len(),
{
    if cs.len() > 0 {
        lemma_node_fuel(g, cs[0], rank, f1, f2);
        assert forall|k: int| 0 <= k < cs.drop_first().len() implies rank(
            #[trigger] cs.drop_first()[k],
        ) < b by {
            assert(cs.drop_first()[k] == cs[k + 1]);
        }
        lemma_list_fuel(g, cs.drop_first(), rank, b, f1, f2);
    }
}

/// On an acyclic registry — witnessed by any ranking that drops from parent
/// to child — the depth bound of `children` never truncates: expanding with
/// any bound that covers the start's rank gives the very sequence `children`
/// returns, so that sequence is the full transitive descendant expansion.
pub proof fn lemma_expansion_untruncated(
    g: SubAssets,
    p: u64,
    rank: spec_fn(u64) -> nat,
    fuel: nat,
)
    requires
        ranked(g, rank),
        rank(p) <= g.depth_bound(),
        rank(p) <= fuel,
    ensures
        expand_node(g, p, fuel) == g.expansion(p),
{
    lemma_node_fuel(g, p, rank, fuel, g.depth_bound());
}

/// In a well-formed registry no parent's child set holds duplicates.
proof fn lemma_children_no_dup(g: SubAssets, p: u64)
    requires
        g.wf(),
    ensures
        g.children_of(p).no_duplicates(),
{
    if exists|i: int| 0 <= i < g.entries@.len() && g.entries@[i].0 == p {
        let i = choose|i: int| 0 <= i < g.entries@.len() && g.entries@[i].0 == p;
    }
}

/// Removing a value from a duplicate-free sequence removes exactly its one
/// occurrence: the value is gone, every other value stays, and the rest keeps
/// its order and freedom from duplicates.
proof fn lemma_remove_value_no_dup(s: Seq<u64>, v: u64)
    requires
        s.no_duplicates(),
    ensures
        !s.remove_value(v).contains(v),
        forall|w: u64| w != v ==> #[trigger] s.remove_value(v).contains(w) == s.contains(w),
        s.remove_value(v).to_set() == s.to_set().remove(v),
        s.remove_value(v).no_duplicates(),
{
    s.index_of_first_ensures(v);
    match s.index_of_first(v) {
        Some(f) => {
            s.remove_ensures(f);
            lemma_no_dup_remove(s, f);
            let s2 = s.remove(f);
            assert forall|k: int| 0 <= k < s2.len() implies s2[k] != v by {
                if k < f {
                    assert(s2[k] == s[k]);
                } else {
                    assert(s2[k] == s[k + 1]);
                    if s[k + 1] == v {
                        assert(s[f] == s[k + 1]);
                    }
                }
            }
            assert forall|w: u64| w != v implies #[trigger] s2.contains(w) == s.contains(w) by {
                if s.contains(w) {
                    let k = choose|k: int| 0 <= k < s.len() && s[k] == w;
                    if k < f {
                        assert(s2[k] == w);
                    } else {
                        assert(s2[k - 1] == w);
                    }
                    assert(s2.contains(w));
                }
                if s2.contains(w) {
                    let k = choose|k: int| 0 <= k < s2.len() && s2[k] == w;
                    if k < f {
                        assert(s[k] == w);
                    } else {
                        assert(s[k + 1] == w);
                    }
                    assert(s.contains(w));
                }
            }
            assert(s2.to_set() =~= s.to_set().remove(v));
        },
        None => {
            assert(s.remove_value(v) == s);
            assert(s.to_set() =~= s.to_set().remove(v));
        },
    }
}

/// An unknown parent expands to nothing: `children` returns the empty
/// sequence for it, whatever else the registry holds.
pub proof fn lemma_expansion_unknown(g: SubAssets, p: u64)
    requires
        !g.is_parent(p),
    ensures
        g.expansion(p) == Seq::<u64>::empty(),
{
}

/// After `add(p, c)`, removing the pair succeeds exactly once: the first
/// `remove(p, c)` returns true and a second one returns false.
pub proof fn lemma_add_remove_once(
    g0: SubAssets,
    g1: SubAssets,
    g2: SubAssets,
    g3: SubAssets,
    p: u64,
    c: u64,
    added: bool,
    r1: bool,
    r2: bool,
)
    requires
        g1.wf(),
        add_spec(g0, g1, p, c, added),
        remove_spec(g1, g2, p, c, r1),
        remove_spec(g2, g3, p, c, r2),
    ensures
        r1,
        !r2,
{
    if added {
        let l = g0.children_of(p).push(c);
        assert(l[l.len() - 1] == c);
        assert(g1.children_of(p).contains(c));
    }
    lemma_children_no_dup(g1, p);
    lemma_remove_value_no_dup(g1.children_of(p), c);
}

/// After `add(p, c1)` and `add(p, c2)` with distinct children,
/// `remove_all(c1)` reports a removal and takes exactly `c1` out of `p`'s
/// set, leaving `c2` in it.
pub proof fn lemma_remove_all_spares_sibling(
    g0: SubAssets,
    g1: SubAssets,
    g2: SubAssets,
    g3: SubAssets,
    p: u64,
    c1: u64,
    c2: u64,
    a1: bool,
    a2: bool,
    r: bool,
)
    requires
        c1 != c2,
        g2.wf(),
        add_spec(g0, g1, p, c1, a1),
        add_spec(g1, g2, p, c2, a2),
        remove_all_spec(g2, g3, c1, r),
    ensures
        r,
        g3.children_of(p).contains(c2),
        !g3.children_of(p).contains(c1),
        g3.children_of(p).to_set() == g2.children_of(p).to_set().remove(c1),
{
    if a1 {
        let l = g0.children_of(p).push(c1);
        assert(l[l.len() - 1] == c1);
        assert(g1.children_of(p).contains(c1));
    }
    if a2 {
        let l = g1.children_of(p).push(c2);
        assert(l[l.len() - 1] == c2);
        assert(g2.children_of(p).contains(c2));
        assert forall|w: u64| g1.children_of(p).contains(w) implies #[trigger] g2.children_of(
            p,
        ).contains(w) by {
            let k = choose|k: int|
                0 <= k < g1.children_of(p).len() && g1.children_of(p)[k] == w;
            assert(g2.children_of(p)[k] == w);
        }
    }
    assert(g2.children_of(p).contains(c1));
    assert(g2.children_of(p).contains(c2));
    lemma_children_no_dup(g2, p);
    lemma_remove_value_no_dup(g2.children_of(p), c1);
}

/// Removing one index from a duplicate-free sequence keeps it duplicate-free.
proof fn lemma_no_dup_remove(s: Seq<u64>, i: int)
    requires
        s.no_duplicates(),
        0 <= i < s.len(),
    ensures
        s.remove(i).no_duplicates(),
{
    s.remove_ensures(i);
    let s2 = s.remove(i);
    assert forall|a: int, b: int| 0 <= a < b < s2.len() implies s2[a] != s2[b] by {
        let a1: int = if a < i {
            a
        } else {
            a + 1
        };
        let b1: int = if b < i {
            b
        } else {
            b + 1
        };
        assert(s2[a] == s[a1]);
        assert(s2[b] == s[b1]);
        assert(s[a1] != s[b1]);
    }
}

} // verus!
