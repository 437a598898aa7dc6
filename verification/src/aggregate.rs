//! Aggregate load status of a group of identifiers and their transitive
//! sub-assets.
//!
//! Given a group's top-level identifiers, the registry of discovered
//! sub-assets and a snapshot of per-identifier load states, this module
//! computes the group's aggregate status, and a deterministic,
//! order-independent fingerprint of the full dependency set that the debounce
//! gate uses to notice growth or shrinkage of the set between ticks.

use vstd::prelude::*;
use vstd::seq_lib::commutative_foldl;
use vstd::seq_lib::lemma_fold_left_permutation;

use crate::load_state::LoadState;
use crate::load_state::LoadStates;
use crate::sub_assets::dedup_push;
use crate::sub_assets::SubAssets;

verus! {

/// Aggregate status of one asset group. `Loading` carries how many of the
/// group's dependencies are loaded out of how many there are, so the progress
/// fraction `loaded / total` is observable at any time.
#[derive(Clone, Copy, Debug, PartialEq, Eq, Structural)]
pub enum AssetStructStatus {
    NotLoaded,
    Loading { loaded: usize, total: usize },
    Loaded,
    Failed,
}

impl Default for AssetStructStatus {
    fn default() -> (r: Self)
        ensures
            r == AssetStructStatus::NotLoaded,
    {
        AssetStructStatus::NotLoaded
    }
}

/// The load states of `ids`, in order, under the snapshot `st`.
pub open spec fn states_of(ids: Seq<u64>, st: LoadStates) -> Seq<LoadState> {
    ids.map_values(|id: u64| st.state_of(id))
}

/// Whether some state in `states` is `v`.
pub open spec fn any_state(states: Seq<LoadState>, v: LoadState) -> bool {
    exists|i: int| 0 <= i < states.len() && states[i] == v
}

/// How many states in `states` are `Loaded`.
pub open spec fn loaded_count(states: Seq<LoadState>) -> nat
    decreases states.len(),
{
    if states.len() == 0 {
        0
    } else {
        loaded_count(states.drop_last()) + if states.last() == LoadState::Loaded {
            1nat
        } else {
            0nat
        }
    }
}

/// The aggregate status of a group whose dependencies have the given states:
/// a single failure poisons the whole group; a group where nothing is loaded
/// yet — in particular an empty group — is `NotLoaded`, never `Loaded`; a
/// fully loaded group is `Loaded`; anything else is `Loading` with its
/// progress counts.
pub open spec fn aggregate_spec(states: Seq<LoadState>) -> AssetStructStatus {
    if any_state(states, LoadState::Failed) {
        AssetStructStatus::Failed
    } else if loaded_count(states) == 0 {
        AssetStructStatus::NotLoaded
    } else if loaded_count(states) == states.len() {
        AssetStructStatus::Loaded
    } else {
        AssetStructStatus::Loading {
            loaded: loaded_count(states) as usize,
            total: states.len() as usize,
        }
    }
}

/// `s` with each element of `xs` appended in order, skipping duplicates.
pub open spec fn dedup_extend(s: Seq<u64>, xs: Seq<u64>) -> Seq<u64>
    decreases xs.len(),
{
    if xs.len() == 0 {
        s
    } else {
        dedup_push(dedup_extend(s, xs.drop_last()), xs.last())
    }
}

/// The full dependency sequence of a group: for each top-level identifier in
/// order, its transitive expansion and then the identifier itself, first
/// occurrences kept.
pub open spec fn dep_seq(g: SubAssets, tops: Seq<u64>) -> Seq<u64>
    decreases tops.len(),
{
    if tops.len() == 0 {
        Seq::empty()
    } else {
        dedup_push(
            dedup_extend(dep_seq(g, tops.drop_last()), g.expansion(tops.last())),
            tops.last(),
        )
    }
}

/// Whether `v` holds `x`.
fn has_id(v: &Vec<u64>, x: u64) -> (b: bool)
    ensures
        b == v@.contains(x),
{
    let mut i: usize = 0;
    while i < v.len()
        invariant
            i <= v@.len(),
            forall|j: int| 0 <= j < i ==> v@[j] != x,
        decreases v@.len() - i,
    {
        if v[i] == x {
            return true;
        }
        i = i + 1;
    }
    false
}

/// Build the full dependency set of a group: the union of the top-level
/// identifiers and, for each, its transitive children from the registry,
/// duplicates collapsed.
#[verifier::loop_isolation(false)]
pub fn dependency_set(tops: &Vec<u64>, graph: &SubAssets) -> (deps: Vec<u64>)
    requires
        graph.wf(),
    ensures
        deps@ == dep_seq(*graph, tops@),
{
    let mut deps: Vec<u64> = Vec::new();
    let mut i: usize = 0;
    while i < tops.len()
        invariant
            i <= tops@.len(),
            deps@ == dep_seq(*graph, tops@.take(i as int)),
        decreases tops@.len() - i,
    {
        let t = tops[i];
        let kids = graph.children(t);
        let ghost base = deps@;
        let mut j: usize = 0;
        while j < kids.len()
            invariant
                j <= kids@.len(),
                kids@ == graph.expansion(t),
                deps@ == dedup_extend(base, kids@.take(j as int)),
            decreases kids@.len() - j,
        {
            let c = kids[j];
            if !has_id(&deps, c) {
                deps.push(c);
            }
            proof {
                assert(kids@.take(j + 1).drop_last() =~= kids@.take(j as int));
                assert(kids@.take(j + 1).last() == kids@[j as int]);
            }
            j = j + 1;
        }
        proof {
            assert(kids@.take(kids@.len() as int) =~= kids@);
        }
        if !has_id(&deps, t) {
            deps.push(t);
        }
        proof {
            assert(tops@.take(i + 1).drop_last() =~= tops@.take(i as int));
            assert(tops@.take(i + 1).last() == tops@[i as int]);
        }
        i = i + 1;
    }
    proof {
        assert(tops@.take(tops@.len() as int) =~= tops@);
    }
    deps
}

/// Count how many of the identifiers in `ids` are `Loaded` and whether any is
/// `Failed` under the snapshot `states`.
#[verifier::loop_isolation(false)]
pub fn tally(ids: &Vec<u64>, states: &LoadStates) -> (r: (usize, bool))
    requires
        states.wf(),
    ensures
        r.0 as nat == loaded_count(states_of(ids@, *states)),
        r.1 == any_state(states_of(ids@, *states), LoadState::Failed),
        r.0 <= ids@.len(),
{
    let n = ids.len();
    let mut loaded: usize = 0;
    let mut failed = false;
    let mut i: usize = 0;
    while i < n
        invariant
            i <= n,
            loaded <= i,
            loaded as nat == loaded_count(states_of(ids@.take(i as int), *states)),
            failed == any_state(states_of(ids@.take(i as int), *states), LoadState::Failed),
        decreases n - i,
    {
        let s = states.get(ids[i]);
        proof {
            let prefix = states_of(ids@.take(i as int), *states);
            let step = states_of(ids@.take(i + 1), *states);
            assert(step.drop_last() =~= prefix);
            assert(step.last() == states.state_of(ids@[i as int]));
            lemma_any_state_push(prefix, step.last(), LoadState::Failed);
            assert(step =~= prefix.push(step.last()));
        }
        match s {
            LoadState::Loaded => {
                loaded = loaded + 1;
            },
            LoadState::Failed => {
                failed = true;
            },
            _ => {},
        }
        i = i + 1;
    }
    proof {
        assert(ids@.take(n as int) =~= ids@);
    }
    (loaded, failed)
}

/// Compute the aggregate status of the identifiers in `ids` under the state
/// snapshot `states`.
pub fn aggregate(ids: &Vec<u64>, states: &LoadStates) -> (st: AssetStructStatus)
    requires
        states.wf(),
    ensures
        st == aggregate_spec(states_of(ids@, *states)),
{
    let n = ids.len();
    let (loaded, failed) = tally(ids, states);
    if failed {
        AssetStructStatus::Failed
    } else if loaded == 0 {
        AssetStructStatus::NotLoaded
    } else if loaded == n {
        AssetStructStatus::Loaded
    } else {
        AssetStructStatus::Loading { loaded, total: n }
    }
}

/// Compute a group's aggregate status from its top-level identifiers: the
/// dependency set is expanded through the registry, each member's state is
/// looked up, and the states are aggregated.
pub fn status(tops: &Vec<u64>, graph: &SubAssets, states: &LoadStates) -> (st: AssetStructStatus)
    requires
        graph.wf(),
        states.wf(),
    ensures
        st == aggregate_spec(states_of(dep_seq(*graph, tops@), *states)),
{
    let deps = dependency_set(tops, graph);
    aggregate(&deps, states)
}

/// The scrambling step of the fingerprint, spreading nearby identifiers over
/// the whole `u64` range.
pub open spec fn mix(id: u64) -> u64 {
    vstd::wrapping::u64_specs::wrapping_add(
        vstd::wrapping::u64_specs::wrapping_mul(id, SCRAMBLE),
        OFFSET,
    )
}

/// Multiplier of the fingerprint's scrambling step.
pub const SCRAMBLE: u64 = 0x9E37_79B9_7F4A_7C15;

/// Additive constant of the fingerprint's scrambling step, so that the
/// identifier 0 also contributes.
pub const OFFSET: u64 = 0x2545_F491_4F6C_DD1D;

/// How one identifier enters the fingerprint.
pub open spec fn fp_combine() -> spec_fn(u64, u64) -> u64 {
    |acc: u64, id: u64| acc ^ mix(id)
}

/// Deterministic fingerprint of a dependency sequence; order-independent, so
/// it summarizes the dependency *set* (see
/// [`lemma_fingerprint_order_independent`]).
pub open spec fn fingerprint_spec(ids: Seq<u64>) -> u64 {
    ids.fold_left(0u64, fp_combine())
}

/// Compute the fingerprint of `ids`.
#[verifier::loop_isolation(false)]
pub fn fingerprint(ids: &Vec<u64>) -> (fp: u64)
    ensures
        fp == fingerprint_spec(ids@),
{
    let mut fp: u64 = 0;
    let mut i: usize = 0;
    while i < ids.len()
        invariant
            i <= ids@.len(),
            fp == fingerprint_spec(ids@.take(i as int)),
        decreases ids@.len() - i,
    {
        let m = ids[i].wrapping_mul(SCRAMBLE).wrapping_add(OFFSET);
        fp = fp ^ m;
        proof {
            assert(ids@.take(i + 1).drop_last() =~= ids@.take(i as int));
            assert(ids@.take(i + 1).last() == ids@[i as int]);
        }
        i = i + 1;
    }
    proof {
        assert(ids@.take(ids@.len() as int) =~= ids@);
    }
    fp
}

/// Two sequences with the same elements — in particular, two enumerations of
/// the same dependency set — have the same fingerprint: the fingerprint is
/// order-independent.
pub proof fn lemma_fingerprint_order_independent(ids1: Seq<u64>, ids2: Seq<u64>)
    requires
        ids1.to_multiset() == ids2.to_multiset(),
    ensures
        fingerprint_spec(ids1) == fingerprint_spec(ids2),
{
    let f = fp_combine();
    assert(commutative_foldl(f)) by {
        assert forall|x: u64, y: u64, v: u64| #[trigger] f(f(v, x), y) == f(f(v, y), x) by {
            let a = mix(x);
            let b = mix(y);
            assert((v ^ a) ^ b == (v ^ b) ^ a) by (bit_vector);
        }
    }
    lemma_fold_left_permutation(ids1, ids2, f, 0u64);
}

/// Whenever any identifier's state in `states` is `Failed`, the aggregate is
/// `Failed` — regardless of how many others are `Loaded`.
pub proof fn lemma_failure_poisons(states: Seq<LoadState>, i: int)
    requires
        0 <= i < states.len(),
        states[i] == LoadState::Failed,
    ensures
        aggregate_spec(states) == AssetStructStatus::Failed,
{
}

/// A group with zero dependencies — in particular one with zero top-level
/// identifiers — aggregates to `NotLoaded`, never to `Loaded`.
pub proof fn lemma_empty_group_not_loaded(g: SubAssets, st: LoadStates)
    ensures
        aggregate_spec(states_of(dep_seq(g, Seq::<u64>::empty()), st))
            == AssetStructStatus::NotLoaded,
{
    assert(states_of(dep_seq(g, Seq::<u64>::empty()), st).len() == 0);
}

/// A sequence holds `w` iff its prefix does or its last element is `w`.
proof fn lemma_contains_split_last(xs: Seq<u64>, w: u64)
    requires
        xs.len() > 0,
    ensures
        xs.contains(w) == (xs.drop_last().contains(w) || xs.last() == w),
{
    if xs.drop_last().contains(w) {
        let k = choose|k: int| 0 <= k < xs.drop_last().len() && xs.drop_last()[k] == w;
        assert(xs[k] == w);
    }
    if xs.contains(w) {
        let k = choose|k: int| 0 <= k < xs.len() && xs[k] == w;
        if k < xs.len() - 1 {
            assert(xs.drop_last()[k] == w);
        }
    }
}

/// `dedup_push` adds exactly the new value and keeps the rest, without ever
/// introducing a duplicate.
proof fn lemma_dedup_push_props(s: Seq<u64>, x: u64)
    ensures
        forall|w: u64| #[trigger] dedup_push(s, x).contains(w) == (s.contains(w) || w == x),
        s.no_duplicates() ==> dedup_push(s, x).no_duplicates(),
{
    let s2 = dedup_push(s, x);
    assert forall|w: u64| #[trigger] s2.contains(w) == (s.contains(w) || w == x) by {
        if s.contains(x) {
        } else {
            if s.contains(w) {
                let k = choose|k: int| 0 <= k < s.len() && s[k] == w;
                assert(s2[k] == w);
            }
            if w == x {
                assert(s2[s.len() as int] == w);
            }
            if s2.contains(w) {
                let k = choose|k: int| 0 <= k < s2.len() && s2[k] == w;
                if k < s.len() {
                    assert(s[k] == w);
                }
            }
        }
    }
    if s.no_duplicates() && !s.contains(x) {
        assert forall|a: int, b: int| 0 <= a < b < s2.len() implies s2[a] != s2[b] by {
            if b == s.len() as int && s[a] == x {
                assert(s.contains(x));
            }
        }
    }
}

/// `dedup_extend` adds exactly the values of `xs` and keeps the rest, without
/// ever introducing a duplicate.
proof fn lemma_dedup_extend_props(s: Seq<u64>, xs: Seq<u64>)
    ensures
        forall|w: u64| #[trigger] dedup_extend(s, xs).contains(w) == (s.contains(w) || xs.contains(
            w,
        )),
        s.no_duplicates() ==> dedup_extend(s, xs).no_duplicates(),
    decreases xs.len(),
{
    if xs.len() == 0 {
        assert(forall|w: u64| !xs.contains(w));
    } else {
        lemma_dedup_extend_props(s, xs.drop_last());
        lemma_dedup_push_props(dedup_extend(s, xs.drop_last()), xs.last());
        assert forall|w: u64| #[trigger] dedup_extend(s, xs).contains(w) == (s.contains(w)
            || xs.contains(w)) by {
            lemma_contains_split_last(xs, w);
        }
    }
}

/// The dependency sequence of a group holds no duplicates, and holds exactly
/// the union of the top-level identifiers and their transitive expansions.
pub proof fn lemma_dep_seq_props(g: SubAssets, tops: Seq<u64>)
    ensures
        dep_seq(g, tops).no_duplicates(),
        forall|w: u64|
            #[trigger] dep_seq(g, tops).contains(w) == exists|i: int|
                0 <= i < tops.len() && (tops[i] == w || g.expansion(tops[i]).contains(w)),
    decreases tops.len(),
{
    if tops.len() == 0 {
        assert forall|w: u64| !(#[trigger] dep_seq(g, tops).contains(w)) by {}
    } else {
        let prev = tops.drop_last();
        let t = tops.last();
        lemma_dep_seq_props(g, prev);
        lemma_dedup_extend_props(dep_seq(g, prev), g.expansion(t));
        lemma_dedup_push_props(dedup_extend(dep_seq(g, prev), g.expansion(t)), t);
        assert forall|w: u64|
            #[trigger] dep_seq(g, tops).contains(w) == exists|i: int|
                0 <= i < tops.len() && (tops[i] == w || g.expansion(tops[i]).contains(w)) by {
            if dep_seq(g, tops).contains(w) {
                if dep_seq(g, prev).contains(w) {
                    let i = choose|i: int|
                        0 <= i < prev.len() && (prev[i] == w || g.expansion(prev[i]).contains(w));
                    assert(tops[i] == prev[i]);
                    assert(tops[i] == w || g.expansion(tops[i]).contains(w));
                } else {
                    assert(tops[tops.len() - 1] == t);
                    assert(tops[tops.len() - 1] == w || g.expansion(
                        tops[tops.len() - 1],
                    ).contains(w));
                }
            }
            if exists|i: int|
                0 <= i < tops.len() && (tops[i] == w || g.expansion(tops[i]).contains(w)) {
                let i = choose|i: int|
                    0 <= i < tops.len() && (tops[i] == w || g.expansion(tops[i]).contains(w));
                if i < tops.len() - 1 {
                    assert(prev[i] == tops[i]);
                    assert(prev[i] == w || g.expansion(prev[i]).contains(w));
                    assert(dep_seq(g, prev).contains(w));
                }
            }
        }
    }
}

/// Priority combination of the states of a list of identifiers, as
/// [`SubAssets::get_group_load_state`] reports it: a failure anywhere
/// dominates; otherwise a member that has not started, or was unloaded, or is
/// still loading keeps the group in that state, in that order; only a list
/// whose every member is loaded — including the empty list — is `Loaded`.
pub open spec fn combined_state(states: Seq<LoadState>) -> LoadState {
    if any_state(states, LoadState::Failed) {
        LoadState::Failed
    } else if any_state(states, LoadState::NotStarted) {
        LoadState::NotStarted
    } else if any_state(states, LoadState::Unloaded) {
        LoadState::Unloaded
    } else if any_state(states, LoadState::Loading) {
        LoadState::Loading
    } else {
        LoadState::Loaded
    }
}

/// Each identifier of `ids` in order, preceded by its transitive expansion.
pub open spec fn expand_group(g: SubAssets, ids: Seq<u64>) -> Seq<u64>
    decreases ids.len(),
{
    if ids.len() == 0 {
        Seq::empty()
    } else {
        expand_group(g, ids.drop_last()) + g.expansion(ids.last()) + seq![ids.last()]
    }
}

/// Combine the states of the identifiers in `all` by priority.
#[verifier::loop_isolation(false)]
fn combined(all: &Vec<u64>, states: &LoadStates) -> (st: LoadState)
    requires
        states.wf(),
    ensures
        st == combined_state(states_of(all@, *states)),
{
    let mut failed = false;
    let mut not_started = false;
    let mut unloaded = false;
    let mut loading = false;
    let mut i: usize = 0;
    while i < all.len()
        invariant
            i <= all@.len(),
            failed == any_state(states_of(all@.take(i as int), *states), LoadState::Failed),
            not_started == any_state(states_of(all@.take(i as int), *states), LoadState::NotStarted),
            unloaded == any_state(states_of(all@.take(i as int), *states), LoadState::Unloaded),
            loading == any_state(states_of(all@.take(i as int), *states), LoadState::Loading),
        decreases all@.len() - i,
    {
        let s = states.get(all[i]);
        proof {
            let prefix = states_of(all@.take(i as int), *states);
            let step = states_of(all@.take(i + 1), *states);
            assert(step.drop_last() =~= prefix);
            assert(step.last() == states.state_of(all@[i as int]));
            assert(step =~= prefix.push(step.last()));
            lemma_any_state_push(prefix, step.last(), LoadState::Failed);
            lemma_any_state_push(prefix, step.last(), LoadState::NotStarted);
            lemma_any_state_push(prefix, step.last(), LoadState::Unloaded);
            lemma_any_state_push(prefix, step.last(), LoadState::Loading);
        }
        match s {
            LoadState::Failed => {
                failed = true;
            },
            LoadState::NotStarted => {
                not_started = true;
            },
            LoadState::Unloaded => {
                unloaded = true;
            },
            LoadState::Loading => {
                loading = true;
            },
            LoadState::Loaded => {},
        }
        i = i + 1;
    }
    proof {
        assert(all@.take(all@.len() as int) =~= all@);
    }
    if failed {
        LoadState::Failed
    } else if not_started {
        LoadState::NotStarted
    } else if unloaded {
        LoadState::Unloaded
    } else if loading {
        LoadState::Loading
    } else {
        LoadState::Loaded
    }
}

impl SubAssets {
    /// The combined load state of `id` and all of its transitive sub-assets
    /// under the snapshot `states`.
    pub fn get_load_state(&self, states: &LoadStates, id: u64) -> (st: LoadState)
        requires
            self.wf(),
            states.wf(),
        ensures
            st == combined_state(states_of(self.expansion(id) + seq![id], *states)),
    {
        let mut all = self.children(id);
        all.push(id);
        proof {
            assert(all@ =~= self.expansion(id) + seq![id]);
        }
        combined(&all, states)
    }

    /// The combined load state of every identifier in `ids` together with all
    /// of their transitive sub-assets under the snapshot `states`.
    #[verifier::loop_isolation(false)]
    pub fn get_group_load_state(&self, states: &LoadStates, ids: &Vec<u64>) -> (st: LoadState)
        requires
            self.wf(),
            states.wf(),
        ensures
            st == combined_state(states_of(expand_group(*self, ids@), *states)),
    {
        let mut all: Vec<u64> = Vec::new();
        let mut i: usize = 0;
        while i < ids.len()
            invariant
                i <= ids@.len(),
                all@ == expand_group(*self, ids@.take(i as int)),
            decreases ids@.len() - i,
        {
            let t = ids[i];
            let mut kids = self.children(t);
            all.append(&mut kids);
            all.push(t);
            proof {
                assert(ids@.take(i + 1).drop_last() =~= ids@.take(i as int));
                assert(ids@.take(i + 1).last() == ids@[i as int]);
                assert(all@ =~= expand_group(*self, ids@.take(i as int)) + self.expansion(t)
                    + seq![t]);
            }
            i = i + 1;
        }
        proof {
            assert(ids@.take(ids@.len() as int) =~= ids@);
        }
        combined(&all, states)
    }
}

/// Appending one state either finds `v` in the prefix or is `v` itself.
proof fn lemma_any_state_push(s: Seq<LoadState>, e: LoadState, v: LoadState)
    ensures
        any_state(s.push(e), v) == (any_state(s, v) || e == v),
{
    let s2 = s.push(e);
    if any_state(s, v) {
        let k = choose|k: int| 0 <= k < s.len() && s[k] == v;
        assert(s2[k] == v);
    }
    if e == v {
        assert(s2[s.len() as int] == v);
    }
    if any_state(s2, v) {
        let k = choose|k: int| 0 <= k < s2.len() && s2[k] == v;
        if k < s.len() {
            assert(s[k] == v);
        }
    }
}

} // verus!
