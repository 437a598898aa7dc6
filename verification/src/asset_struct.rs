//! Per-group load/unload state machine with debounced completion.
//!
//! Each declared asset group owns one [`AssetStructState`]. External code
//! raises load and unload requests at any time; once per tick the host runs
//! [`AssetStructState::begin_tick`], performs the returned action against the
//! fetch collaborator — releasing the group's identifiers, or beginning the
//! fetches and handing back the resulting top-level identifiers through
//! [`AssetStructState::install_top_ids`] — and then, while the group is
//! loading, polls the aggregate status with [`AssetStructState::poll`]. A
//! terminal transition is reported only after the dependency set has held
//! still for more than the configured number of ticks, because a composite
//! loader may register its children one or more ticks after the parent
//! identifier itself reaches `Loaded`.

use vstd::prelude::*;

use crate::aggregate::aggregate_spec;
use crate::aggregate::dep_seq;
use crate::aggregate::dependency_set;
use crate::aggregate::fingerprint;
use crate::aggregate::fingerprint_spec;
use crate::aggregate::loaded_count;
use crate::aggregate::states_of;
use crate::aggregate::tally;
use crate::aggregate::AssetStructStatus;
use crate::load_state::LoadStates;
use crate::sub_assets::SubAssets;

verus! {

/// Debounce gate: delays loading completion while new sub-assets are still
/// being found. Completion is allowed only once the dependency-set
/// fingerprint has stayed unchanged for more than `delayed_frames`
/// consecutive ticks.
pub struct AssetStructFrameDelay {
    delayed_frames: u64,
    counted_frames: u64,
    last_fingerprint: Option<u64>,
}

impl AssetStructFrameDelay {
    /// How many consecutive unchanged ticks are required before completion.
    pub closed spec fn threshold(&self) -> u64 {
        self.delayed_frames
    }

    /// How many consecutive ticks the fingerprint has stayed unchanged.
    pub closed spec fn stable_ticks(&self) -> u64 {
        self.counted_frames
    }

    /// The fingerprint seen on the previous tick, `None` before the first.
    pub closed spec fn last_print(&self) -> Option<u64> {
        self.last_fingerprint
    }

    /// A gate that has not been fed since it was created or reset.
    pub open spec fn is_fresh(&self) -> bool {
        self.stable_ticks() == 0 && self.last_print() is None
    }

    pub fn new(delayed_frames: u64) -> (r: AssetStructFrameDelay)
        ensures
            r.threshold() == delayed_frames,
            r.is_fresh(),
    {
        AssetStructFrameDelay { delayed_frames, counted_frames: 0, last_fingerprint: None }
    }

    /// Forget all observed stability, as a fresh gate.
    pub fn reset(&mut self)
        ensures
            final(self).threshold() == old(self).threshold(),
            final(self).is_fresh(),
    {
        self.counted_frames = 0;
        self.last_fingerprint = None;
    }

    /// Feed one tick's fingerprint: an unchanged fingerprint extends the
    /// stable streak, a changed one restarts it. Returns whether the set has
    /// now been stable for more than `threshold` ticks.
    ///
    /// Call this exactly once per tick while the group is loading; calling it
    /// more often over-counts the streak.
    pub fn can_complete_loading(&mut self, handles_hash: u64) -> (stable: bool)
        requires
            old(self).stable_ticks() < u64::MAX,
        ensures
            final(self).threshold() == old(self).threshold(),
            final(self).last_print() == Some(handles_hash),
            final(self).stable_ticks() == if old(self).last_print() == Some(handles_hash) {
                old(self).stable_ticks() + 1
            } else {
                0int
            },
            stable == (final(self).stable_ticks() > final(self).threshold()),
    {
        self.counted_frames = self.counted_frames + 1;
        let same = match self.last_fingerprint {
            Some(h) => h == handles_hash,
            None => false,
        };
        if !same {
            self.last_fingerprint = Some(handles_hash);
            self.counted_frames = 0;
        }
        self.counted_frames > self.delayed_frames
    }
}

/// Completion notification of one load attempt, emitted exactly once, on the
/// tick the debounce gate confirms stability.
#[derive(Clone, Copy, Debug, PartialEq, Eq, Structural)]
pub enum LoadNotification {
    Completed,
    Failed,
}

/// What the host must do after [`AssetStructState::begin_tick`]: nothing,
/// begin the group's fetches, or release the returned identifiers.
pub enum TickAction {
    Idle,
    BeginLoad,
    Unload(Vec<u64>),
}

/// Runtime state of one asset group: the pending requests raised since the
/// last tick, whether a load attempt is under way, the observable status, the
/// debounce gate, and the group's top-level identifiers.
pub struct AssetStructState {
    load: bool,
    unload: bool,
    loading: bool,
    status: AssetStructStatus,
    frame_delay: AssetStructFrameDelay,
    tops: Vec<u64>,
}

impl AssetStructState {
    /// A load request is waiting for the next tick.
    pub closed spec fn load_pending(&self) -> bool {
        self.load
    }

    /// An unload request is waiting for the next tick.
    pub closed spec fn unload_pending(&self) -> bool {
        self.unload
    }

    /// A load attempt is under way.
    pub closed spec fn is_loading(&self) -> bool {
        self.loading
    }

    /// The group's observable status.
    pub closed spec fn current_status(&self) -> AssetStructStatus {
        self.status
    }

    /// The group's debounce gate.
    pub closed spec fn gate(&self) -> AssetStructFrameDelay {
        self.frame_delay
    }

    /// The group's top-level identifiers.
    pub closed spec fn top_ids(&self) -> Seq<u64> {
        self.tops@
    }

    /// While a load attempt is under way the observable status is `Loading`.
    pub open spec fn wf(&self) -> bool {
        self.is_loading() ==> self.current_status() matches AssetStructStatus::Loading { .. }
    }

    /// A fresh group: nothing pending, not loading, `NotLoaded`, a fresh gate
    /// with the given threshold, and no identifiers.
    pub fn new(delayed_frames: u64) -> (r: AssetStructState)
        ensures
            r.wf(),
            !r.load_pending(),
            !r.unload_pending(),
            !r.is_loading(),
            r.current_status() == AssetStructStatus::NotLoaded,
            r.gate().is_fresh(),
            r.gate().threshold() == delayed_frames,
            r.top_ids() == Seq::<u64>::empty(),
    {
        AssetStructState {
            load: false,
            unload: false,
            loading: false,
            status: AssetStructStatus::NotLoaded,
            frame_delay: AssetStructFrameDelay::new(delayed_frames),
            tops: Vec::new(),
        }
    }

    /// The group's observable status, also readable mid-load.
    pub fn status(&self) -> (st: AssetStructStatus)
        ensures
            st == self.current_status(),
    {
        self.status
    }

    /// Whether a load attempt is under way.
    pub fn loading(&self) -> (b: bool)
        ensures
            b == self.is_loading(),
    {
        self.loading
    }

    /// The group's top-level identifiers, for snapshotting their states.
    pub fn current_top_ids(&self) -> (r: &Vec<u64>)
        ensures
            r@ == self.top_ids(),
    {
        &self.tops
    }

    /// How many consecutive ticks the debounce timer has seen an unchanged fingerprint.
    pub fn stable_ticks(&self) -> (n: u64)
        ensures
            n == self.gate().stable_ticks(),
    {
        self.frame_delay.counted_frames
    }

    /// Raise a load request. Any number of requests between two ticks
    /// coalesce into one.
    pub fn request_load(&mut self)
        ensures
            request_load_spec(*old(self), *final(self)),
    {
        self.load = true;
    }

    /// Raise an unload request. Any number of requests between two ticks
    /// coalesce into one, and unload wins over a load pending in the same
    /// tick.
    pub fn request_unload(&mut self)
        ensures
            request_unload_spec(*old(self), *final(self)),
    {
        self.unload = true;
    }

    /// Consume the pending requests of this tick, in order of precedence: a
    /// pending unload resets the group — hand the returned identifiers to the
    /// fetch collaborator for release; otherwise a pending load (when not
    /// already loading) starts an attempt — begin the fetches and hand the
    /// resulting identifiers to [`AssetStructState::install_top_ids`]. Each
    /// request is consumed exactly once, however many ticks it waited.
    pub fn begin_tick(&mut self) -> (action: TickAction)
        requires
            old(self).wf(),
        ensures
            final(self).wf(),
            begin_tick_spec(*old(self), *final(self), action),
    {
        if self.unload {
            let mut released: Vec<u64> = Vec::new();
            core::mem::swap(&mut released, &mut self.tops);
            self.load = false;
            self.unload = false;
            self.loading = false;
            self.status = AssetStructStatus::NotLoaded;
            self.frame_delay.reset();
            TickAction::Unload(released)
        } else if self.load && !self.loading {
            self.load = false;
            self.unload = false;
            self.loading = true;
            self.status = AssetStructStatus::Loading { loaded: 0, total: 0 };
            TickAction::BeginLoad
        } else {
            self.load = false;
            self.unload = false;
            TickAction::Idle
        }
    }

    /// Install the top-level identifiers that the loading strategies produced
    /// when the fetches began.
    pub fn install_top_ids(&mut self, ids: Vec<u64>)
        requires
            old(self).wf(),
        ensures
            final(self).wf(),
            install_spec(*old(self), *final(self), ids@),
    {
        self.tops = ids;
    }

    /// Poll one tick while loading: expand the group's dependency set through
    /// the registry, aggregate its states, and feed the set's fingerprint to
    /// the debounce gate. Transitions to `Loaded` or `Failed` — with the
    /// notification to emit — only when the debounce timer reports stability and the
    /// aggregate is terminal; otherwise stays `Loading` with the current
    /// progress counts observable.
    pub fn poll(&mut self, graph: &SubAssets, states: &LoadStates) -> (notification: Option<
        LoadNotification,
    >)
        requires
            old(self).wf(),
            old(self).is_loading(),
            old(self).gate().stable_ticks() < u64::MAX,
            graph.wf(),
            states.wf(),
        ensures
            final(self).wf(),
            poll_spec(*old(self), *final(self), *graph, *states, notification),
    {
        let deps = dependency_set(&self.tops, graph);
        let (loaded, failed) = tally(&deps, states);
        let total = deps.len();
        let fp = fingerprint(&deps);
        let stable = self.frame_delay.can_complete_loading(fp);
        if stable && failed {
            self.loading = false;
            self.status = AssetStructStatus::Failed;
            Some(LoadNotification::Failed)
        } else if stable && !failed && loaded > 0 && loaded == total {
            self.loading = false;
            self.status = AssetStructStatus::Loaded;
            Some(LoadNotification::Completed)
        } else {
            self.status = AssetStructStatus::Loading { loaded, total };
            None
        }
    }
}

/// What `request_load` does: the load request becomes pending; everything
/// else stays.
pub open spec fn request_load_spec(pre: AssetStructState, post: AssetStructState) -> bool {
    &&& post.load_pending()
    &&& post.unload_pending() == pre.unload_pending()
    &&& post.is_loading() == pre.is_loading()
    &&& post.current_status() == pre.current_status()
    &&& post.gate() == pre.gate()
    &&& post.top_ids() == pre.top_ids()
}

/// What `request_unload` does: the unload request becomes pending; everything
/// else stays.
pub open spec fn request_unload_spec(pre: AssetStructState, post: AssetStructState) -> bool {
    &&& post.unload_pending()
    &&& post.load_pending() == pre.load_pending()
    &&& post.is_loading() == pre.is_loading()
    &&& post.current_status() == pre.current_status()
    &&& post.gate() == pre.gate()
    &&& post.top_ids() == pre.top_ids()
}

/// What `begin_tick` does. Both pending requests are consumed. A pending
/// unload wins unconditionally: the group resets to `NotLoaded` with a fresh
/// gate and its identifiers are handed back for release. Otherwise a pending
/// load (when not already loading) starts an attempt: the group transitions
/// to `Loading`. Otherwise nothing changes.
pub open spec fn begin_tick_spec(
    pre: AssetStructState,
    post: AssetStructState,
    action: TickAction,
) -> bool {
    &&& !post.load_pending()
    &&& !post.unload_pending()
    &&& if pre.unload_pending() {
        &&& action matches TickAction::Unload(released) && released@ == pre.top_ids()
        &&& !post.is_loading()
        &&& post.current_status() == AssetStructStatus::NotLoaded
        &&& post.gate().is_fresh()
        &&& post.gate().threshold() == pre.gate().threshold()
        &&& post.top_ids() == Seq::<u64>::empty()
    } else if pre.load_pending() && !pre.is_loading() {
        &&& action is BeginLoad
        &&& post.is_loading()
        &&& post.current_status() == (AssetStructStatus::Loading { loaded: 0, total: 0 })
        &&& post.gate() == pre.gate()
        &&& post.top_ids() == pre.top_ids()
    } else {
        &&& action is Idle
        &&& post.is_loading() == pre.is_loading()
        &&& post.current_status() == pre.current_status()
        &&& post.gate() == pre.gate()
        &&& post.top_ids() == pre.top_ids()
    }
}

/// What `install_top_ids` does: the identifiers are installed; everything
/// else stays.
pub open spec fn install_spec(pre: AssetStructState, post: AssetStructState, ids: Seq<u64>) -> bool {
    &&& post.top_ids() == ids
    &&& post.load_pending() == pre.load_pending()
    &&& post.unload_pending() == pre.unload_pending()
    &&& post.is_loading() == pre.is_loading()
    &&& post.current_status() == pre.current_status()
    &&& post.gate() == pre.gate()
}

/// What `poll` does. The dependency set is the group's top-level identifiers
/// expanded through the registry; its fingerprint feeds the debounce timer. Only when
/// the debounce timer reports stability and the aggregate is terminal does the machine
/// transition and emit the notification; in every other case it stays
/// `Loading`, exposing the aggregate's progress counts.
pub open spec fn poll_spec(
    pre: AssetStructState,
    post: AssetStructState,
    graph: SubAssets,
    states: LoadStates,
    notification: Option<LoadNotification>,
) -> bool {
    let deps = dep_seq(graph, pre.top_ids());
    let sts = states_of(deps, states);
    let agg = aggregate_spec(sts);
    let fp = fingerprint_spec(deps);
    let ticks: u64 = if pre.gate().last_print() == Some(fp) {
        (pre.gate().stable_ticks() + 1) as u64
    } else {
        0u64
    };
    let stable = ticks > pre.gate().threshold();
    &&& post.gate().threshold() == pre.gate().threshold()
    &&& post.gate().last_print() == Some(fp)
    &&& post.gate().stable_ticks() == ticks
    &&& post.load_pending() == pre.load_pending()
    &&& post.unload_pending() == pre.unload_pending()
    &&& post.top_ids() == pre.top_ids()
    &&& if stable && agg == AssetStructStatus::Failed {
        &&& !post.is_loading()
        &&& post.current_status() == AssetStructStatus::Failed
        &&& notification == Some(LoadNotification::Failed)
    } else if stable && agg == AssetStructStatus::Loaded {
        &&& !post.is_loading()
        &&& post.current_status() == AssetStructStatus::Loaded
        &&& notification == Some(LoadNotification::Completed)
    } else {
        &&& post.is_loading()
        &&& post.current_status() == (AssetStructStatus::Loading {
            loaded: loaded_count(sts) as usize,
            total: sts.len() as usize,
        })
        &&& notification is None
    }
}

/// An unload request pending at the start of a tick wins over any load
/// request pending in the same tick: the tick ends in `NotLoaded`, not
/// `Loading`.
pub proof fn lemma_unload_precedence(
    pre: AssetStructState,
    post: AssetStructState,
    action: TickAction,
)
    requires
        pre.unload_pending(),
        begin_tick_spec(pre, post, action),
    ensures
        post.current_status() == AssetStructStatus::NotLoaded,
        !post.is_loading(),
        action matches TickAction::Unload(released) && released@ == pre.top_ids(),
{
}

/// Round trip `Loaded` -> unload -> `NotLoaded` -> load -> `Loading`: the new
/// load attempt starts with a fresh debounce gate, carrying over no stability
/// ticks from the previous attempt, and keeps the configured threshold.
pub proof fn lemma_round_trip_fresh_gate(
    s0: AssetStructState,
    s1: AssetStructState,
    s2: AssetStructState,
    s3: AssetStructState,
    s4: AssetStructState,
    a1: TickAction,
    a2: TickAction,
)
    requires
        s0.current_status() == AssetStructStatus::Loaded,
        request_unload_spec(s0, s1),
        begin_tick_spec(s1, s2, a1),
        request_load_spec(s2, s3),
        begin_tick_spec(s3, s4, a2),
    ensures
        s2.current_status() == AssetStructStatus::NotLoaded,
        a2 is BeginLoad,
        s4.is_loading(),
        s4.current_status() matches AssetStructStatus::Loading { .. },
        s4.gate().is_fresh(),
        s4.gate().threshold() == s0.gate().threshold(),
{
}

/// While the debounce gate is not yet stable a poll never completes the
/// load: the machine stays `Loading` — never `Loaded` — and emits nothing,
/// however far the progress counts have come.
pub proof fn lemma_no_completion_while_unstable(
    pre: AssetStructState,
    post: AssetStructState,
    graph: SubAssets,
    states: LoadStates,
    notification: Option<LoadNotification>,
)
    requires
        poll_spec(pre, post, graph, states, notification),
        post.gate().stable_ticks() <= post.gate().threshold(),
    ensures
        post.is_loading(),
        post.current_status() != AssetStructStatus::Loaded,
        post.current_status() matches AssetStructStatus::Loading { .. },
        notification is None,
{
}

} // verus!
