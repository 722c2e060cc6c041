//! Checking that requested workspace switches happen.
//!
//! Every switch is an attempt. An attempt whose timer runs out unconfirmed is
//! reported in two ways: at information level, once for each workspace, and as
//! a warning, once in the process, when enough distinct workspaces were tried
//! in a session and the compositor never confirmed any.

use std::collections::{HashMap, HashSet};

use vstd::prelude::*;

use crate::ids::WorkspaceId;

verus! {

/// Identifies the timer that guards one attempt.
pub type TimerId = u64;

/// What a timeout gives the caller to log.
#[derive(Debug, Clone, Copy, PartialEq, Eq, Structural)]
pub enum VerifyEvent {
    /// Nothing to log.
    Nothing,
    /// This workspace's switch was not confirmed in time.
    InfoOnceForHandle,
    /// The compositor appears to honor no switch at all.
    WarnOnceForProcess,
    /// Both of the above.
    InfoAndWarn,
}

impl VerifyEvent {
    /// Whether the workspace is reported.
    pub open spec fn has_info(self) -> bool {
        self is InfoOnceForHandle || self is InfoAndWarn
    }

    /// Whether the warning is given.
    pub open spec fn has_warn(self) -> bool {
        self is WarnOnceForProcess || self is InfoAndWarn
    }

    /// Whether to report the workspace.
    pub fn informs(self) -> (b: bool)
        ensures
            b == self.has_info(),
    {
        matches!(self, VerifyEvent::InfoOnceForHandle | VerifyEvent::InfoAndWarn)
    }

    /// Whether to warn.
    pub fn warns(self) -> (b: bool)
        ensures
            b == self.has_warn(),
    {
        matches!(self, VerifyEvent::WarnOnceForProcess | VerifyEvent::InfoAndWarn)
    }
}

/// The event that reports `info` and `warn`.
pub open spec fn event_of(info: bool, warn: bool) -> VerifyEvent {
    if info && warn {
        VerifyEvent::InfoAndWarn
    } else if info {
        VerifyEvent::InfoOnceForHandle
    } else if warn {
        VerifyEvent::WarnOnceForProcess
    } else {
        VerifyEvent::Nothing
    }
}

/// The model of a [`VerifierState`].
#[verifier::ext_equal]
pub ghost struct VerifierView {
    /// The timer of each workspace that awaits confirmation.
    pub pending: Map<WorkspaceId, TimerId>,
    /// The workspaces tried since the last confirmation.
    pub attempted: Set<WorkspaceId>,
    /// Whether any switch was ever confirmed.
    pub ever_confirmed: bool,
    /// Whether the warning was given.
    pub warn_fired: bool,
    /// The workspaces reported since the last confirmation.
    pub informed: Set<WorkspaceId>,
    /// How many distinct workspaces must be tried before the warning.
    pub threshold: nat,
}

impl VerifierView {
    pub open spec fn init(threshold: nat) -> VerifierView {
        VerifierView {
            pending: Map::empty(),
            attempted: Set::empty(),
            ever_confirmed: false,
            warn_fired: false,
            informed: Set::empty(),
            threshold,
        }
    }

    /// The start of a session in a process that gave the warning before, or
    /// did not.
    pub open spec fn resumed(threshold: nat, warned: bool) -> VerifierView {
        VerifierView { warn_fired: warned, ..VerifierView::init(threshold) }
    }

    /// A switch to `handle` was requested, with a timer or without.
    pub open spec fn attempt(self, handle: WorkspaceId, timer: Option<TimerId>) -> VerifierView {
        VerifierView {
            attempted: self.attempted.insert(handle),
            pending: match timer {
                Some(t) => self.pending.insert(handle, t),
                None => self.pending,
            },
            ..self
        }
    }

    /// The timer of `handle` was stopped.
    pub open spec fn cancel(self, handle: WorkspaceId) -> VerifierView {
        VerifierView { pending: self.pending.remove(handle), ..self }
    }

    /// The compositor reports `handle` active. A warning already given stays
    /// given.
    pub open spec fn confirm(self, handle: WorkspaceId) -> VerifierView {
        VerifierView {
            pending: self.pending.remove(handle),
            attempted: Set::empty(),
            ever_confirmed: true,
            informed: Set::empty(),
            ..self
        }
    }

    /// Whether a timeout now would give the warning.
    pub open spec fn warn_due(self) -> bool {
        !self.ever_confirmed && !self.warn_fired && self.attempted.len() >= self.threshold
    }

    /// What the timeout of `handle` gives to log.
    pub open spec fn timeout_event(self, handle: WorkspaceId) -> VerifyEvent {
        event_of(!self.informed.contains(handle), self.warn_due())
    }

    /// The timer of `handle` ran out.
    pub open spec fn timeout(self, handle: WorkspaceId) -> VerifierView {
        VerifierView {
            pending: self.pending.remove(handle),
            informed: self.informed.insert(handle),
            warn_fired: self.warn_fired || self.warn_due(),
            ..self
        }
    }
}

/// A finite set of workspaces.
struct Attempts {
    ids: HashSet<WorkspaceId>,
}

impl View for Attempts {
    type V = Set<WorkspaceId>;

    closed spec fn view(&self) -> Set<WorkspaceId> {
        self.ids@
    }
}

impl Attempts {
    #[verifier::type_invariant]
    spec fn is_finite(self) -> bool {
        self.ids@.finite()
    }

    fn new() -> (a: Self)
        ensures
            a@ == Set::<WorkspaceId>::empty(),
    {
        Attempts { ids: HashSet::new() }
    }

    fn insert(&mut self, id: WorkspaceId)
        ensures
            final(self)@ == old(self)@.insert(id),
    {
        proof {
            use_type_invariant(&*self);
        }
        let mut ids: HashSet<WorkspaceId> = HashSet::new();
        std::mem::swap(&mut ids, &mut self.ids);
        ids.insert(id);
        self.ids = ids;
    }

    fn len(&self) -> (n: usize)
        ensures
            n == self@.len(),
            self@.finite(),
    {
        proof {
            use_type_invariant(self);
        }
        self.ids.len()
    }
}

/// Tracks attempted switches and which reports were given.
pub struct VerifierState {
    pending: HashMap<WorkspaceId, TimerId>,
    attempted_distinct: Attempts,
    ever_confirmed: bool,
    process_warn_fired: bool,
    info_emitted: HashSet<WorkspaceId>,
    warn_threshold: usize,
}

impl View for VerifierState {
    type V = VerifierView;

    closed spec fn view(&self) -> VerifierView {
        VerifierView {
            pending: self.pending@,
            attempted: self.attempted_distinct@,
            ever_confirmed: self.ever_confirmed,
            warn_fired: self.process_warn_fired,
            informed: self.info_emitted@,
            threshold: self.warn_threshold as nat,
        }
    }
}

impl VerifierState {
    /// A verifier that warns once `warn_threshold` distinct workspaces were
    /// tried in vain. A threshold of zero would warn before any attempt.
    pub fn new(warn_threshold: usize) -> (v: Self)
        requires
            warn_threshold >= 1,
        ensures
            v@ == VerifierView::init(warn_threshold as nat),
    {
        VerifierState::resumed(warn_threshold, false)
    }

    /// A verifier for a new session; `warned` says whether the process gave
    /// the warning in an earlier one.
    pub fn resumed(warn_threshold: usize, warned: bool) -> (v: Self)
        requires
            warn_threshold >= 1,
        ensures
            v@ == VerifierView::resumed(warn_threshold as nat, warned),
    {
        VerifierState {
            pending: HashMap::new(),
            attempted_distinct: Attempts::new(),
            ever_confirmed: false,
            process_warn_fired: warned,
            info_emitted: HashSet::new(),
            warn_threshold,
        }
    }

    /// Records a requested switch. Without a timer the workspace counts as
    /// tried but awaits no confirmation. A timer that still runs for the
    /// workspace has to be stopped first.
    pub fn record_attempt(&mut self, handle: WorkspaceId, timer_id: Option<TimerId>)
        requires
            timer_id is Some ==> !old(self)@.pending.contains_key(handle),
        ensures
            final(self)@ == old(self)@.attempt(handle, timer_id),
            final(self)@.attempted.finite(),
            final(self)@.attempted.len() == old(self)@.attempted.len() + (if old(
                self,
            )@.attempted.contains(handle) {
                0nat
            } else {
                1nat
            }),
    {
        proof {
            use_type_invariant(&self.attempted_distinct);
        }
        self.attempted_distinct.insert(handle);
        if let Some(timer) = timer_id {
            self.pending.insert(handle, timer);
        }
    }

    /// Records that the timer of `handle` was stopped.
    pub fn record_cancel(&mut self, handle: WorkspaceId)
        ensures
            final(self)@ == old(self)@.cancel(handle),
    {
        self.pending.remove(&handle);
    }

    /// Records that the compositor reports `handle` active.
    pub fn record_confirm(&mut self, handle: WorkspaceId)
        ensures
            final(self)@ == old(self)@.confirm(handle),
    {
        self.pending.remove(&handle);
        self.ever_confirmed = true;
        self.attempted_distinct = Attempts::new();
        self.info_emitted.clear();
    }

    /// Records that the timer of `handle` ran out, and says what to log.
    pub fn record_timeout(&mut self, handle: WorkspaceId) -> (event: VerifyEvent)
        ensures
            final(self)@ == old(self)@.timeout(handle),
            event == old(self)@.timeout_event(handle),
    {
        self.pending.remove(&handle);
        let info_fires: bool = self.info_emitted.insert(handle);
        let warn_fires: bool = !self.ever_confirmed && !self.process_warn_fired
            && self.attempted_distinct.len() >= self.warn_threshold;
        if warn_fires {
            self.process_warn_fired = true;
        }
        match (info_fires, warn_fires) {
            (true, true) => VerifyEvent::InfoAndWarn,
            (true, false) => VerifyEvent::InfoOnceForHandle,
            (false, true) => VerifyEvent::WarnOnceForProcess,
            (false, false) => VerifyEvent::Nothing,
        }
    }

    /// Whether `handle` awaits confirmation.
    pub fn is_pending(&self, handle: WorkspaceId) -> (b: bool)
        ensures
            b == self@.pending.contains_key(handle),
    {
        self.pending.contains_key(&handle)
    }

    /// Whether any switch was ever confirmed.
    pub fn ever_confirmed(&self) -> (b: bool)
        ensures
            b == self@.ever_confirmed,
    {
        self.ever_confirmed
    }

    /// Whether the warning was given.
    pub fn process_warn_fired(&self) -> (b: bool)
        ensures
            b == self@.warn_fired,
    {
        self.process_warn_fired
    }

    /// Whether `handle` was reported since the last confirmation.
    pub fn info_was_emitted(&self, handle: WorkspaceId) -> (b: bool)
        ensures
            b == self@.informed.contains(handle),
    {
        self.info_emitted.contains(&handle)
    }

    /// How many distinct workspaces were tried since the last confirmation.
    pub fn attempted_distinct_count(&self) -> (n: usize)
        ensures
            n == self@.attempted.len(),
            self@.attempted.finite(),
    {
        self.attempted_distinct.len()
    }
}

/// One call on a verifier.
pub ghost enum VerifierCall {
    Attempt { handle: WorkspaceId, timer: Option<TimerId> },
    Cancel { handle: WorkspaceId },
    Confirm { handle: WorkspaceId },
    Timeout { handle: WorkspaceId },
}

impl VerifierView {
    /// The state after one call.
    pub open spec fn after(self, call: VerifierCall) -> VerifierView {
        match call {
            VerifierCall::Attempt { handle, timer } => self.attempt(handle, timer),
            VerifierCall::Cancel { handle } => self.cancel(handle),
            VerifierCall::Confirm { handle } => self.confirm(handle),
            VerifierCall::Timeout { handle } => self.timeout(handle),
        }
    }

    /// The state after `calls`, in order.
    pub open spec fn after_all(self, calls: Seq<VerifierCall>) -> VerifierView
        decreases calls.len(),
    {
        if calls.len() == 0 {
            self
        } else {
            self.after_all(calls.drop_last()).after(calls.last())
        }
    }

    /// What call `i` of `calls` gives to log.
    pub open spec fn event_at(self, calls: Seq<VerifierCall>, i: int) -> VerifyEvent {
        match calls[i] {
            VerifierCall::Timeout { handle } => self.after_all(calls.take(i)).timeout_event(handle),
            _ => VerifyEvent::Nothing,
        }
    }
}

/// One step from `i` to `i + 1`.
proof fn lemma_after_all_step(v: VerifierView, calls: Seq<VerifierCall>, i: int)
    requires
        0 <= i < calls.len(),
    ensures
        v.after_all(calls.take(i + 1)) == v.after_all(calls.take(i)).after(calls[i]),
{
    assert(calls.take(i + 1).drop_last() =~= calls.take(i));
}

/// A warning given and a confirmation seen both last.
pub proof fn law_latches_hold(v: VerifierView, calls: Seq<VerifierCall>, i: int, j: int)
    requires
        0 <= i <= j <= calls.len(),
    ensures
        v.after_all(calls.take(i)).warn_fired ==> v.after_all(calls.take(j)).warn_fired,
        v.after_all(calls.take(i)).ever_confirmed ==> v.after_all(calls.take(j)).ever_confirmed,
    decreases j - i,
{
    if i < j {
        law_latches_hold(v, calls, i, j - 1);
        lemma_after_all_step(v, calls, j - 1);
    }
}

/// The warning is given at most once: of any two calls, at most one reports it.
pub proof fn law_warns_at_most_once(v: VerifierView, calls: Seq<VerifierCall>, i: int, j: int)
    requires
        0 <= i < j < calls.len(),
        v.event_at(calls, i).has_warn(),
    ensures
        !v.event_at(calls, j).has_warn(),
{
    lemma_after_all_step(v, calls, i);
    law_latches_hold(v, calls, i + 1, j);
}

/// Once any switch was confirmed, no later call reports the warning.
pub proof fn law_no_warning_after_confirmation(
    v: VerifierView,
    calls: Seq<VerifierCall>,
    i: int,
    j: int,
)
    requires
        0 <= i < j < calls.len(),
        calls[i] is Confirm,
    ensures
        !v.event_at(calls, j).has_warn(),
{
    lemma_after_all_step(v, calls, i);
    law_latches_hold(v, calls, i + 1, j);
}

/// A workspace that was reported stays reported until a confirmation.
proof fn lemma_informed_holds(v: VerifierView, calls: Seq<VerifierCall>, h: WorkspaceId, i: int, j: int)
    requires
        0 <= i <= j <= calls.len(),
        v.after_all(calls.take(i)).informed.contains(h),
        forall|k: int| i <= k < j ==> !(#[trigger] calls[k] is Confirm),
    ensures
        v.after_all(calls.take(j)).informed.contains(h),
    decreases j - i,
{
    if i < j {
        lemma_informed_holds(v, calls, h, i, j - 1);
        lemma_after_all_step(v, calls, j - 1);
    }
}

/// Between two confirmations a workspace is reported at information level at
/// most once.
pub proof fn law_informs_once_per_handle(
    v: VerifierView,
    calls: Seq<VerifierCall>,
    h: WorkspaceId,
    i: int,
    j: int,
)
    requires
        0 <= i < j < calls.len(),
        calls[i] == (VerifierCall::Timeout { handle: h }),
        calls[j] == (VerifierCall::Timeout { handle: h }),
        forall|k: int| i < k < j ==> !(#[trigger] calls[k] is Confirm),
    ensures
        !v.event_at(calls, j).has_info(),
{
    lemma_after_all_step(v, calls, i);
    lemma_informed_holds(v, calls, h, i + 1, j);
}

/// The first timeout of a workspace since the last confirmation reports it.
pub proof fn law_first_timeout_informs(v: VerifierView, h: WorkspaceId)
    requires
        !v.informed.contains(h),
    ensures
        v.timeout_event(h).has_info(),
        v.timeout(h).informed.contains(h),
        !v.timeout(h).pending.contains_key(h),
{
}

/// The warning comes exactly when at least the threshold of distinct
/// workspaces were tried, none was ever confirmed and it was not given before.
pub proof fn law_warning_condition(v: VerifierView, h: WorkspaceId)
    ensures
        v.timeout_event(h).has_warn() <==> (!v.ever_confirmed && !v.warn_fired && v.attempted.len()
            >= v.threshold),
        v.timeout_event(h).has_warn() ==> v.timeout(h).warn_fired,
{
}

} // verus!
