//! Requests to the workspace manager.
//!
//! A switch or a new workspace takes effect only once it is committed, so
//! both are requested in a transaction, which commits when it succeeds.

use vstd::prelude::*;

use crate::effects;
use crate::effects::Effect;
use crate::ids;
use crate::ids::{protocol_id, ObjectKey, WorkspaceId};
use crate::mru_jump;
use crate::mru_jump::{update_mru_from_active_transitions, MRU_CAP};
use crate::runtime;
use crate::runtime::{scan_pending_placements, DeferredOutcome};
use crate::search;
use crate::search::holds;
use crate::state;
use crate::state::AppData;
use crate::world::{is_active, Workspace, WorkspaceGroup, World};

verus! {

/// Why a transaction failed.
#[derive(Debug, Clone, PartialEq, Eq)]
pub enum WorkspaceTxError {
    /// The workspace manager is not bound; nothing was requested.
    ManagerUnavailable,
    /// The transaction's own steps failed; nothing was committed.
    Other(String),
}

impl WorkspaceTxError {
    pub open spec fn text(self) -> Seq<char> {
        match self {
            WorkspaceTxError::ManagerUnavailable => "ext_workspace_manager_v1 not available"@,
            WorkspaceTxError::Other(e) => "workspace transaction error: "@ + e@,
        }
    }

    /// The message for the operator.
    pub fn message(&self) -> (text: String)
        ensures
            text@ == self.text(),
    {
        match self {
            WorkspaceTxError::ManagerUnavailable => {
                "ext_workspace_manager_v1 not available".to_owned()
            },
            WorkspaceTxError::Other(e) => "workspace transaction error: ".to_owned().concat(
                e.as_str(),
            ),
        }
    }
}

/// The bound workspace manager.
pub struct WorkspaceManager {
    manager: ObjectKey,
}

/// The requests of one transaction. Only a transaction makes one.
pub struct WorkspaceTx {
    requests: Vec<Effect>,
}

/// Whether all of `s` are requests that need a commit.
pub open spec fn all_need_commit(s: Seq<effects::EffectView>) -> bool {
    forall|i: int| 0 <= i < s.len() ==> (#[trigger] s[i]).needs_commit()
}

impl View for WorkspaceTx {
    type V = Seq<effects::EffectView>;

    closed spec fn view(&self) -> Seq<effects::EffectView> {
        effects::views(self.requests@)
    }
}

impl WorkspaceTx {
    /// Only switches and new workspaces are requested.
    #[verifier::type_invariant]
    spec fn is_uncommitted(self) -> bool {
        all_need_commit(effects::views(self.requests@))
    }

    /// One more request.
    fn request(&mut self, effect: Effect)
        requires
            effect@.needs_commit(),
        ensures
            final(self)@ == old(self)@.push(effect@),
    {
        proof {
            use_type_invariant(&*self);
        }
        let mut requests: Vec<Effect> = Vec::new();
        proof {
            assert(effects::views(requests@) =~= Seq::empty());
        }
        std::mem::swap(&mut requests, &mut self.requests);
        effects::push(&mut requests, effect);
        self.requests = requests;
    }

    /// Requests a switch to a workspace.
    pub fn activate(&mut self, handle: ObjectKey) -> (tx: &mut Self)
        ensures
            tx@ == old(self)@.push(effects::EffectView::Activate { workspace: handle }),
            *final(self) == *final(tx),
    {
        self.request(Effect::Activate { workspace: handle });
        self
    }

    /// Requests a new workspace in a group.
    pub fn create_workspace(&mut self, group: ObjectKey, name: String) -> (tx: &mut Self)
        ensures
            tx@ == old(self)@.push(effects::EffectView::CreateWorkspace { group, name: name@ }),
            *final(self) == *final(tx),
    {
        self.request(Effect::CreateWorkspace { group, name });
        self
    }
}

impl WorkspaceManager {
    /// The handle of the manager.
    pub closed spec fn handle(&self) -> ObjectKey {
        self.manager
    }

    pub fn new(manager: ObjectKey) -> (m: Self)
        ensures
            m.handle() == manager,
    {
        WorkspaceManager { manager }
    }

    /// The manager of the snapshot, once it is bound.
    pub fn from_state(world: &World) -> (m: Result<Self, WorkspaceTxError>)
        ensures
            match m {
                Ok(manager) => world.manager == Some(manager.handle()),
                Err(e) => world.manager is None && e == WorkspaceTxError::ManagerUnavailable,
            },
    {
        match world.manager {
            Some(manager) => Ok(WorkspaceManager { manager }),
            None => Err(WorkspaceTxError::ManagerUnavailable),
        }
    }

    /// Makes the requests of `f`, which are switches and new workspaces only,
    /// and commits them, once, if it succeeds. If it fails its requests stay
    /// uncommitted.
    pub fn transaction<R, F>(&self, outbox: &mut Vec<Effect>, f: F) -> (r: Result<
        R,
        WorkspaceTxError,
    >) where F: FnOnce(&mut WorkspaceTx) -> Result<R, WorkspaceTxError>
        requires
            forall|tx: &mut WorkspaceTx| call_requires(f, (tx,)),
        ensures
            exists|tx: &mut WorkspaceTx|
                {
                    &&& tx@ == Seq::<effects::EffectView>::empty()
                    &&& #[trigger] call_ensures(f, (tx,), r)
                    &&& all_need_commit(final(tx)@)
                    &&& effects::views(final(outbox)@) == effects::views(old(outbox)@) + final(tx)@
                        + (if r is Ok {
                        seq![effects::EffectView::Commit { manager: self.handle() }]
                    } else {
                        Seq::empty()
                    })
                },
    {
        let mut tx: WorkspaceTx = WorkspaceTx { requests: Vec::new() };
        proof {
            assert(tx@ =~= Seq::<effects::EffectView>::empty());
        }
        let r: Result<R, WorkspaceTxError> = f(&mut tx);
        let ghost before = outbox@;
        let ghost requested = tx.requests@;
        proof {
            use_type_invariant(&tx);
        }
        let mut requests: Vec<Effect> = tx.requests;
        outbox.append(&mut requests);
        proof {
            assert(effects::views(outbox@) =~= effects::views(before) + effects::views(requested));
        }
        if r.is_ok() {
            effects::push(outbox, Effect::Commit { manager: self.manager });
        }
        proof {
            assert(effects::views(outbox@) =~= effects::views(before) + effects::views(requested)
                + (if r is Ok {
                seq![effects::EffectView::Commit { manager: self.handle() }]
            } else {
                Seq::empty()
            }));
        }
        r
    }
}

// ---------------------------------------------------------------------------
// A batch of changes was announced
// ---------------------------------------------------------------------------

impl state::AppView {
    /// The active workspaces were noticed, where recent ones are followed.
    pub open spec fn followed(self, world: World) -> state::AppView {
        if self.config.jump_on_empty {
            let seen = mru_jump::transitions(
                self.last_active,
                mru_jump::active_pairs(world.groups@, world.workspaces@),
            );
            state::AppView {
                last_active: seen.0,
                recent: mru_jump::recorded_all(self.recent, seen.1, MRU_CAP as nat),
                ..self
            }
        } else {
            self
        }
    }

    /// The switch to `id` was confirmed: its timer is stopped.
    pub open spec fn confirmed(self, id: WorkspaceId) -> state::AppView {
        let v = self.emit(effects::EffectView::CancelTimer { token: self.tokens[id] });
        state::AppView { tokens: v.tokens.remove(id), verifier: v.verifier.confirm(id), ..v }
    }

    /// The switches to the first `n` workspaces of the snapshot were confirmed
    /// as far as they await it and the workspaces are active.
    pub open spec fn confirmed_among(self, world: World, n: int) -> state::AppView
        decreases n,
    {
        if n <= 0 {
            self
        } else {
            let v = self.confirmed_among(world, n - 1);
            let w = world.workspaces@[n - 1];
            let id = ids::object_number(w.handle);
            if w.is_active() && world.workspace_numbered(id) == Some(n - 1) && v.tokens.contains_key(
                id,
            ) {
                v.confirmed(id)
            } else {
                v
            }
        }
    }

    /// A batch of changes was dealt with.
    pub open spec fn batch_done(self, world: World) -> (
        state::AppView,
        Seq<runtime::DeferredView>,
    ) {
        self.followed(world).confirmed_among(world, world.workspaces@.len() as int).scanned(world)
    }
}

/// Deals with a batch of changes: notices the active workspaces, confirms
/// switches, and places the windows that wait.
pub fn done(app: &mut AppData, world: &World) -> (outcomes: Vec<DeferredOutcome>)
    ensures
        (final(app)@, runtime::deferred_views(outcomes@)) == old(app)@.batch_done(*world),
{
    if app.config.jump_on_empty {
        update_mru_from_active_transitions(
            &mut app.last_known_active,
            &mut app.recent_workspaces,
            world,
            MRU_CAP,
        );
    }
    let ghost start = app@;
    let mut i: usize = 0;
    while i < world.workspaces.len()
        invariant
            i <= world.workspaces@.len(),
            app@ == start.confirmed_among(*world, i as int),
        decreases world.workspaces@.len() - i,
    {
        confirm_if_active(app, world, i);
        i += 1;
    }
    scan_pending_placements(app, world)
}

/// Confirms the switch to one workspace of the snapshot, if it awaits it and
/// is active.
fn confirm_if_active(app: &mut AppData, world: &World, i: usize)
    requires
        i < world.workspaces@.len(),
    ensures
        ({
            let w = world.workspaces@[i as int];
            let id = ids::object_number(w.handle);
            final(app)@ == (if w.is_active() && world.workspace_numbered(id) == Some(i as int)
                && old(app)@.tokens.contains_key(id) {
                old(app)@.confirmed(id)
            } else {
                old(app)@
            })
        }),
{
    let w: &Workspace = &world.workspaces[i];
    if !is_active(w) {
        return;
    }
    let id: WorkspaceId = protocol_id(w.handle);
    let first: bool = match world.find_numbered(id) {
        Some(f) => f == i,
        None => false,
    };
    if !first {
        return;
    }
    let token: u64 = match app.pending_tokens.get(&id) {
        Some(t) => *t,
        None => {
            return;
        },
    };
    app.emit(Effect::CancelTimer { token });
    app.pending_tokens.remove(&id);
    app.verifier.record_confirm(id);
}

// ---------------------------------------------------------------------------
// Queries
// ---------------------------------------------------------------------------

/// A group on the output.
pub open spec fn is_group_on(output: ObjectKey) -> spec_fn(WorkspaceGroup) -> bool {
    |g: WorkspaceGroup| g.outputs@.contains(output)
}

/// The object number of a group.
pub open spec fn number_of_group() -> spec_fn(WorkspaceGroup) -> u64 {
    |g: WorkspaceGroup| ids::object_number(g.handle)
}

/// A workspace of the group without windows.
pub open spec fn is_empty_in(world: World, group: WorkspaceGroup) -> spec_fn(Workspace) -> bool {
    |w: Workspace| group.workspaces@.contains(w.handle) && !world.occupied(w.handle)
}

/// The object number of a workspace.
pub open spec fn number_of_workspace() -> spec_fn(Workspace) -> u64 {
    |w: Workspace| ids::object_number(w.handle)
}

/// The group on the output; of several, the one with the lowest object number.
pub fn select_group_for_output(world: &World, output: ObjectKey) -> (found: Option<&WorkspaceGroup>)
    ensures
        match search::lowest_where(world.groups@, is_group_on(output), number_of_group()) {
            Some(i) => found == Some(&world.groups@[i]),
            None => found is None,
        },
        match found {
            Some(group) => {
                &&& world.groups@.contains(*group)
                &&& group.outputs@.contains(output)
                &&& forall|k: int|
                    0 <= k < world.groups@.len() && (#[trigger] world.groups@[k]).outputs@.contains(
                        output,
                    ) ==> group.handle % 0x1_0000_0000 <= world.groups@[k].handle % 0x1_0000_0000
            },
            None => forall|k: int|
                0 <= k < world.groups@.len() ==> !(#[trigger] world.groups@[k]).outputs@.contains(
                    output,
                ),
        },
{
    let ghost p = is_group_on(output);
    let ghost key = number_of_group();
    let mut best: Option<usize> = None;
    let mut i: usize = 0;
    while i < world.groups.len()
        invariant
            i <= world.groups@.len(),
            p == is_group_on(output),
            key == number_of_group(),
            match best {
                Some(b) => b < i && search::lowest_where(world.groups@.take(i as int), p, key)
                    == Some(b as int),
                None => search::lowest_where(world.groups@.take(i as int), p, key) is None,
            },
        decreases world.groups@.len() - i,
    {
        proof {
            assert(world.groups@.take(i + 1).drop_last() =~= world.groups@.take(i as int));
        }
        if holds(&world.groups[i].outputs, output) {
            best = match best {
                Some(b) => if protocol_id(world.groups[i].handle) < protocol_id(
                    world.groups[b].handle,
                ) {
                    Some(i)
                } else {
                    Some(b)
                },
                None => Some(i),
            };
        }
        i += 1;
    }
    proof {
        assert(world.groups@.take(i as int) =~= world.groups@);
        search::lemma_lowest_where(world.groups@, p, key);
        assert forall|k: int|
            0 <= k < world.groups@.len() && (#[trigger] world.groups@[k]).outputs@.contains(
                output,
            ) implies best is Some && key(world.groups@[best->Some_0 as int]) <= key(
            world.groups@[k],
        ) by {
            assert(p(world.groups@[k]));
        }
    }
    match best {
        Some(b) => Some(&world.groups[b]),
        None => None,
    }
}

/// The workspace of the group without windows; of several, the one with the
/// lowest object number.
pub fn first_empty_workspace_in_group<'a>(world: &'a World, group: &WorkspaceGroup) -> (found:
    Option<&'a Workspace>)
    ensures
        match search::lowest_where(
            world.workspaces@,
            is_empty_in(*world, *group),
            number_of_workspace(),
        ) {
            Some(i) => found == Some(&world.workspaces@[i]),
            None => found is None,
        },
        match found {
            Some(w) => {
                &&& world.workspaces@.contains(*w)
                &&& group.workspaces@.contains(w.handle)
                &&& !world.occupied(w.handle)
                &&& forall|k: int|
                    0 <= k < world.workspaces@.len() && group.workspaces@.contains(
                        (#[trigger] world.workspaces@[k]).handle,
                    ) && !world.occupied(world.workspaces@[k].handle) ==> w.handle % 0x1_0000_0000
                        <= world.workspaces@[k].handle % 0x1_0000_0000
            },
            None => forall|k: int|
                0 <= k < world.workspaces@.len() && group.workspaces@.contains(
                    (#[trigger] world.workspaces@[k]).handle,
                ) ==> world.occupied(world.workspaces@[k].handle),
        },
{
    let ghost p = is_empty_in(*world, *group);
    let ghost key = number_of_workspace();
    let mut best: Option<usize> = None;
    let mut i: usize = 0;
    while i < world.workspaces.len()
        invariant
            i <= world.workspaces@.len(),
            p == is_empty_in(*world, *group),
            key == number_of_workspace(),
            match best {
                Some(b) => b < i && search::lowest_where(world.workspaces@.take(i as int), p, key)
                    == Some(b as int),
                None => search::lowest_where(world.workspaces@.take(i as int), p, key) is None,
            },
        decreases world.workspaces@.len() - i,
    {
        let w: &Workspace = &world.workspaces[i];
        proof {
            assert(world.workspaces@.take(i + 1).drop_last() =~= world.workspaces@.take(i as int));
        }
        if holds(&group.workspaces, w.handle) && !world.is_occupied(w.handle) {
            best = match best {
                Some(b) => if protocol_id(w.handle) < protocol_id(world.workspaces[b].handle) {
                    Some(i)
                } else {
                    Some(b)
                },
                None => Some(i),
            };
        }
        i += 1;
    }
    proof {
        assert(world.workspaces@.take(i as int) =~= world.workspaces@);
        search::lemma_lowest_where(world.workspaces@, p, key);
        assert forall|k: int|
            0 <= k < world.workspaces@.len() && group.workspaces@.contains(
                (#[trigger] world.workspaces@[k]).handle,
            ) && !world.occupied(world.workspaces@[k].handle) implies best is Some && key(
            world.workspaces@[best->Some_0 as int],
        ) <= key(world.workspaces@[k]) by {
            assert(p(world.workspaces@[k]));
        }
    }
    match best {
        Some(b) => Some(&world.workspaces[b]),
        None => None,
    }
}

/// Whether a workspace is active.
pub fn workspace_is_active(workspace: &Workspace) -> (b: bool)
    ensures
        b == workspace.is_active(),
{
    is_active(workspace)
}

} // verus!
