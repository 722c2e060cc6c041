//! What the daemon asks of the compositor, the event loop and the log.
//!
//! Requests are gathered in order and carried out in that order.

use std::time::Duration;

use vstd::prelude::*;

use crate::ids::{ObjectKey, WorkspaceId};

verus! {

/// A warning that is given at most once in the process.
#[derive(Debug, Clone, Copy, PartialEq, Eq, Structural)]
pub enum Warning {
    /// The configured output is unknown; each window's own outputs decide.
    WorkspaceOutputFallback,
    /// The compositor makes no workspaces; the next free one is used.
    NewEachUnsupported,
    /// A requested workspace did not appear; the next free one is used.
    CreateWorkspaceNotHonored,
}

#[derive(Debug, PartialEq, Eq)]
pub enum Effect {
    /// Move a window to a workspace on an output.
    MoveToWorkspace { toplevel: ObjectKey, workspace: ObjectKey, output: ObjectKey },
    /// Maximize a window.
    SetMaximized { toplevel: ObjectKey },
    /// Switch to a workspace, once committed.
    Activate { workspace: ObjectKey },
    /// Make a workspace in a group, once committed.
    CreateWorkspace { group: ObjectKey, name: String },
    /// Carry out what was requested of the workspace manager.
    Commit { manager: ObjectKey },
    /// Start the timer that guards a switch.
    StartTimer { handle_id: WorkspaceId, timeout: Duration },
    /// Stop the timer with this token.
    CancelTimer { token: u64 },
    /// Log a warning.
    Warn { warning: Warning },
}

/// The model of an [`Effect`].
pub ghost enum EffectView {
    MoveToWorkspace { toplevel: ObjectKey, workspace: ObjectKey, output: ObjectKey },
    SetMaximized { toplevel: ObjectKey },
    Activate { workspace: ObjectKey },
    CreateWorkspace { group: ObjectKey, name: Seq<char> },
    Commit { manager: ObjectKey },
    StartTimer { handle_id: WorkspaceId, timeout: Duration },
    CancelTimer { token: u64 },
    Warn { warning: Warning },
}

impl View for Effect {
    type V = EffectView;

    open spec fn view(&self) -> EffectView {
        match *self {
            Effect::MoveToWorkspace { toplevel, workspace, output } => EffectView::MoveToWorkspace {
                toplevel,
                workspace,
                output,
            },
            Effect::SetMaximized { toplevel } => EffectView::SetMaximized { toplevel },
            Effect::Activate { workspace } => EffectView::Activate { workspace },
            Effect::CreateWorkspace { group, name } => EffectView::CreateWorkspace {
                group,
                name: name@,
            },
            Effect::Commit { manager } => EffectView::Commit { manager },
            Effect::StartTimer { handle_id, timeout } => EffectView::StartTimer {
                handle_id,
                timeout,
            },
            Effect::CancelTimer { token } => EffectView::CancelTimer { token },
            Effect::Warn { warning } => EffectView::Warn { warning },
        }
    }
}

impl EffectView {
    /// Whether this is a request that takes effect only once it is committed.
    pub open spec fn needs_commit(self) -> bool {
        self is Activate || self is CreateWorkspace
    }
}

/// The models of `effects`.
pub open spec fn views(effects: Seq<Effect>) -> Seq<EffectView> {
    effects.map_values(|e: Effect| e@)
}

/// Appends one request.
pub fn push(outbox: &mut Vec<Effect>, effect: Effect)
    ensures
        views(final(outbox)@) == views(old(outbox)@).push(effect@),
{
    let ghost before = outbox@;
    outbox.push(effect);
    proof {
        assert(views(outbox@) =~= views(before).push(effect@));
    }
}

} // verus!
