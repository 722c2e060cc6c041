//! Requests to the window manager; none of them is committed.

use vstd::prelude::*;

use crate::effects;
use crate::effects::Effect;
use crate::ids::ObjectKey;
use crate::state::AppData;

verus! {

/// Moves a window to a workspace on an output.
pub fn move_toplevel(
    app: &mut AppData,
    toplevel: ObjectKey,
    workspace: ObjectKey,
    output: ObjectKey,
)
    ensures
        final(app)@ == old(app)@.emit(
            effects::EffectView::MoveToWorkspace { toplevel, workspace, output },
        ),
{
    app.emit(Effect::MoveToWorkspace { toplevel, workspace, output });
}

/// Maximizes a window.
pub fn set_maximized(app: &mut AppData, toplevel: ObjectKey)
    ensures
        final(app)@ == old(app)@.emit(effects::EffectView::SetMaximized { toplevel }),
{
    app.emit(Effect::SetMaximized { toplevel });
}

} // verus!
