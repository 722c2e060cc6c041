//! The models that the contracts speak of hold what the values hold.

use vstd::prelude::*;

use crate::config;
use crate::config::{Config, ConfigError};
use crate::effects;
use crate::effects::Effect;
use crate::mru_jump::{TriggerInput, WorkspaceMeta};
use crate::placement::{
    PlacementDecision, ToplevelInfoStub, WorkspaceGroupStub, WorkspaceStateStub, WorkspaceStub,
};
use crate::reconnect;
use crate::reconnect::RunError;
use crate::runtime;
use crate::runtime::{DeferredOutcome, PendingPlacement};
use crate::state::AppData;

verus! {

/// A request is modelled as the same request, of the same objects.
pub proof fn law_model_of_request(e: Effect)
    ensures
        match e {
            Effect::MoveToWorkspace { toplevel, workspace, output } => e@ == (
            effects::EffectView::MoveToWorkspace { toplevel, workspace, output }),
            Effect::SetMaximized { toplevel } => e@ == (effects::EffectView::SetMaximized {
                toplevel,
            }),
            Effect::Activate { workspace } => e@ == (effects::EffectView::Activate { workspace }),
            Effect::CreateWorkspace { group, name } => e@ == (effects::EffectView::CreateWorkspace {
                group,
                name: name@,
            }),
            Effect::Commit { manager } => e@ == (effects::EffectView::Commit { manager }),
            Effect::StartTimer { handle_id, timeout } => e@ == (effects::EffectView::StartTimer {
                handle_id,
                timeout,
            }),
            Effect::CancelTimer { token } => e@ == (effects::EffectView::CancelTimer { token }),
            Effect::Warn { warning } => e@ == (effects::EffectView::Warn { warning }),
        },
{
}

/// The state is modelled part by part; its requests and the windows that wait
/// keep their order.
pub proof fn law_model_of_state(app: AppData)
    ensures
        app@.config == (*app.config)@,
        app@.handled == app.handled@,
        app@.verifier == app.verifier@,
        app@.tokens == app.pending_tokens@,
        app@.warned_output_fallback == app.warn_workspace_output_fallback,
        app@.warned_new_each == app.warn_new_each_unsupported,
        app@.warned_not_honored == app.warn_create_workspace_not_honored,
        app@.seat == app.seat,
        app@.counter == app.new_each_counter,
        app@.recent == app.recent_workspaces@,
        app@.last_active == app.last_known_active@,
        app@.pending.len() == app.pending_placements@.len(),
        forall|i: int|
            0 <= i < app.pending_placements@.len() ==> #[trigger] app@.pending[i]
                == app.pending_placements@[i]@,
        app@.effects.len() == app.effects@.len(),
        forall|i: int|
            0 <= i < app.effects@.len() ==> #[trigger] app@.effects[i] == app.effects@[i]@,
{
}

/// A window that waits is modelled part by part.
pub proof fn law_model_of_waiting_window(p: PendingPlacement)
    ensures
        p@.cosmic_toplevel == p.cosmic_toplevel,
        p@.foreign_toplevel_id == p.foreign_toplevel_id,
        p@.group_handle == p.group_handle,
        p@.output == p.output,
        p@.before == p.workspace_ids_before@,
        p@.post_place == p.post_place,
        p@.app_id == p.app_id@,
        p@.cycles_waited == p.cycles_waited,
{
}

/// What came of windows that waited is modelled one by one.
pub proof fn law_model_of_outcomes(outcomes: Seq<DeferredOutcome>)
    ensures
        runtime::deferred_views(outcomes).len() == outcomes.len(),
        forall|i: int|
            0 <= i < outcomes.len() ==> (#[trigger] runtime::deferred_views(outcomes)[i]).app_id
                == outcomes[i].app_id@ && runtime::deferred_views(outcomes)[i].result
                == outcomes[i].result,
{
}

/// A configuration is modelled part by part.
pub proof fn law_model_of_configuration(c: Config)
    ensures
        c@.workspace_mode == c.workspace_mode,
        c@.maximize == c.maximize,
        c@.switch_to_workspace == c.switch_to_workspace,
        c@.switch_verify_timeout == c.switch_verify_timeout,
        c@.excluded_title_regex == c.excluded_title_regex,
        c@.jump_on_empty == c.jump_on_empty,
        c@.workspace_output is Some == c.workspace_output is Some,
        c.workspace_output matches Some(name) ==> c@.workspace_output == Some(name@),
        c@.excluded_app_ids.len() == c.excluded_app_ids@.len(),
        forall|i: int|
            0 <= i < c.excluded_app_ids@.len() ==> #[trigger] c@.excluded_app_ids[i]
                == c.excluded_app_ids@[i]@,
{
}

/// A refusal is modelled as the same refusal, and so is what went wrong with a
/// session.
pub proof fn law_model_of_errors(c: ConfigError, r: RunError)
    ensures
        match c {
            ConfigError::WorkspaceMode { value } => c@ == (config::ConfigErrorView::WorkspaceMode {
                value: value@,
            }),
            ConfigError::Switch { variable, value } => c@ == (config::ConfigErrorView::Switch {
                variable: variable@,
                value: value@,
            }),
            ConfigError::VerifyTimeout { value, cause } => c@ == (
            config::ConfigErrorView::VerifyTimeout { value: value@, cause: cause@ }),
            ConfigError::TitleRegex { value, cause } => c@ == (config::ConfigErrorView::TitleRegex {
                value: value@,
                cause: cause@,
            }),
        },
        match r {
            RunError::StartupFailure(e) => r@ == reconnect::RunErrorView::StartupFailure(e@),
            RunError::BackendDisconnect => r@ == reconnect::RunErrorView::BackendDisconnect,
            RunError::InternalError(e) => r@ == reconnect::RunErrorView::InternalError(e@),
        },
{
}

/// What the policy reads, and what it decides, is modelled part by part.
pub proof fn law_model_of_policy(
    info: ToplevelInfoStub,
    workspace: WorkspaceStub,
    group: WorkspaceGroupStub,
    all: WorkspaceStateStub,
    decision: PlacementDecision,
)
    ensures
        info@.app_id == info.app_id@,
        info@.title == info.title@,
        info@.output_ids == info.output_ids@,
        info@.cosmic_toplevel_present == info.cosmic_toplevel_present,
        workspace@.id == workspace.id,
        workspace@.toplevel_ids == workspace.toplevel_ids@,
        group@.id == group.id,
        group@.output_ids == group.output_ids@,
        group@.can_create_workspace == group.can_create_workspace,
        group@.workspaces.len() == group.workspaces@.len(),
        forall|i: int|
            0 <= i < group.workspaces@.len() ==> #[trigger] group@.workspaces[i]
                == group.workspaces@[i]@,
        all@.len() == all.groups@.len(),
        forall|i: int| 0 <= i < all.groups@.len() ==> #[trigger] all@[i] == all.groups@[i]@,
        decision@.action == decision.action,
        decision@.warns == decision.warns@,
        decision@.group is Some == decision.group is Some,
        decision.group matches Some(i) ==> decision@.group == Some(i as int),
{
}

/// What the selection reads is modelled part by part.
pub proof fn law_model_of_selection(meta: WorkspaceMeta, input: TriggerInput)
    ensures
        meta@.id == meta.id,
        meta@.coordinates == meta.coordinates@,
        meta@.group_id == meta.group_id,
        input@.closed == input.closed_workspaces@,
        input@.is_active == input.is_active@,
        input@.others == input.occupied_excluding_closed@,
        input@.group_of == input.group_id_for@,
        input@.recent == input.recent_mru@,
        forall|g: u64| #[trigger]
            input@.group_workspaces.contains_key(g) == input.group_workspaces@.contains_key(g),
        forall|g: u64, i: int|
            input.group_workspaces@.contains_key(g) && 0 <= i
                < input.group_workspaces@[g]@.len() ==> #[trigger] input@.group_workspaces[g][i]
                == input.group_workspaces@[g]@[i]@,
        forall|g: u64|
            input.group_workspaces@.contains_key(g) ==> (
            #[trigger] input@.group_workspaces[g]).len() == input.group_workspaces@[g]@.len(),
        forall|g: u64| #[trigger]
            input@.group_occupied.contains_key(g) == input.group_occupied@.contains_key(g),
        forall|g: u64|
            input.group_occupied@.contains_key(g) ==> #[trigger] input@.group_occupied[g]
                == input.group_occupied@[g]@,
{
}

} // verus!
