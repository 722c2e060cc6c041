//! Where a new window goes, stated group by group and workspace by workspace.

use vstd::prelude::*;

use crate::config;
use crate::config::WorkspaceMode;
use crate::laws::terms;
use crate::placement;
use crate::placement::{
    PlacementAction, PlacementWarn, PostPlaceActions, SkipReason, WorkspaceTarget,
};
use crate::search;
use crate::text;

verus! {

/// All that a decision is made from.
pub ghost struct Question {
    pub config: config::ConfigView,
    pub output: Option<u64>,
    pub title_excluded: bool,
    pub info: placement::InfoView,
    pub groups: Seq<placement::GroupView>,
    pub handled: Set<u64>,
    pub toplevel_id: u64,
}

impl Question {
    /// The decision.
    pub open spec fn answer(self) -> placement::DecisionView {
        placement::decision(
            self.config,
            self.output,
            self.title_excluded,
            self.info,
            self.groups,
            self.handled,
            self.toplevel_id,
        )
    }

    /// Whether the window is left alone without a look at the groups.
    pub open spec fn is_settled_early(self) -> bool {
        ||| self.handled.contains(self.toplevel_id)
        ||| self.config.excluded_app_ids.contains(self.info.app_id)
        ||| self.title_excluded
        ||| !self.info.cosmic_toplevel_present
        ||| self.info.output_ids.len() == 0
        ||| self.config.workspace_mode == WorkspaceMode::Same
    }

    /// Whether a group is on the configured output.
    pub open spec fn output_is_known(self) -> bool {
        self.output is Some && exists|k: int|
            0 <= k < self.groups.len() && (#[trigger] self.groups[k]).output_ids.contains(
                self.output->Some_0,
            )
    }

    /// Whether the window belongs to the group at place `g`: to the first on
    /// the configured output where there is one; else to the one with the
    /// lowest identifier, and then the first, of those that have an output in
    /// common with the window.
    pub open spec fn belongs_to(self, g: int) -> bool {
        &&& 0 <= g < self.groups.len()
        &&& if self.output_is_known() {
            &&& self.groups[g].output_ids.contains(self.output->Some_0)
            &&& forall|k: int|
                0 <= k < g ==> !(#[trigger] self.groups[k]).output_ids.contains(
                    self.output->Some_0,
                )
        } else {
            &&& terms::overlap(self.groups[g].output_ids, self.info.output_ids)
            &&& forall|k: int|
                0 <= k < self.groups.len() && terms::overlap(
                    (#[trigger] self.groups[k]).output_ids,
                    self.info.output_ids,
                ) ==> self.groups[g].id < self.groups[k].id || (self.groups[g].id
                    == self.groups[k].id && g <= k)
        }
    }

    /// Whether a workspace is made for the window in the group at place `g`.
    pub open spec fn makes_workspace_in(self, g: int) -> bool {
        self.config.workspace_mode == WorkspaceMode::NewEach && self.groups[g].can_create_workspace
    }

    /// Whether the group at place `g` has a workspace for the window: one can
    /// be made, or one is empty.
    pub open spec fn has_room_in(self, g: int) -> bool {
        self.makes_workspace_in(g) || exists|w: int|
            0 <= w < self.groups[g].workspaces.len() && (
            #[trigger] self.groups[g].workspaces[w]).toplevel_ids.len() == 0
    }
}

proof fn lemma_overlap(a: Seq<u64>, b: Seq<u64>)
    ensures
        terms::overlap(a, b) == placement::share_output(a, b),
{
    if terms::overlap(a, b) {
        let (i, j) = choose|i: int, j: int|
            0 <= i < a.len() && 0 <= j < b.len() && #[trigger] a[i] == #[trigger] b[j];
        assert(b.contains(a[i]));
    }
    if placement::share_output(a, b) {
        let i = choose|i: int| 0 <= i < a.len() && b.contains(#[trigger] a[i]);
        let j = choose|j: int| 0 <= j < b.len() && b[j] == a[i];
        assert(a[i] == b[j]);
    }
}

/// The selected group is the one that the window belongs to.
proof fn lemma_selected(q: Question)
    ensures
        match placement::selected_group(q.groups, q.output, q.info.output_ids) {
            Some(g) => q.belongs_to(g),
            None => !q.output_is_known() && forall|k: int|
                0 <= k < q.groups.len() ==> !terms::overlap(
                    (#[trigger] q.groups[k]).output_ids,
                    q.info.output_ids,
                ),
        },
        forall|g: int| #[trigger]
            q.belongs_to(g) ==> placement::selected_group(
                q.groups,
                q.output,
                q.info.output_ids,
            ) == Some(g),
{
    assert forall|k: int| 0 <= k < q.groups.len() implies terms::overlap(
        (#[trigger] q.groups[k]).output_ids,
        q.info.output_ids,
    ) == placement::share_output(q.groups[k].output_ids, q.info.output_ids) by {
        lemma_overlap(q.groups[k].output_ids, q.info.output_ids);
    }
    placement::law_lowest_group(q.groups, q.info.output_ids);
    if q.output is Some {
        search::lemma_first_where(q.groups, placement::is_on(q.output->Some_0));
    }
}

/// Why a window is left alone: the first of these reasons that applies. It was
/// dealt with before, its application is excluded, its title is, it cannot be
/// moved, it is on no output, windows stay where they are; or it belongs to no
/// group, or the group that it belongs to has no room.
pub proof fn law_reason_to_leave_alone(q: Question)
    ensures
        ({
            let skips = |r: SkipReason| q.answer().action == (PlacementAction::Skip { reason: r });
            let dealt_with = q.handled.contains(q.toplevel_id);
            let app_excluded = exists|k: int|
                0 <= k < q.config.excluded_app_ids.len() && #[trigger] q.config.excluded_app_ids[k]
                    == q.info.app_id;
            let movable = q.info.cosmic_toplevel_present;
            let on_output = q.info.output_ids.len() > 0;
            let stays = q.config.workspace_mode == WorkspaceMode::Same;
            &&& skips(SkipReason::AlreadyHandled) <==> dealt_with
            &&& skips(SkipReason::ExcludedByAppId) <==> !dealt_with && app_excluded
            &&& skips(SkipReason::ExcludedByTitle) <==> !dealt_with && !app_excluded
                && q.title_excluded
            &&& skips(SkipReason::NoCosmicToplevel) <==> !dealt_with && !app_excluded
                && !q.title_excluded && !movable
            &&& skips(SkipReason::NoOutputs) <==> !dealt_with && !app_excluded && !q.title_excluded
                && movable && !on_output
            &&& skips(SkipReason::WorkspaceModeSame) <==> !dealt_with && !app_excluded
                && !q.title_excluded && movable && on_output && stays
            &&& skips(SkipReason::NoMatchingGroup) <==> !dealt_with && !app_excluded
                && !q.title_excluded && movable && on_output && !stays && !exists|g: int|
                #[trigger] q.belongs_to(g) && q.has_room_in(g)
        }),
{
    lemma_selected(q);
    if let Some(g) = placement::selected_group(q.groups, q.output, q.info.output_ids) {
        search::lemma_first_where(q.groups[g].workspaces, placement::is_free());
        assert(q.belongs_to(g));
    }
    if q.config.excluded_app_ids.contains(q.info.app_id) {
        let k = choose|k: int|
            0 <= k < q.config.excluded_app_ids.len() && q.config.excluded_app_ids[k]
                == q.info.app_id;
        assert(q.config.excluded_app_ids[k] == q.info.app_id);
    }
}

/// Any other window is placed, in the group that it belongs to: on a workspace
/// to be made where the mode asks for it and the group takes new ones, else on
/// the first of the group's workspaces that no window is on.
pub proof fn law_place_of_a_window(q: Question, g: int)
    requires
        !q.is_settled_early(),
        q.belongs_to(g),
        q.has_room_in(g),
    ensures
        q.answer().group == Some(g),
        q.answer().action matches PlacementAction::Place { workspace, then } && {
            &&& then == (PostPlaceActions {
                switch_to: q.config.switch_to_workspace,
                maximize: q.config.maximize,
            })
            &&& workspace == WorkspaceTarget::Create <==> q.makes_workspace_in(g)
            &&& !q.makes_workspace_in(g) ==> exists|w: int|
                0 <= w < q.groups[g].workspaces.len() && workspace == WorkspaceTarget::Existing(
                    (#[trigger] q.groups[g].workspaces[w]).id,
                ) && q.groups[g].workspaces[w].toplevel_ids.len() == 0 && forall|k: int|
                    0 <= k < w ==> (#[trigger] q.groups[g].workspaces[k]).toplevel_ids.len() > 0
        },
{
    lemma_selected(q);
    search::lemma_first_where(q.groups[g].workspaces, placement::is_free());
}

/// A window that has an output in common with a group is placed, in that group
/// or in one with a lower identifier, as long as no output is configured and
/// every group that it has an output in common with has an empty workspace.
pub proof fn law_any_common_output_will_do(q: Question, g: int, i: int, j: int)
    requires
        !q.is_settled_early(),
        q.output is None,
        0 <= g < q.groups.len(),
        0 <= i < q.groups[g].output_ids.len(),
        0 <= j < q.info.output_ids.len(),
        q.groups[g].output_ids[i] == q.info.output_ids[j],
        forall|k: int|
            0 <= k < q.groups.len() && terms::overlap(
                (#[trigger] q.groups[k]).output_ids,
                q.info.output_ids,
            ) ==> exists|w: int|
                0 <= w < q.groups[k].workspaces.len() && (
                #[trigger] q.groups[k].workspaces[w]).toplevel_ids.len() == 0,
    ensures
        q.answer().action is Place,
        q.answer().group matches Some(k) && 0 <= k < q.groups.len() && q.groups[k].id
            <= q.groups[g].id,
{
    lemma_selected(q);
    assert(terms::overlap(q.groups[g].output_ids, q.info.output_ids));
    let k = placement::selected_group(q.groups, q.output, q.info.output_ids)->Some_0;
    assert(q.belongs_to(k));
    let room = q.groups[k];
    assert(q.has_room_in(k));
    law_place_of_a_window(q, k);
}

/// What the operator is warned of: first that no group is on the configured
/// output, where one is configured; then that the group takes no new
/// workspaces, where the mode asks for them. Of a window that is left alone
/// without a look at the groups there is no warning.
pub proof fn law_warnings_of_a_decision(q: Question)
    ensures
        ({
            let fell_back = !q.is_settled_early() && q.config.workspace_output is Some
                && !q.output_is_known();
            let unsupported = !q.is_settled_early() && q.config.workspace_mode
                == WorkspaceMode::NewEach && exists|g: int|
                #[trigger] q.belongs_to(g) && !q.groups[g].can_create_workspace;
            q.answer().warns == (if fell_back {
                seq![PlacementWarn::WorkspaceOutputFallback]
            } else {
                Seq::empty()
            }) + (if unsupported {
                seq![PlacementWarn::NewEachUnsupported]
            } else {
                Seq::empty()
            })
        }),
{
    lemma_selected(q);
    if q.output is Some {
        search::lemma_first_where(q.groups, placement::is_on(q.output->Some_0));
    }
    if let Some(g) = placement::selected_group(q.groups, q.output, q.info.output_ids) {
        assert(q.belongs_to(g));
    }
    let fell_back = !q.is_settled_early() && q.config.workspace_output is Some
        && !q.output_is_known();
    let unsupported = !q.is_settled_early() && q.config.workspace_mode == WorkspaceMode::NewEach
        && exists|g: int| #[trigger] q.belongs_to(g) && !q.groups[g].can_create_workspace;
    let expected = (if fell_back {
        seq![PlacementWarn::WorkspaceOutputFallback]
    } else {
        Seq::empty()
    }) + (if unsupported {
        seq![PlacementWarn::NewEachUnsupported]
    } else {
        Seq::empty()
    });
    assert(placement::early_skip(
        q.config,
        q.title_excluded,
        q.info,
        q.handled,
        q.toplevel_id,
    ) is Some == q.is_settled_early());
    assert(placement::output_fell_back(q.config, q.groups, q.output) == (
    q.config.workspace_output is Some && !q.output_is_known()));
    assert(q.answer().warns =~= expected);
}

/// Where there is no snapshot to look the configured output up in, its name is
/// read as a number. A title is excluded if a pattern is configured and
/// matches it.
pub proof fn law_what_a_decision_reads(config: config::ConfigView, title: Seq<char>)
    ensures
        config.workspace_output matches Some(name) ==> placement::numbered_output(config)
            == text::decimal_u64(name),
        config.workspace_output is None ==> placement::numbered_output(config) is None,
        config.excluded_title_regex matches Some(regex) ==> placement::title_excluded(config, title)
            == config::regex_matches(regex, title),
        config.excluded_title_regex is None ==> !placement::title_excluded(config, title),
{
}

} // verus!
