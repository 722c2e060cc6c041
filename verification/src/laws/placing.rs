//! What comes of a new window, stated over the snapshot and over what is asked
//! for.

use vstd::prelude::*;

use crate::config::WorkspaceMode;
use crate::effects;
use crate::effects::Warning;
use crate::ids;
use crate::ids::ObjectKey;
use crate::laws;
use crate::laws::deciding;
use crate::laws::terms;
use crate::placement;
use crate::placement::{PlacementWarn, PostPlaceActions, SkipReason};
use crate::runtime;
use crate::runtime::{PlaceError, PlaceOutcome};
use crate::search;
use crate::state;
use crate::text;
use crate::world;
use crate::world::{Toplevel, Workspace, World};

verus! {

// ---------------------------------------------------------------------------
// What is asked for
// ---------------------------------------------------------------------------

/// The requests of a switch: the switch and its commit; the stop of the timer
/// that is held for the workspace; and the start of one, as long as is
/// configured.
pub open spec fn switch_requests(
    v: state::AppView,
    manager: ObjectKey,
    workspace: ObjectKey,
) -> Seq<effects::EffectView> {
    seq![
        effects::EffectView::Activate { workspace },
        effects::EffectView::Commit { manager },
    ] + (if v.tokens.contains_key(terms::number(workspace)) {
        seq![effects::EffectView::CancelTimer { token: v.tokens[terms::number(workspace)] }]
    } else {
        Seq::empty()
    }) + (match v.config.switch_verify_timeout {
        Some(timeout) => seq![
            effects::EffectView::StartTimer { handle_id: terms::number(workspace), timeout },
        ],
        None => Seq::empty(),
    })
}

/// The requests for a window that is placed: the move; the switch, where it is
/// wanted and there is a manager; and the window maximized, where that is
/// wanted.
pub open spec fn placing_requests(
    v: state::AppView,
    manager: Option<ObjectKey>,
    toplevel: ObjectKey,
    workspace: ObjectKey,
    output: ObjectKey,
    post: PostPlaceActions,
) -> Seq<effects::EffectView> {
    seq![effects::EffectView::MoveToWorkspace { toplevel, workspace, output }] + (if post.switch_to
        && manager is Some {
        switch_requests(v, manager->Some_0, workspace)
    } else {
        Seq::empty()
    }) + (if post.maximize {
        seq![effects::EffectView::SetMaximized { toplevel }]
    } else {
        Seq::empty()
    })
}

/// Whether `b` is `a` but for what is asked for and for the warnings given.
pub open spec fn only_asks(a: state::AppView, b: state::AppView) -> bool {
    b == (state::AppView {
        effects: b.effects,
        warned_output_fallback: b.warned_output_fallback,
        warned_new_each: b.warned_new_each,
        warned_not_honored: b.warned_not_honored,
        ..a
    })
}

/// Whether `b` is `a` but for what is asked for, for the warnings given and
/// for a switch to `workspace`: no timer is held for it, and the attempt
/// counts at once where switches are not checked.
pub open spec fn only_switches(a: state::AppView, b: state::AppView, workspace: ObjectKey) -> bool {
    let id = terms::number(workspace);
    b == (state::AppView {
        effects: b.effects,
        warned_output_fallback: b.warned_output_fallback,
        warned_new_each: b.warned_new_each,
        warned_not_honored: b.warned_not_honored,
        tokens: a.tokens.remove(id),
        verifier: crate::verify::VerifierView {
            pending: a.verifier.pending.remove(id),
            attempted: if a.config.switch_verify_timeout is None {
                a.verifier.attempted.insert(id)
            } else {
                a.verifier.attempted
            },
            ..a.verifier
        },
        ..a
    })
}

/// Whether `b` is `a` but for what is asked for, the warnings given and, if
/// `switched`, a switch to `workspace`.
pub open spec fn only_places(
    a: state::AppView,
    b: state::AppView,
    workspace: ObjectKey,
    switched: bool,
) -> bool {
    if switched {
        only_switches(a, b, workspace)
    } else {
        only_asks(a, b)
    }
}

/// A switch asks for what a switch takes, and touches nothing but the timer
/// and the count of attempts.
pub proof fn law_switch_requests(v: state::AppView, manager: ObjectKey, workspace: ObjectKey)
    ensures
        v.activated(manager, workspace).effects == v.effects + switch_requests(
            v,
            manager,
            workspace,
        ),
        only_switches(v, v.activated(manager, workspace), workspace),
{
    let after = v.activated(manager, workspace);
    assert(ids::object_number(workspace) == terms::number(workspace));
    assert(after.effects =~= v.effects + switch_requests(v, manager, workspace));
    let id = terms::number(workspace);
    if v.config.switch_verify_timeout is Some {
        assert(after.verifier.attempted == v.verifier.attempted);
    }
}

pub(crate) proof fn lemma_placing_requests(
    v: state::AppView,
    manager: Option<ObjectKey>,
    toplevel: ObjectKey,
    workspace: ObjectKey,
    output: ObjectKey,
    post: PostPlaceActions,
)
    ensures
        v.placed(manager, toplevel, workspace, output, post).effects == v.effects
            + placing_requests(v, manager, toplevel, workspace, output, post),
        only_places(
            v,
            v.placed(manager, toplevel, workspace, output, post),
            workspace,
            post.switch_to && manager is Some,
        ),
{
    let moved = v.emit(effects::EffectView::MoveToWorkspace { toplevel, workspace, output });
    if post.switch_to && manager is Some {
        law_switch_requests(moved, manager->Some_0, workspace);
    }
    assert(v.placed(manager, toplevel, workspace, output, post).effects =~= v.effects
        + placing_requests(v, manager, toplevel, workspace, output, post));
}

// ---------------------------------------------------------------------------
// The group of a window
// ---------------------------------------------------------------------------

/// A new window, and what it is met with.
pub ghost struct Arrival {
    pub before: state::AppView,
    pub world: World,
    pub window: Toplevel,
    pub title_excluded: bool,
}

impl Arrival {
    /// The state after the window was dealt with.
    pub open spec fn after(self) -> state::AppView {
        self.before.received(self.world, self.window, self.title_excluded).0
    }

    /// How that went.
    pub open spec fn outcome(self) -> Result<PlaceOutcome, PlaceError> {
        self.before.received(self.world, self.window, self.title_excluded).1
    }

    /// Whether a window with the same number was dealt with.
    pub open spec fn is_known(self) -> bool {
        exists|key: ObjectKey| #[trigger]
            self.before.handled.contains(key) && terms::number(key) == terms::number(
                self.window.handle,
            )
    }

    /// Whether the window's application is excluded.
    pub open spec fn app_excluded(self) -> bool {
        exists|k: int|
            0 <= k < self.before.config.excluded_app_ids.len()
                && #[trigger] self.before.config.excluded_app_ids[k] == self.window.app_id@
    }

    /// Whether the window is left alone without a look at the groups.
    pub open spec fn is_settled_early(self) -> bool {
        ||| self.is_known()
        ||| self.app_excluded()
        ||| self.title_excluded
        ||| self.window.cosmic_handle is None
        ||| self.window.outputs@.len() == 0
        ||| self.before.config.workspace_mode == WorkspaceMode::Same
    }

    /// Whether the output at place `o` has the configured name.
    pub open spec fn has_configured_name(self, o: int) -> bool {
        &&& 0 <= o < self.world.outputs@.len()
        &&& self.before.config.workspace_output is Some
        &&& self.world.outputs@[o].name matches Some(name) && name@
            == self.before.config.workspace_output->Some_0
    }

    /// Whether the configured output has the number `n`: the first output of
    /// that name has, or there is none and the name is that number.
    pub open spec fn is_configured(self, n: u64) -> bool {
        &&& self.before.config.workspace_output is Some
        &&& {
            ||| exists|o: int| #[trigger]
                self.has_configured_name(o) && terms::number(self.world.outputs@[o].handle) == n
                    && forall|k: int| 0 <= k < o ==> !(#[trigger] self.has_configured_name(k))
            ||| (forall|o: int| !(#[trigger] self.has_configured_name(o))) && text::decimal_u64(
                self.before.config.workspace_output->Some_0,
            ) == Some(n)
        }
    }

    /// Whether the group at place `g` is on the configured output.
    pub open spec fn is_on_configured(self, g: int) -> bool {
        exists|n: u64| #[trigger]
            self.is_configured(n) && 0 <= g < self.world.groups@.len() && terms::numbered_among(
                self.world.groups@[g].outputs@,
                n,
            )
    }

    /// Whether the group at place `g` has an output in common with the window.
    pub open spec fn is_beside(self, g: int) -> bool {
        0 <= g < self.world.groups@.len() && terms::numbers_overlap(
            self.world.groups@[g].outputs@,
            self.window.outputs@,
        )
    }

    /// Whether the window belongs to the group at place `g`: to the first on
    /// the configured output, where there is one; else to the one with the
    /// lowest number, and then the first, of those that have an output in
    /// common with the window.
    pub open spec fn belongs_to(self, g: int) -> bool {
        if exists|k: int| #[trigger] self.is_on_configured(k) {
            self.is_on_configured(g) && forall|k: int|
                0 <= k < g ==> !(#[trigger] self.is_on_configured(k))
        } else {
            self.is_beside(g) && forall|k: int| #[trigger]
                self.is_beside(k) ==> {
                    let mine = terms::number(self.world.groups@[g].handle);
                    let other = terms::number(self.world.groups@[k].handle);
                    mine < other || (mine == other && g <= k)
                }
        }
    }

    /// Whether a workspace is made for the window in the group at place `g`.
    pub open spec fn makes_workspace_in(self, g: int) -> bool {
        self.before.config.workspace_mode == WorkspaceMode::NewEach && terms::takes_new(
            self.world.groups@[g],
        )
    }

    /// What follows the move, as configured.
    pub open spec fn post(self) -> PostPlaceActions {
        PostPlaceActions {
            switch_to: self.before.config.switch_to_workspace,
            maximize: self.before.config.maximize,
        }
    }

    /// Whether the operator is due to hear that no group is on the configured
    /// output.
    pub open spec fn falls_back(self) -> bool {
        !self.is_settled_early() && self.before.config.workspace_output is Some && !exists|k: int|
            #[trigger] self.is_on_configured(k)
    }

    /// Whether the operator is due to hear that the group takes no new
    /// workspaces.
    pub open spec fn is_unsupported(self) -> bool {
        !self.is_settled_early() && self.before.config.workspace_mode == WorkspaceMode::NewEach
            && exists|g: int| #[trigger]
            self.belongs_to(g) && !terms::takes_new(self.world.groups@[g])
    }

    /// The warnings that are given: those that are due and were not given
    /// before.
    pub open spec fn warnings(self) -> Seq<effects::EffectView> {
        (if self.falls_back() && !self.before.warned_output_fallback {
            seq![effects::EffectView::Warn { warning: Warning::WorkspaceOutputFallback }]
        } else {
            Seq::empty()
        }) + (if self.is_unsupported() && !self.before.warned_new_each {
            seq![effects::EffectView::Warn { warning: Warning::NewEachUnsupported }]
        } else {
            Seq::empty()
        })
    }

    /// What the decision is made from.
    spec fn question(self) -> deciding::Question {
        deciding::Question {
            config: self.before.config,
            output: runtime::configured_output(self.before.config, self.world),
            title_excluded: self.title_excluded,
            info: runtime::info_view(self.window),
            groups: runtime::group_views(self.world),
            handled: runtime::number_set(self.before.handled),
            toplevel_id: ids::object_number(self.window.handle),
        }
    }
}

proof fn lemma_numbered_among(keys: Seq<ObjectKey>, n: u64)
    ensures
        world::numbers(keys).contains(n) == terms::numbered_among(keys, n),
{
    let ns = world::numbers(keys);
    if ns.contains(n) {
        let i = choose|i: int| 0 <= i < ns.len() && ns[i] == n;
        assert(terms::number(keys[i]) == n);
    }
    if terms::numbered_among(keys, n) {
        let i = choose|i: int| 0 <= i < keys.len() && terms::number(#[trigger] keys[i]) == n;
        assert(ns[i] == n);
    }
}

proof fn lemma_numbers_overlap(a: Seq<ObjectKey>, b: Seq<ObjectKey>)
    ensures
        terms::overlap(world::numbers(a), world::numbers(b)) == terms::numbers_overlap(a, b),
{
    let x = world::numbers(a);
    let y = world::numbers(b);
    if terms::overlap(x, y) {
        let (i, j) = choose|i: int, j: int|
            0 <= i < x.len() && 0 <= j < y.len() && #[trigger] x[i] == #[trigger] y[j];
        assert(terms::number(a[i]) == terms::number(b[j]));
    }
    if terms::numbers_overlap(a, b) {
        let (i, j) = choose|i: int, j: int|
            0 <= i < a.len() && 0 <= j < b.len() && terms::number(#[trigger] a[i]) == terms::number(
                #[trigger] b[j],
            );
        assert(x[i] == y[j]);
    }
}

/// The configured output is the one that is found.
proof fn lemma_configured(a: Arrival)
    ensures
        forall|n: u64| #[trigger]
            a.is_configured(n) <==> runtime::configured_output(a.before.config, a.world) == Some(n),
{
    if let Some(name) = a.before.config.workspace_output {
        let p = runtime::is_named(name);
        search::lemma_first_where(a.world.outputs@, p);
        assert forall|o: int| #[trigger] a.has_configured_name(o) <==> 0 <= o
            < a.world.outputs@.len() && p(a.world.outputs@[o]) by {}
        if let Some(i) = search::first_where(a.world.outputs@, p) {
            assert(a.has_configured_name(i));
            assert forall|n: u64| #[trigger] a.is_configured(n) implies n == ids::object_number(
                a.world.outputs@[i].handle,
            ) by {
                let o = choose|o: int| #[trigger]
                    a.has_configured_name(o) && terms::number(a.world.outputs@[o].handle) == n
                        && forall|k: int| 0 <= k < o ==> !(#[trigger] a.has_configured_name(k));
                if o < i {
                    assert(p(a.world.outputs@[o]));
                }
            }
        }
    }
}

/// What the decision reads is what is in the snapshot.
proof fn lemma_question(a: Arrival)
    ensures
        a.question().is_settled_early() == a.is_settled_early(),
        a.question().handled.contains(a.question().toplevel_id) == a.is_known(),
        a.question().config.excluded_app_ids.contains(a.window.app_id@) == a.app_excluded(),
        a.question().output_is_known() == exists|k: int| #[trigger] a.is_on_configured(k),
        forall|g: int| #[trigger] a.question().belongs_to(g) <==> #[trigger] a.belongs_to(g),
        forall|g: int|
            0 <= g < a.world.groups@.len() ==> #[trigger] a.question().makes_workspace_in(g)
                == a.makes_workspace_in(g),
        forall|g: int|
            0 <= g < a.world.groups@.len() ==> (#[trigger] a.question().groups[g]).can_create_workspace
                == terms::takes_new(a.world.groups@[g]),
{
    let q = a.question();
    lemma_configured(a);
    assert(a.is_known() == q.handled.contains(q.toplevel_id)) by {
        if a.is_known() {
            let key = choose|key: ObjectKey| #[trigger]
                a.before.handled.contains(key) && terms::number(key) == terms::number(
                    a.window.handle,
                );
            assert(q.handled.contains(ids::object_number(key)));
        }
    }
    assert(q.config.excluded_app_ids.contains(a.window.app_id@) == a.app_excluded()) by {
        if a.app_excluded() {
            let k = choose|k: int|
                0 <= k < a.before.config.excluded_app_ids.len()
                    && #[trigger] a.before.config.excluded_app_ids[k] == a.window.app_id@;
            assert(q.config.excluded_app_ids[k] == a.window.app_id@);
        }
        if q.config.excluded_app_ids.contains(a.window.app_id@) {
            let k = choose|k: int|
                0 <= k < q.config.excluded_app_ids.len() && q.config.excluded_app_ids[k]
                    == a.window.app_id@;
            assert(a.before.config.excluded_app_ids[k] == a.window.app_id@);
        }
    }
    assert forall|k: int| #[trigger] a.is_on_configured(k) <==> q.output is Some && 0 <= k
        < q.groups.len() && q.groups[k].output_ids.contains(q.output->Some_0) by {
        if 0 <= k < a.world.groups@.len() {
            if q.output is Some {
                lemma_numbered_among(a.world.groups@[k].outputs@, q.output->Some_0);
                assert(a.is_configured(q.output->Some_0));
            }
        }
    }
    assert forall|k: int| #[trigger] a.is_beside(k) <==> 0 <= k < q.groups.len() && terms::overlap(
        q.groups[k].output_ids,
        q.info.output_ids,
    ) by {
        if 0 <= k < a.world.groups@.len() {
            lemma_numbers_overlap(a.world.groups@[k].outputs@, a.window.outputs@);
        }
    }
    assert(q.output_is_known() == exists|k: int| #[trigger] a.is_on_configured(k)) by {
        if q.output_is_known() {
            let k = choose|k: int|
                0 <= k < q.groups.len() && (#[trigger] q.groups[k]).output_ids.contains(
                    q.output->Some_0,
                );
            assert(a.is_on_configured(k));
        }
        if exists|k: int| #[trigger] a.is_on_configured(k) {
            let k = choose|k: int| #[trigger] a.is_on_configured(k);
            assert(q.groups[k].output_ids.contains(q.output->Some_0));
        }
    }
    assert forall|g: int| #[trigger] q.belongs_to(g) <==> #[trigger] a.belongs_to(g) by {
        if q.output_is_known() {
            if q.belongs_to(g) {
                assert forall|k: int| 0 <= k < g implies !(#[trigger] a.is_on_configured(k)) by {
                    assert(!q.groups[k].output_ids.contains(q.output->Some_0));
                }
            }
            if a.belongs_to(g) {
                assert forall|k: int| 0 <= k < g implies !(
                #[trigger] q.groups[k]).output_ids.contains(q.output->Some_0) by {
                    assert(!a.is_on_configured(k));
                }
            }
        } else {
            if q.belongs_to(g) {
                assert(a.is_beside(g));
                assert forall|k: int| #[trigger] a.is_beside(k) implies ({
                    let mine = terms::number(a.world.groups@[g].handle);
                    let other = terms::number(a.world.groups@[k].handle);
                    mine < other || (mine == other && g <= k)
                }) by {
                    assert(q.groups[k].id == terms::number(a.world.groups@[k].handle));
                }
            }
            if a.belongs_to(g) {
                assert forall|k: int|
                    0 <= k < q.groups.len() && terms::overlap(
                        (#[trigger] q.groups[k]).output_ids,
                        q.info.output_ids,
                    ) implies q.groups[g].id < q.groups[k].id || (q.groups[g].id == q.groups[k].id
                    && g <= k) by {
                    assert(a.is_beside(k));
                }
            }
        }
    }
}

/// The group's first workspace that is free for the decision is its first that
/// no window is on.
proof fn lemma_first_free(world: World, g: int)
    requires
        0 <= g < world.groups@.len(),
    ensures
        match search::first_where(
            runtime::group_view(world, world.groups@[g]).workspaces,
            placement::is_free(),
        ) {
            Some(k) => exists|w: int| #[trigger]
                terms::first_empty_in(world, g, w) && runtime::group_view(
                    world,
                    world.groups@[g],
                ).workspaces[k].id == terms::number(world.workspaces@[w].handle),
            None => forall|w: int| !(#[trigger] terms::first_empty_in(world, g, w)),
        },
{
    let group = world.groups@[g];
    let p = world::is_member(group);
    let r = |w: Workspace| !world.occupied(w.handle);
    let kept = world.members(group);
    let views = runtime::workspace_views(world, kept);
    search::lemma_first_of_kept(world.workspaces@, p, r);
    search::lemma_first_where(kept, r);
    search::lemma_first_where(views, placement::is_free());
    assert forall|k: int| 0 <= k < kept.len() implies placement::is_free()(#[trigger] views[k])
        == r(kept[k]) by {}
    assert(search::first_where(views, placement::is_free()) == search::first_where(kept, r)) by {
        if let Some(k) = search::first_where(kept, r) {
            search::lemma_first_where_is(views, placement::is_free(), k);
        } else {
            assert forall|k: int| 0 <= k < views.len() implies !placement::is_free()(
                #[trigger] views[k],
            ) by {
                assert(!r(kept[k]));
            }
            search::lemma_first_where_none(views, placement::is_free());
        }
    }
    assert forall|w: int| #[trigger] terms::in_group_at(world, g, w) && !terms::has_window(
        world,
        world.workspaces@[w].handle,
    ) <==> 0 <= w < world.workspaces@.len() && p(world.workspaces@[w]) && r(world.workspaces@[w]) by {
        assert(terms::has_window(world, world.workspaces@[w].handle) == world.occupied(
            world.workspaces@[w].handle,
        ));
    }
    match search::first_where(kept, r) {
        Some(k) => {
            let s = world.workspaces@;
            let i = choose|i: int|
                #![trigger s[i]]
                0 <= i < s.len() && s[i] == kept[k] && p(s[i]) && r(s[i]) && forall|j: int|
                    0 <= j < i ==> !(p(#[trigger] s[j]) && r(s[j]));
            assert(terms::in_group_at(world, g, i));
            assert forall|j: int|
                0 <= j < i && terms::in_group_at(world, g, j) implies terms::has_window(
                world,
                (#[trigger] world.workspaces@[j]).handle,
            ) by {
                assert(!(p(s[j]) && r(s[j])));
            }
            assert(terms::first_empty_in(world, g, i));
            assert(views[k].id == terms::number(s[i].handle));
        },
        None => {
            assert forall|w: int| !(#[trigger] terms::first_empty_in(world, g, w)) by {
                if terms::first_empty_in(world, g, w) {
                    assert(terms::in_group_at(world, g, w));
                }
            }
        },
    }
}

/// The group at place `g` has at most one first empty workspace.
proof fn lemma_first_empty_is_one(world: World, g: int, a: int, b: int)
    requires
        terms::first_empty_in(world, g, a),
        terms::first_empty_in(world, g, b),
    ensures
        a == b,
{
    if a < b {
        assert(terms::has_window(world, world.workspaces@[a].handle));
    }
    if b < a {
        assert(terms::has_window(world, world.workspaces@[b].handle));
    }
}

/// The group has room if one can be made or is empty.
proof fn lemma_room(a: Arrival, g: int)
    requires
        0 <= g < a.world.groups@.len(),
    ensures
        a.question().has_room_in(g) == (a.makes_workspace_in(g) || exists|w: int| #[trigger]
            terms::first_empty_in(a.world, g, w)),
{
    let q = a.question();
    lemma_question(a);
    lemma_first_free(a.world, g);
    search::lemma_first_where(q.groups[g].workspaces, placement::is_free());
    assert(q.groups[g] == runtime::group_view(a.world, a.world.groups@[g]));
    if exists|w: int| #[trigger] terms::first_empty_in(a.world, g, w) {
        let k = search::first_where(q.groups[g].workspaces, placement::is_free())->Some_0;
        assert(q.groups[g].workspaces[k].toplevel_ids.len() == 0);
    }
}

/// The warnings of the decision are given as they are due.
proof fn lemma_warnings(a: Arrival)
    ensures
        ({
            let warned = a.before.warn_all(a.question().answer().warns);
            &&& warned.effects == a.before.effects + a.warnings()
            &&& warned == (state::AppView {
                effects: warned.effects,
                warned_output_fallback: a.before.warned_output_fallback || a.falls_back(),
                warned_new_each: a.before.warned_new_each || a.is_unsupported(),
                ..a.before
            })
        }),
{
    let q = a.question();
    lemma_question(a);
    deciding::law_warnings_of_a_decision(q);
    let fell_back = a.falls_back();
    let unsupported = a.is_unsupported();
    assert(unsupported == (!q.is_settled_early() && q.config.workspace_mode
        == WorkspaceMode::NewEach && exists|g: int|
        #[trigger] q.belongs_to(g) && !q.groups[g].can_create_workspace)) by {
        if unsupported {
            let g = choose|g: int| #[trigger]
                a.belongs_to(g) && !terms::takes_new(a.world.groups@[g]);
            assert(q.belongs_to(g));
            assert(!q.groups[g].can_create_workspace);
        }
        if exists|g: int| #[trigger] q.belongs_to(g) && !q.groups[g].can_create_workspace {
            let g = choose|g: int| #[trigger]
                q.belongs_to(g) && !q.groups[g].can_create_workspace;
            assert(a.belongs_to(g));
        }
    }
    let first = seq![PlacementWarn::WorkspaceOutputFallback];
    let second = seq![PlacementWarn::NewEachUnsupported];
    let none = Seq::<PlacementWarn>::empty();
    reveal_with_fuel(state::AppView::warn_all, 3);
    assert(first.drop_last() =~= none);
    assert(second.drop_last() =~= none);
    assert((first + second).drop_last() =~= first);
    assert(first + none =~= first);
    assert(none + second =~= second);
    assert(none + none =~= none);
    let warned = a.before.warn_all(q.answer().warns);
    assert(warned.effects =~= a.before.effects + a.warnings());
}

// ---------------------------------------------------------------------------
// Laws
// ---------------------------------------------------------------------------

/// Why a new window is left alone: the first of these reasons that applies. It
/// was dealt with before, its application is excluded, its title is, it cannot
/// be moved, it is on no output, windows stay where they are; or it belongs to
/// no group, or the group that it belongs to has no room. Nothing is then
/// asked for but that warnings be given.
pub proof fn law_new_window_left_alone(a: Arrival)
    ensures
        ({
            let skips = |r: SkipReason| a.outcome() == Ok::<_, PlaceError>(
                PlaceOutcome::Skipped { reason: r },
            );
            let movable = a.window.cosmic_handle is Some;
            let on_output = a.window.outputs@.len() > 0;
            let stays = a.before.config.workspace_mode == WorkspaceMode::Same;
            &&& skips(SkipReason::AlreadyHandled) <==> a.is_known()
            &&& skips(SkipReason::ExcludedByAppId) <==> !a.is_known() && a.app_excluded()
            &&& skips(SkipReason::ExcludedByTitle) <==> !a.is_known() && !a.app_excluded()
                && a.title_excluded
            &&& skips(SkipReason::NoCosmicToplevel) <==> !a.is_known() && !a.app_excluded()
                && !a.title_excluded && !movable
            &&& skips(SkipReason::NoOutputs) <==> !a.is_known() && !a.app_excluded()
                && !a.title_excluded && movable && !on_output
            &&& skips(SkipReason::WorkspaceModeSame) <==> !a.is_known() && !a.app_excluded()
                && !a.title_excluded && movable && on_output && stays
            &&& skips(SkipReason::NoMatchingGroup) <==> !a.is_settled_early() && !exists|g: int|
                #[trigger] a.belongs_to(g) && (a.makes_workspace_in(g) || exists|w: int| #[trigger]
                    terms::first_empty_in(a.world, g, w))
        }),
        a.outcome() matches Ok(PlaceOutcome::Skipped { .. }) ==> a.after().effects
            == a.before.effects + a.warnings() && only_asks(a.before, a.after()),
        a.is_settled_early() ==> a.after() == a.before,
{
    let q = a.question();
    lemma_question(a);
    lemma_warnings(a);
    deciding::law_reason_to_leave_alone(q);
    assert forall|g: int| 0 <= g < a.world.groups@.len() implies #[trigger] q.has_room_in(g) == (
    a.makes_workspace_in(g) || exists|w: int| #[trigger]
        terms::first_empty_in(a.world, g, w)) by {
        lemma_room(a, g);
    }
    if exists|g: int|
        #[trigger] a.belongs_to(g) && (a.makes_workspace_in(g) || exists|w: int| #[trigger]
            terms::first_empty_in(a.world, g, w)) {
        let g = choose|g: int|
            #[trigger] a.belongs_to(g) && (a.makes_workspace_in(g) || exists|w: int| #[trigger]
                terms::first_empty_in(a.world, g, w));
        assert(q.belongs_to(g) && q.has_room_in(g));
    }
    if exists|g: int| #[trigger] q.belongs_to(g) && q.has_room_in(g) {
        let g = choose|g: int| #[trigger] q.belongs_to(g) && q.has_room_in(g);
        assert(a.belongs_to(g));
    }
    assert(a.window.app_id@ == q.info.app_id);
    if a.is_settled_early() {
        assert(a.warnings() =~= Seq::empty());
        assert(a.before.effects + a.warnings() =~= a.before.effects);
        assert(q.answer().warns.len() == 0);
    }
}

/// A new window is placed on the first empty workspace of the group that it
/// belongs to, unless one is made for it. What is asked for is, in this order:
/// the warnings that are due; the move of the window to that workspace, on the
/// window's first output; the switch to it, if and only if it is configured;
/// and the window maximized, if and only if that is configured. Without a
/// manager a switch that is configured fails, right after the move. Nothing
/// else of the state changes.
pub proof fn law_new_window_is_placed(a: Arrival, g: int, w: int)
    requires
        !a.is_settled_early(),
        a.belongs_to(g),
        !a.makes_workspace_in(g),
        terms::first_empty_in(a.world, g, w),
        laws::numbers_distinct(a.world),
    ensures
        ({
            let workspace = a.world.workspaces@[w].handle;
            let toplevel = a.window.cosmic_handle->Some_0;
            let output = a.window.outputs@[0];
            if a.post().switch_to && a.world.manager is None {
                &&& a.outcome() == Err::<PlaceOutcome, _>(PlaceError::ActivateUnavailable)
                &&& a.after().effects == a.before.effects + a.warnings() + seq![
                    effects::EffectView::MoveToWorkspace { toplevel, workspace, output },
                ]
                &&& only_asks(a.before, a.after())
            } else {
                &&& a.outcome() == Ok::<_, PlaceError>(PlaceOutcome::Placed { workspace })
                &&& a.after().effects == a.before.effects + a.warnings() + placing_requests(
                    a.before,
                    a.world.manager,
                    toplevel,
                    workspace,
                    output,
                    a.post(),
                )
                &&& only_places(a.before, a.after(), workspace, a.post().switch_to)
            }
        }),
{
    let q = a.question();
    let d = q.answer();
    lemma_question(a);
    lemma_room(a, g);
    lemma_warnings(a);
    lemma_first_free(a.world, g);
    assert(q.belongs_to(g));
    deciding::law_place_of_a_window(q, g);
    assert(q.groups[g] == runtime::group_view(a.world, a.world.groups@[g]));
    search::lemma_first_where(q.groups[g].workspaces, placement::is_free());
    let k = search::first_where(q.groups[g].workspaces, placement::is_free())->Some_0;
    let found = choose|x: int| #[trigger]
        terms::first_empty_in(a.world, g, x) && q.groups[g].workspaces[k].id == terms::number(
            a.world.workspaces@[x].handle,
        );
    lemma_first_empty_is_one(a.world, g, w, found);
    let workspace = a.world.workspaces@[w].handle;
    let toplevel = a.window.cosmic_handle->Some_0;
    let output = a.window.outputs@[0];
    let ws_id = terms::number(workspace);
    search::lemma_first_where(a.world.workspaces@, world::has_number(ws_id));
    assert(world::has_number(ws_id)(a.world.workspaces@[w]));
    let at = a.world.workspace_numbered(ws_id)->Some_0;
    if at < w {
        assert(ids::object_number(a.world.workspaces@[at].handle) != ids::object_number(
            a.world.workspaces@[w].handle,
        ));
    }
    assert(at == w);
    let warned = a.before.warn_all(d.warns);
    lemma_placing_requests(warned, a.world.manager, toplevel, workspace, output, a.post());
    assert(placing_requests(warned, a.world.manager, toplevel, workspace, output, a.post())
        == placing_requests(a.before, a.world.manager, toplevel, workspace, output, a.post()));
    if a.post().switch_to && a.world.manager is None {
        assert(a.after().effects =~= a.before.effects + a.warnings() + seq![
            effects::EffectView::MoveToWorkspace { toplevel, workspace, output },
        ]);
    }
}

/// Whether `name` is the one for a workspace that is made for the window: the
/// application's; or, where it has none, `auto-` and the digits of the
/// counter.
pub open spec fn is_name_for(name: Seq<char>, app_id: Seq<char>, counter: u64) -> bool {
    if app_id.len() > 0 {
        name == app_id
    } else {
        exists|digits: Seq<char>|
            name == "auto-"@ + digits && #[trigger] text::decimal_u64(digits) == Some(counter)
                && digits.len() > 0 && digits[0] != '+' && (digits.len() > 1 ==> digits[0] != '0')
    }
}

/// Where the mode asks for it and the group that a new window belongs to takes
/// new workspaces, one is requested in that group and committed, and the
/// window waits for it, with what follows the move as configured and with the
/// workspaces of the group as they are now. The counter goes up, and round,
/// where it was used. Without a manager the request fails. Nothing else of the
/// state changes.
pub proof fn law_workspace_is_made_for_a_window(a: Arrival, g: int)
    requires
        !a.is_settled_early(),
        a.belongs_to(g),
        a.makes_workspace_in(g),
    ensures
        a.after().counter == (if a.window.app_id@.len() > 0 {
            a.before.counter as int
        } else {
            (a.before.counter + 1) % 0x1_0000_0000_0000_0000
        }),
        match a.world.manager {
            None => {
                &&& a.outcome() == Err::<PlaceOutcome, _>(PlaceError::CreateUnavailable)
                &&& a.after().effects == a.before.effects + a.warnings()
                &&& only_asks(
                    a.before,
                    (state::AppView { counter: a.before.counter, ..a.after() }),
                )
            },
            Some(manager) => {
                &&& a.outcome() == Ok::<_, PlaceError>(PlaceOutcome::Queued)
                &&& exists|name: Seq<char>|
                    #[trigger] is_name_for(name, a.window.app_id@, a.before.counter)
                        && a.after().effects == a.before.effects + a.warnings() + seq![
                        effects::EffectView::CreateWorkspace {
                            group: a.world.groups@[g].handle,
                            name,
                        },
                        effects::EffectView::Commit { manager },
                    ]
                &&& a.after().pending.len() == a.before.pending.len() + 1
                &&& a.after().pending.drop_last() == a.before.pending
                &&& ({
                    let p = a.after().pending.last();
                    &&& Some(p.cosmic_toplevel) == a.window.cosmic_handle
                    &&& p.foreign_toplevel_id == a.window.handle
                    &&& p.group_handle == a.world.groups@[g].handle
                    &&& p.output == a.window.outputs@[0]
                    &&& p.post_place == a.post()
                    &&& p.app_id == a.window.app_id@
                    &&& p.cycles_waited == 0
                    &&& forall|key: ObjectKey| #[trigger]
                        p.before.contains(key) <==> exists|w: int|
                            terms::in_group_at(a.world, g, w) && (
                            #[trigger] a.world.workspaces@[w]).handle == key
                })
                &&& only_asks(
                    a.before,
                    (state::AppView {
                        counter: a.before.counter,
                        pending: a.before.pending,
                        ..a.after()
                    }),
                )
            },
        },
{
    let q = a.question();
    let d = q.answer();
    lemma_question(a);
    lemma_room(a, g);
    lemma_warnings(a);
    assert(q.belongs_to(g));
    deciding::law_place_of_a_window(q, g);
    let warned = a.before.warn_all(d.warns);
    let group = a.world.groups@[g];
    let name = runtime::workspace_name(a.window.app_id@, a.before.counter);
    if a.window.app_id@.len() == 0 {
        let digits = text::decimal_text(a.before.counter as nat);
        text::lemma_decimal_round_trip(a.before.counter);
        text::lemma_decimal_text_is_plain(a.before.counter as nat);
        assert(name == "auto-"@ + digits);
    }
    assert(is_name_for(name, a.window.app_id@, a.before.counter));
    if let Some(manager) = a.world.manager {
        let create = effects::EffectView::CreateWorkspace { group: group.handle, name };
        assert(a.after().effects =~= a.before.effects + a.warnings() + seq![
            create,
            effects::EffectView::Commit { manager },
        ]);
        assert(a.after().pending.drop_last() =~= a.before.pending);
        let p = a.after().pending.last();
        let kept = a.world.members(group);
        let keys = world::handles(kept);
        search::lemma_all_where(a.world.workspaces@, world::is_member(group));
        assert forall|key: ObjectKey| #[trigger] p.before.contains(key) <==> exists|w: int|
            terms::in_group_at(a.world, g, w) && (#[trigger] a.world.workspaces@[w]).handle
                == key by {
            if p.before.contains(key) {
                let i = choose|i: int| 0 <= i < keys.len() && keys[i] == key;
                assert(a.world.workspaces@.contains(kept[i]));
                let w = choose|w: int|
                    0 <= w < a.world.workspaces@.len() && a.world.workspaces@[w] == kept[i];
                assert(world::is_member(group)(kept[i]));
                assert(terms::in_group_at(a.world, g, w));
                assert(a.world.workspaces@[w].handle == key);
            }
            if exists|w: int|
                terms::in_group_at(a.world, g, w) && (#[trigger] a.world.workspaces@[w]).handle
                    == key {
                let w = choose|w: int|
                    terms::in_group_at(a.world, g, w) && (#[trigger] a.world.workspaces@[w]).handle
                        == key;
                assert(world::is_member(group)(a.world.workspaces@[w]));
                assert(kept.contains(a.world.workspaces@[w]));
                let i = choose|i: int| 0 <= i < kept.len() && kept[i] == a.world.workspaces@[w];
                assert(keys[i] == key);
            }
        }
    }
}

/// What is asked for of a window that was placed, item by item: it is moved to
/// that workspace, maximized if and only if that is configured, and the
/// workspace is switched to if and only if that is.
pub proof fn law_placed_window_is_maximized_and_switched_to(a: Arrival)
    requires
        laws::numbers_distinct(a.world),
    ensures
        a.outcome() matches Ok(PlaceOutcome::Placed { workspace }) ==> ({
            let asked = terms::added(a.before.effects, a.after().effects);
            let toplevel = a.window.cosmic_handle->Some_0;
            &&& a.window.cosmic_handle is Some
            &&& asked.contains(
                effects::EffectView::MoveToWorkspace {
                    toplevel,
                    workspace,
                    output: a.window.outputs@[0],
                },
            )
            &&& asked.contains(effects::EffectView::SetMaximized { toplevel })
                <==> a.before.config.maximize
            &&& asked.contains(effects::EffectView::Activate { workspace })
                <==> a.before.config.switch_to_workspace
            &&& forall|i: int|
                0 <= i < asked.len() && (#[trigger] asked[i]) is MoveToWorkspace ==> asked[i] == (
                effects::EffectView::MoveToWorkspace {
                    toplevel,
                    workspace,
                    output: a.window.outputs@[0],
                })
            &&& in_order(
                asked,
                effects::EffectView::MoveToWorkspace {
                    toplevel,
                    workspace,
                    output: a.window.outputs@[0],
                },
                workspace,
                a.world.manager,
            )
        }),
{
    if let Ok(PlaceOutcome::Placed { workspace }) = a.outcome() {
        let (g, w) = lemma_where_placed(a);
        law_new_window_is_placed(a, g, w);
        let toplevel = a.window.cosmic_handle->Some_0;
        let output = a.window.outputs@[0];
        let rest = placing_requests(
            a.before,
            a.world.manager,
            toplevel,
            workspace,
            output,
            a.post(),
        );
        let asked = terms::added(a.before.effects, a.after().effects);
        assert(asked =~= a.warnings() + rest);
        lemma_items_of_placing(
            a.warnings(),
            a.before,
            a.world.manager,
            toplevel,
            workspace,
            output,
            a.post(),
        );
    }
}

/// A window that was placed was placed on the first empty workspace of the
/// group that it belongs to.
proof fn lemma_where_placed(a: Arrival) -> (at: (int, int))
    requires
        a.outcome() is Ok,
        a.outcome()->Ok_0 is Placed,
    ensures
        !a.is_settled_early(),
        a.belongs_to(at.0),
        !a.makes_workspace_in(at.0),
        terms::first_empty_in(a.world, at.0, at.1),
{
    law_new_window_left_alone(a);
    assert(!a.is_settled_early()) by {
        lemma_question(a);
        deciding::law_reason_to_leave_alone(a.question());
    }
    let g = choose|g: int| #[trigger]
        a.belongs_to(g) && (a.makes_workspace_in(g) || exists|w: int| #[trigger]
            terms::first_empty_in(a.world, g, w));
    assert(a.belongs_to(g) && (a.makes_workspace_in(g) || exists|w: int| #[trigger]
        terms::first_empty_in(a.world, g, w))) by {
        lemma_placed_has_group(a);
    }
    if a.makes_workspace_in(g) {
        law_workspace_is_made_for_a_window(a, g);
    }
    (g, choose|w: int| #[trigger] terms::first_empty_in(a.world, g, w))
}

proof fn lemma_placed_has_group(a: Arrival)
    requires
        a.outcome() is Ok,
        a.outcome()->Ok_0 is Placed,
    ensures
        exists|g: int| #[trigger]
            a.belongs_to(g) && (a.makes_workspace_in(g) || exists|w: int| #[trigger]
                terms::first_empty_in(a.world, g, w)),
{
    let q = a.question();
    lemma_question(a);
    deciding::law_reason_to_leave_alone(q);
    let g = choose|g: int| #[trigger] q.belongs_to(g) && q.has_room_in(g);
    assert(q.belongs_to(g) && q.has_room_in(g));
    assert(a.belongs_to(g));
    lemma_room(a, g);
}

/// Whether, of the requests for one window that is placed, the move comes
/// first, any switch is to the workspace that it is moved to and committed to
/// the manager, and the window is maximized last.
pub open spec fn in_order(
    asked: Seq<effects::EffectView>,
    moved: effects::EffectView,
    workspace: ObjectKey,
    manager: Option<ObjectKey>,
) -> bool {
    &&& forall|i: int|
        0 <= i < asked.len() && ((#[trigger] asked[i]) is Activate || asked[i] is SetMaximized)
            ==> exists|j: int| 0 <= j < i && #[trigger] asked[j] == moved
    &&& forall|i: int|
        0 <= i < asked.len() && (#[trigger] asked[i]) is Activate ==> asked[i] == (
        effects::EffectView::Activate { workspace })
    &&& forall|i: int|
        0 <= i < asked.len() && (#[trigger] asked[i]) is Commit ==> manager == Some(
            asked[i]->Commit_manager,
        )
    &&& forall|i: int, k: int|
        0 <= i < asked.len() && 0 <= k < asked.len() && (#[trigger] asked[i]) is Activate && (
        #[trigger] asked[k]) is SetMaximized ==> i < k
}

pub(crate) proof fn lemma_items_of_placing(
    warnings: Seq<effects::EffectView>,
    v: state::AppView,
    manager: Option<ObjectKey>,
    toplevel: ObjectKey,
    workspace: ObjectKey,
    output: ObjectKey,
    post: PostPlaceActions,
)
    requires
        forall|i: int| 0 <= i < warnings.len() ==> (#[trigger] warnings[i]) is Warn,
    ensures
        ({
            let asked = warnings + placing_requests(v, manager, toplevel, workspace, output, post);
            let moved = effects::EffectView::MoveToWorkspace { toplevel, workspace, output };
            &&& asked.contains(moved)
            &&& asked.contains(effects::EffectView::SetMaximized { toplevel }) <==> post.maximize
            &&& asked.contains(effects::EffectView::Activate { workspace }) <==> post.switch_to
                && manager is Some
            &&& forall|i: int|
                0 <= i < asked.len() && (#[trigger] asked[i]) is MoveToWorkspace ==> asked[i]
                    == moved
            &&& forall|i: int|
                0 <= i < asked.len() && (#[trigger] asked[i]) is SetMaximized ==> asked[i] == (
                effects::EffectView::SetMaximized { toplevel })
            &&& in_order(asked, moved, workspace, manager)
        }),
{
    let rest = placing_requests(v, manager, toplevel, workspace, output, post);
    let asked = warnings + rest;
    let n = warnings.len() as int;
    let moved = effects::EffectView::MoveToWorkspace { toplevel, workspace, output };
    assert(rest[0] == moved);
    assert(asked[n] == moved);
    if post.switch_to && manager is Some {
        assert(rest[1] == (effects::EffectView::Activate { workspace }));
        assert(asked[n + 1] == rest[1]);
    }
    if post.maximize {
        assert(rest[rest.len() - 1] == (effects::EffectView::SetMaximized { toplevel }));
        assert(asked[asked.len() - 1] == rest[rest.len() - 1]);
    }
    assert forall|i: int| 0 <= i < rest.len() implies {
        &&& (#[trigger] rest[i]) is MoveToWorkspace ==> rest[i] == moved
        &&& rest[i] is SetMaximized ==> rest[i] == (effects::EffectView::SetMaximized {
            toplevel,
        }) && post.maximize
        &&& rest[i] is Activate ==> post.switch_to && manager is Some
    } by {}
    assert forall|i: int| 0 <= i < asked.len() implies #[trigger] asked[i] == (if i < n {
        warnings[i]
    } else {
        rest[i - n]
    }) by {}
    if asked.contains(effects::EffectView::SetMaximized { toplevel }) {
        let i = choose|i: int|
            0 <= i < asked.len() && asked[i] == (effects::EffectView::SetMaximized { toplevel });
        assert(asked[i] == rest[i - n]);
    }
    if asked.contains(effects::EffectView::Activate { workspace }) {
        let i = choose|i: int|
            0 <= i < asked.len() && asked[i] == (effects::EffectView::Activate { workspace });
        assert(asked[i] == rest[i - n]);
    }
    assert forall|i: int| 0 <= i < rest.len() && (#[trigger] rest[i]) is SetMaximized implies i
        == rest.len() - 1 by {}
    assert forall|i: int| 0 <= i < rest.len() && (#[trigger] rest[i]) is Activate implies i == 1
        && rest[i] == (effects::EffectView::Activate { workspace }) by {}
    assert forall|i: int| 0 <= i < rest.len() && (#[trigger] rest[i]) is Commit implies manager
        == Some(rest[i]->Commit_manager) by {}
    assert forall|i: int|
        0 <= i < asked.len() && ((#[trigger] asked[i]) is Activate || asked[i] is SetMaximized) implies exists|
        j: int,
    | 0 <= j < i && #[trigger] asked[j] == moved by {
        assert(i > n) by {
            if i == n {
                assert(asked[n] == moved);
            }
        }
        assert(asked[n] == moved);
    }
}

} // verus!
