//! How the active workspaces are followed, stated over the groups and
//! workspaces of the snapshot.

use vstd::prelude::*;

use crate::ids::WorkspaceId;
use crate::laws;
use crate::laws::jumping;
use crate::laws::terms;
use crate::mru_jump;
use crate::search;
use crate::state;
use crate::world::{Workspace, WorkspaceGroup, World};

verus! {

// ---------------------------------------------------------------------------
// Remembering recent workspaces
// ---------------------------------------------------------------------------

/// The first `cap` of `s`.
pub open spec fn first_of(s: Seq<WorkspaceId>, cap: nat) -> Seq<WorkspaceId> {
    if s.len() <= cap {
        s
    } else {
        s.take(cap as int)
    }
}

/// A workspace that is visited and was not recent comes in front of all; one
/// that was recent is taken from its place to the front. Beyond the cap the
/// last are dropped.
pub proof fn law_visit_goes_to_front(
    a: Seq<WorkspaceId>,
    id: WorkspaceId,
    b: Seq<WorkspaceId>,
    cap: nat,
)
    requires
        !a.contains(id),
        !b.contains(id),
    ensures
        mru_jump::recorded(a + b, id, cap) == first_of(seq![id] + a + b, cap),
        mru_jump::recorded(a + seq![id] + b, id, cap) == first_of(seq![id] + a + b, cap),
{
    let p = mru_jump::other_than(id);
    assert forall|j: int| 0 <= j < a.len() implies p(#[trigger] a[j]) by {
        assert(a.contains(a[j]));
    }
    assert forall|j: int| 0 <= j < b.len() implies p(#[trigger] b[j]) by {
        assert(b.contains(b[j]));
    }
    search::lemma_all_where_all(a, p);
    search::lemma_all_where_all(b, p);
    search::lemma_all_where_concat(a, b, p);
    search::lemma_all_where_concat(a + seq![id], b, p);
    search::lemma_all_where_concat(a, seq![id], p);
    reveal_with_fuel(search::all_where, 2);
    assert(seq![id].drop_last() =~= Seq::empty());
    assert(search::all_where(seq![id], p) =~= Seq::empty());
    assert(search::all_where(a + seq![id] + b, p) =~= a + b);
    assert(seq![id] + (a + b) =~= seq![id] + a + b);
}

/// Visits add up: those of two lists in turn are those of the one after the
/// other.
pub proof fn law_visits_add_up(
    recent: Seq<WorkspaceId>,
    a: Seq<WorkspaceId>,
    b: Seq<WorkspaceId>,
    id: WorkspaceId,
    cap: nat,
)
    ensures
        mru_jump::recorded_all(recent, a + b, cap) == mru_jump::recorded_all(
            mru_jump::recorded_all(recent, a, cap),
            b,
            cap,
        ),
        mru_jump::recorded_all(recent, seq![id], cap) == mru_jump::recorded(recent, id, cap),
        mru_jump::recorded_all(recent, Seq::empty(), cap) == recent,
    decreases b.len(),
{
    reveal_with_fuel(mru_jump::recorded_all, 2);
    assert(seq![id].drop_last() =~= Seq::empty());
    if b.len() == 0 {
        assert(a + b =~= a);
    } else {
        law_visits_add_up(recent, a, b.drop_last(), id, cap);
        assert((a + b).drop_last() =~= a + b.drop_last());
    }
}

/// What is noticed of active workspaces adds up: that of two lists in turn is
/// that of the one after the other. Of one group, its workspace is noticed
/// exactly if it is not the last known one, and becomes the last known one;
/// all other groups keep theirs.
pub proof fn law_noticing_adds_up(
    known: Map<u64, WorkspaceId>,
    a: Seq<(u64, WorkspaceId)>,
    b: Seq<(u64, WorkspaceId)>,
    group: u64,
    workspace: WorkspaceId,
)
    ensures
        ({
            let first = mru_jump::transitions(known, a);
            let second = mru_jump::transitions(first.0, b);
            mru_jump::transitions(known, a + b) == (second.0, first.1 + second.1)
        }),
        mru_jump::transitions(known, Seq::empty()) == (known, Seq::<WorkspaceId>::empty()),
        ({
            let (after, noticed) = mru_jump::transitions(known, seq![(group, workspace)]);
            &&& after == known.insert(group, workspace)
            &&& noticed == (if known.contains_key(group) && known[group] == workspace {
                Seq::<WorkspaceId>::empty()
            } else {
                seq![workspace]
            })
        }),
    decreases b.len(),
{
    reveal_with_fuel(mru_jump::transitions, 2);
    let one = seq![(group, workspace)];
    assert(one.drop_last() =~= Seq::empty());
    if known.contains_key(group) && known[group] == workspace {
        assert(known.insert(group, workspace) =~= known);
    }
    assert(Seq::<WorkspaceId>::empty().push(workspace) =~= seq![workspace]);
    let first = mru_jump::transitions(known, a);
    let second = mru_jump::transitions(first.0, b);
    if b.len() == 0 {
        assert(a + b =~= a);
        assert(first.1 + second.1 =~= first.1);
    } else {
        law_noticing_adds_up(known, a, b.drop_last(), group, workspace);
        assert((a + b).drop_last() =~= a + b.drop_last());
        assert((a + b).last() == b.last());
        let before = mru_jump::transitions(first.0, b.drop_last());
        assert(first.1 + before.1.push(b.last().1) =~= (first.1 + before.1).push(b.last().1));
    }
}

/// The active workspaces of groups add up, group by group; that of one group
/// is the first of its workspaces that is active.
pub proof fn law_active_workspaces_add_up(
    a: Seq<WorkspaceGroup>,
    b: Seq<WorkspaceGroup>,
    group: WorkspaceGroup,
    workspaces: Seq<Workspace>,
)
    ensures
        mru_jump::active_pairs(a + b, workspaces) == mru_jump::active_pairs(a, workspaces)
            + mru_jump::active_pairs(b, workspaces),
        forall|w: int|
            0 <= w < workspaces.len() && group.workspaces@.contains(
                (#[trigger] workspaces[w]).handle,
            ) && terms::shown(workspaces[w]) && (forall|k: int|
                0 <= k < w && group.workspaces@.contains((#[trigger] workspaces[k]).handle)
                    ==> !terms::shown(workspaces[k])) ==> mru_jump::active_pairs(
                seq![group],
                workspaces,
            ) == seq![(terms::number(group.handle), terms::number(workspaces[w].handle))],
        (forall|k: int|
            0 <= k < workspaces.len() && group.workspaces@.contains(
                (#[trigger] workspaces[k]).handle,
            ) ==> !terms::shown(workspaces[k])) ==> mru_jump::active_pairs(seq![group], workspaces)
            == Seq::<(u64, WorkspaceId)>::empty(),
    decreases b.len(),
{
    reveal_with_fuel(mru_jump::active_pairs, 2);
    assert(seq![group].drop_last() =~= Seq::empty());
    let p = mru_jump::is_active_member(group);
    assert forall|w: int|
        0 <= w < workspaces.len() && group.workspaces@.contains((#[trigger] workspaces[w]).handle)
            && terms::shown(workspaces[w]) && (forall|k: int|
            0 <= k < w && group.workspaces@.contains((#[trigger] workspaces[k]).handle)
                ==> !terms::shown(workspaces[k])) implies mru_jump::active_pairs(
        seq![group],
        workspaces,
    ) == seq![(terms::number(group.handle), terms::number(workspaces[w].handle))] by {
        search::lemma_first_where_is(workspaces, p, w);
        assert(mru_jump::active_pairs(seq![group], workspaces) =~= seq![
            (terms::number(group.handle), terms::number(workspaces[w].handle)),
        ]);
    }
    search::lemma_first_where(workspaces, p);
    if forall|k: int|
        0 <= k < workspaces.len() && group.workspaces@.contains((#[trigger] workspaces[k]).handle)
            ==> !terms::shown(workspaces[k]) {
        if let Some(w) = search::first_where(workspaces, p) {
            assert(!terms::shown(workspaces[w]));
        }
    }
    if b.len() == 0 {
        assert(a + b =~= a);
        assert(mru_jump::active_pairs(a, workspaces) + mru_jump::active_pairs(b, workspaces)
            =~= mru_jump::active_pairs(a, workspaces));
    } else {
        law_active_workspaces_add_up(a, b.drop_last(), group, workspaces);
        assert((a + b).drop_last() =~= a + b.drop_last());
        assert((a + b).last() == b.last());
        assert(mru_jump::active_pairs(a + b, workspaces) =~= mru_jump::active_pairs(a, workspaces)
            + mru_jump::active_pairs(b, workspaces));
    }
}

// ---------------------------------------------------------------------------
// A batch of changes
// ---------------------------------------------------------------------------

/// Whether the workspace at place `w` is the first active one of the group at
/// place `g`.
pub open spec fn shows(world: World, g: int, w: int) -> bool {
    &&& terms::in_group_at(world, g, w)
    &&& terms::shown(world.workspaces@[w])
    &&& forall|k: int|
        0 <= k < w && #[trigger] terms::in_group_at(world, g, k) ==> !terms::shown(
            world.workspaces@[k],
        )
}

/// Whether that workspace is not the one last known of the group.
pub open spec fn became_active(
    known: Map<u64, WorkspaceId>,
    world: World,
    g: int,
    w: int,
) -> bool {
    let group = terms::number(world.groups@[g].handle);
    &&& shows(world, g, w)
    &&& !(known.contains_key(group) && known[group] == terms::number(world.workspaces@[w].handle))
}

/// Whether one of the first `n` groups, with the number `id`, has an active
/// workspace.
pub open spec fn shows_one(world: World, id: u64, n: int) -> bool {
    exists|g: int, w: int|
        g < n && #[trigger] shows(world, g, w) && terms::number(world.groups@[g].handle) == id
}

/// Whether the same is known of the group `id`.
pub open spec fn same_known(
    a: Map<u64, WorkspaceId>,
    b: Map<u64, WorkspaceId>,
    id: u64,
) -> bool {
    &&& a.contains_key(id) == b.contains_key(id)
    &&& a.contains_key(id) ==> a[id] == b[id]
}

/// What is known and what was noticed once the first `n` groups were seen.
spec fn seen(known: Map<u64, WorkspaceId>, world: World, n: int) -> (
    Map<u64, WorkspaceId>,
    Seq<WorkspaceId>,
) {
    mru_jump::transitions(
        known,
        mru_jump::active_pairs(world.groups@.take(n), world.workspaces@),
    )
}

spec fn seen_right(known: Map<u64, WorkspaceId>, world: World, n: int) -> bool {
    let (after, noticed) = seen(known, world, n);
    &&& forall|g: int, w: int|
        g < n && #[trigger] shows(world, g, w) ==> after.contains_key(
            terms::number(world.groups@[g].handle),
        ) && after[terms::number(world.groups@[g].handle)] == terms::number(
            world.workspaces@[w].handle,
        )
    &&& forall|id: u64| !shows_one(world, id, n) ==> #[trigger] same_known(known, after, id)
    &&& forall|g: int, w: int|
        g < n && #[trigger] became_active(known, world, g, w) ==> noticed.contains(
            terms::number(world.workspaces@[w].handle),
        )
    &&& forall|j: int|
        0 <= j < noticed.len() ==> exists|g: int, w: int|
            g < n && #[trigger] became_active(known, world, g, w) && terms::number(
                world.workspaces@[w].handle,
            ) == #[trigger] noticed[j]
    &&& noticed.len() <= n
    &&& noticed.len() > 0 ==> exists|g: int, w: int|
        g < n && #[trigger] became_active(known, world, g, w) && terms::number(
            world.workspaces@[w].handle,
        ) == noticed.last() && forall|h: int, x: int|
            g < h < n ==> !(#[trigger] became_active(known, world, h, x))
}

proof fn lemma_shows_once(world: World, g: int, w: int, x: int)
    requires
        shows(world, g, w),
        shows(world, g, x),
    ensures
        w == x,
{
    assert(terms::in_group_at(world, g, w) && terms::in_group_at(world, g, x));
}

proof fn lemma_seen(known: Map<u64, WorkspaceId>, world: World, n: int)
    requires
        0 <= n <= world.groups@.len(),
        jumping::groups_told_apart(world),
    ensures
        seen_right(known, world, n),
    decreases n,
{
    if n == 0 {
        assert(world.groups@.take(0) =~= Seq::empty());
    } else {
        lemma_seen(known, world, n - 1);
        let (before, noticed) = seen(known, world, n - 1);
        let (after, now) = seen(known, world, n);
        let group = world.groups@[n - 1];
        let id = terms::number(group.handle);
        let p = mru_jump::is_active_member(group);
        assert(world.groups@.take(n).drop_last() =~= world.groups@.take(n - 1));
        assert(world.groups@.take(n).last() == group);
        assert forall|g: int, w: int| g < n - 1 && #[trigger] shows(world, g, w) implies terms::number(
            world.groups@[g].handle,
        ) != id by {
            assert(terms::in_group_at(world, g, w));
            assert(terms::number(world.groups@[g].handle) != terms::number(
                world.groups@[n - 1].handle,
            ));
        }
        assert(same_known(known, before, id));
        search::lemma_first_where(world.workspaces@, p);
        match search::first_where(world.workspaces@, p) {
            Some(w) => {
                let workspace = terms::number(world.workspaces@[w].handle);
                let pairs = mru_jump::active_pairs(world.groups@.take(n - 1), world.workspaces@);
                assert(terms::in_group_at(world, n - 1, w));
                assert forall|k: int|
                    0 <= k < w && #[trigger] terms::in_group_at(world, n - 1, k) implies !terms::shown(
                    world.workspaces@[k],
                ) by {
                    assert(!p(world.workspaces@[k]));
                }
                assert(shows(world, n - 1, w));
                assert(pairs.push((id, workspace)).drop_last() =~= pairs);
                assert((after, now) == (if before.contains_key(id) && before[id] == workspace {
                    (before, noticed)
                } else {
                    (before.insert(id, workspace), noticed.push(workspace))
                }));
                assert forall|x: int| #[trigger] shows(world, n - 1, x) implies x == w by {
                    lemma_shows_once(world, n - 1, w, x);
                }
                lemma_seen_step(known, world, n, w);
            },
            None => {
                assert forall|x: int| !(#[trigger] shows(world, n - 1, x)) by {
                    if shows(world, n - 1, x) {
                        assert(terms::in_group_at(world, n - 1, x));
                        assert(!p(world.workspaces@[x]));
                    }
                }
                assert((after, now) == (before, noticed));
                lemma_seen_nothing(known, world, n);
            },
        }
    }
}

proof fn lemma_seen_nothing(known: Map<u64, WorkspaceId>, world: World, n: int)
    requires
        0 < n <= world.groups@.len(),
        seen_right(known, world, n - 1),
        seen(known, world, n) == seen(known, world, n - 1),
        forall|x: int| !(#[trigger] shows(world, n - 1, x)),
    ensures
        seen_right(known, world, n),
{
    let (after, noticed) = seen(known, world, n);
    assert forall|id: u64| !shows_one(world, id, n) implies #[trigger] same_known(
        known,
        after,
        id,
    ) by {
        if shows_one(world, id, n - 1) {
            let (g, w) = choose|g: int, w: int|
                g < n - 1 && #[trigger] shows(world, g, w) && terms::number(world.groups@[g].handle)
                    == id;
            assert(shows(world, g, w));
        }
    }
    assert forall|j: int| 0 <= j < noticed.len() implies exists|g: int, w: int|
        g < n && #[trigger] became_active(known, world, g, w) && terms::number(
            world.workspaces@[w].handle,
        ) == #[trigger] noticed[j] by {
        let (g, w) = choose|g: int, w: int|
            g < n - 1 && #[trigger] became_active(known, world, g, w) && terms::number(
                world.workspaces@[w].handle,
            ) == #[trigger] noticed[j];
        assert(became_active(known, world, g, w));
    }
    if noticed.len() > 0 {
        let (g, w) = choose|g: int, w: int|
            g < n - 1 && #[trigger] became_active(known, world, g, w) && terms::number(
                world.workspaces@[w].handle,
            ) == noticed.last() && forall|h: int, x: int|
                g < h < n - 1 ==> !(#[trigger] became_active(known, world, h, x));
        assert forall|h: int, x: int| g < h < n implies !(#[trigger] became_active(
            known,
            world,
            h,
            x,
        )) by {
            if h == n - 1 {
                assert(!shows(world, n - 1, x));
            }
        }
        assert(became_active(known, world, g, w));
    }
}

proof fn lemma_seen_step(known: Map<u64, WorkspaceId>, world: World, n: int, w: int)
    requires
        0 < n <= world.groups@.len(),
        jumping::groups_told_apart(world),
        seen_right(known, world, n - 1),
        shows(world, n - 1, w),
        forall|x: int| #[trigger] shows(world, n - 1, x) ==> x == w,
        ({
            let id = terms::number(world.groups@[n - 1].handle);
            let workspace = terms::number(world.workspaces@[w].handle);
            let (before, noticed) = seen(known, world, n - 1);
            &&& same_known(known, before, id)
            &&& seen(known, world, n) == (if before.contains_key(id) && before[id] == workspace {
                (before, noticed)
            } else {
                (before.insert(id, workspace), noticed.push(workspace))
            })
        }),
    ensures
        seen_right(known, world, n),
{
    let id = terms::number(world.groups@[n - 1].handle);
    let workspace = terms::number(world.workspaces@[w].handle);
    let (before, noticed) = seen(known, world, n - 1);
    let (after, now) = seen(known, world, n);
    assert(became_active(known, world, n - 1, w) == !(before.contains_key(id) && before[id]
        == workspace));
    assert forall|g: int, x: int| g < n && #[trigger] shows(world, g, x) implies after.contains_key(
        terms::number(world.groups@[g].handle),
    ) && after[terms::number(world.groups@[g].handle)] == terms::number(
        world.workspaces@[x].handle,
    ) by {
        assert(terms::in_group_at(world, g, x));
        if g < n - 1 {
            assert(terms::number(world.groups@[g].handle) != terms::number(
                world.groups@[n - 1].handle,
            ));
        }
    }
    assert forall|other: u64| !shows_one(world, other, n) implies #[trigger] same_known(
        known,
        after,
        other,
    ) by {
        assert(shows(world, n - 1, w));
        if shows_one(world, other, n - 1) {
            let (g, x) = choose|g: int, x: int|
                g < n - 1 && #[trigger] shows(world, g, x) && terms::number(world.groups@[g].handle)
                    == other;
            assert(shows(world, g, x));
        }
        assert(same_known(known, before, other));
    }
    assert forall|g: int, x: int|
        g < n && #[trigger] became_active(known, world, g, x) implies now.contains(
        terms::number(world.workspaces@[x].handle),
    ) by {
        let other = terms::number(world.workspaces@[x].handle);
        if g < n - 1 {
            assert(noticed.contains(other));
            let j = choose|j: int| 0 <= j < noticed.len() && noticed[j] == other;
            assert(now[j] == other);
        } else {
            assert(shows(world, n - 1, x));
            assert(now[now.len() - 1] == workspace);
        }
    }
    assert forall|j: int| 0 <= j < now.len() implies exists|g: int, x: int|
        g < n && #[trigger] became_active(known, world, g, x) && terms::number(
            world.workspaces@[x].handle,
        ) == #[trigger] now[j] by {
        if j < noticed.len() {
            let (g, x) = choose|g: int, x: int|
                g < n - 1 && #[trigger] became_active(known, world, g, x) && terms::number(
                    world.workspaces@[x].handle,
                ) == #[trigger] noticed[j];
            assert(became_active(known, world, g, x));
        } else {
            assert(became_active(known, world, n - 1, w));
        }
    }
    if now.len() > 0 {
        if became_active(known, world, n - 1, w) {
            assert(now.last() == workspace);
        } else {
            let (g, y) = choose|g: int, y: int|
                g < n - 1 && #[trigger] became_active(known, world, g, y) && terms::number(
                    world.workspaces@[y].handle,
                ) == noticed.last() && forall|h: int, x: int|
                    g < h < n - 1 ==> !(#[trigger] became_active(known, world, h, x));
            assert forall|h: int, x: int| g < h < n implies !(#[trigger] became_active(
                known,
                world,
                h,
                x,
            )) by {
                if h == n - 1 && became_active(known, world, h, x) {
                    assert(shows(world, n - 1, x));
                }
            }
            assert(became_active(known, world, g, y));
        }
    }
}

/// Where a workspace stands in the list once another was visited.
proof fn lemma_place_after_visit(
    recent: Seq<WorkspaceId>,
    i: int,
    id: WorkspaceId,
    cap: nat,
) -> (place: int)
    requires
        0 <= i < recent.len(),
        recent[i] != id,
        i + 1 < cap,
    ensures
        0 <= place <= i + 1,
        place < mru_jump::recorded(recent, id, cap).len(),
        mru_jump::recorded(recent, id, cap)[place] == recent[i],
{
    let p = mru_jump::other_than(id);
    let front = recent.take(i);
    assert(recent =~= recent.take(i + 1) + recent.skip(i + 1));
    assert(recent.take(i + 1).drop_last() =~= front);
    search::lemma_all_where_concat(recent.take(i + 1), recent.skip(i + 1), p);
    laws::lemma_all_where_len(front, p);
    let place = search::all_where(front, p).len() as int + 1;
    let all = seq![id] + search::all_where(recent, p);
    assert(all[place] == recent[i]);
    place
}

/// What was visited last of all is in front, and what was visited, with fewer
/// visits since than the cap, is in the list.
proof fn lemma_visited_is_recent(
    recent: Seq<WorkspaceId>,
    visited: Seq<WorkspaceId>,
    cap: nat,
    j: int,
) -> (place: int)
    requires
        0 <= j < visited.len(),
        visited.len() - j <= cap,
    ensures
        0 <= place < visited.len() - j,
        place < mru_jump::recorded_all(recent, visited, cap).len(),
        mru_jump::recorded_all(recent, visited, cap)[place] == visited[j],
    decreases visited.len(),
{
    let last = visited.last();
    let before = mru_jump::recorded_all(recent, visited.drop_last(), cap);
    let all = seq![last] + search::all_where(before, mru_jump::other_than(last));
    if visited[j] == last {
        assert(all[0] == last);
        0
    } else {
        let at = lemma_visited_is_recent(recent, visited.drop_last(), cap, j);
        lemma_place_after_visit(before, at, last, cap)
    }
}

proof fn lemma_recent_was_there(
    recent: Seq<WorkspaceId>,
    visited: Seq<WorkspaceId>,
    cap: nat,
    x: WorkspaceId,
)
    requires
        mru_jump::recorded_all(recent, visited, cap).contains(x),
    ensures
        recent.contains(x) || visited.contains(x),
    decreases visited.len(),
{
    if visited.len() > 0 {
        let last = visited.last();
        let before = mru_jump::recorded_all(recent, visited.drop_last(), cap);
        let rest = search::all_where(before, mru_jump::other_than(last));
        let all = seq![last] + rest;
        let after = mru_jump::recorded(before, last, cap);
        let i = choose|i: int| 0 <= i < after.len() && after[i] == x;
        assert(all[i] == x);
        if i == 0 {
            assert(visited[visited.len() - 1] == x);
        } else {
            assert(rest[i - 1] == x);
            assert(rest.contains(x));
            search::lemma_all_where(before, mru_jump::other_than(last));
            assert(before.contains(x));
            lemma_recent_was_there(recent, visited.drop_last(), cap, x);
            if visited.drop_last().contains(x) {
                let k = choose|k: int|
                    0 <= k < visited.drop_last().len() && visited.drop_last()[k] == x;
                assert(visited[k] == x);
            }
        }
    }
}

/// At most one of a list without repetitions is left out.
proof fn lemma_one_left_out(s: Seq<WorkspaceId>, id: WorkspaceId)
    requires
        s.no_duplicates(),
    ensures
        search::all_where(s, mru_jump::other_than(id)).len() >= s.len() - 1,
    decreases s.len(),
{
    if s.len() > 0 {
        let front = s.drop_last();
        let p = mru_jump::other_than(id);
        if s.last() == id {
            assert forall|j: int| 0 <= j < front.len() implies p(#[trigger] front[j]) by {
                assert(s[j] != s[s.len() - 1]);
            }
            search::lemma_all_where_all(front, p);
        } else {
            lemma_one_left_out(front, id);
        }
    }
}

proof fn lemma_recent_is_kept(
    recent: Seq<WorkspaceId>,
    visited: Seq<WorkspaceId>,
    cap: nat,
    x: WorkspaceId,
)
    requires
        recent.no_duplicates(),
        recent.len() <= cap,
        recent.contains(x),
    ensures
        ({
            let after = mru_jump::recorded_all(recent, visited, cap);
            after.contains(x) || after.len() == cap
        }),
    decreases visited.len(),
{
    if visited.len() > 0 {
        let last = visited.last();
        let p = mru_jump::other_than(last);
        let before = mru_jump::recorded_all(recent, visited.drop_last(), cap);
        let rest = search::all_where(before, p);
        let all = seq![last] + rest;
        mru_jump::law_recorded_all(recent, visited.drop_last(), cap);
        lemma_recent_is_kept(recent, visited.drop_last(), cap, x);
        lemma_one_left_out(before, last);
        let after = mru_jump::recorded(before, last, cap);
        if after.len() != cap {
            assert(after == all);
            if x == last {
                assert(after[0] == x);
            } else {
                search::lemma_all_where(before, p);
                let i = choose|i: int| 0 <= i < before.len() && before[i] == x;
                assert(p(before[i]));
                assert(rest.contains(x));
                let k = choose|k: int| 0 <= k < rest.len() && rest[k] == x;
                assert(after[k + 1] == x);
            }
        }
    }
}

/// The recent workspaces and the last known ones are those that following the
/// active workspaces left: confirming switches and placing windows changes
/// neither.
proof fn lemma_batch_follows(v: state::AppView, world: World)
    requires
        v.inv(),
    ensures
        v.batch_done(world).0.last_active == v.followed(world).last_active,
        v.batch_done(world).0.recent == v.followed(world).recent,
{
    let n = world.workspaces@.len() as int;
    let followed = v.followed(world);
    let confirmed = followed.confirmed_among(world, n);
    laws::lemma_confirmed_among_tokens(followed, world, n);
    laws::lemma_drained_carries_on(
        state::AppView { pending: Seq::empty(), ..confirmed },
        world,
        confirmed.pending,
    );
}

/// After a batch of changes, the last known workspace of each group that has an
/// active one is its first active one; all other last known ones stay.
pub proof fn law_last_active_is_first_active(v: state::AppView, world: World)
    requires
        v.inv(),
        v.config.jump_on_empty,
        jumping::groups_told_apart(world),
    ensures
        ({
            let after = v.batch_done(world).0.last_active;
            &&& forall|g: int, w: int| #[trigger]
                shows(world, g, w) ==> after.contains_key(terms::number(world.groups@[g].handle))
                    && after[terms::number(world.groups@[g].handle)] == terms::number(
                    world.workspaces@[w].handle,
                )
            &&& forall|id: u64|
                !shows_one(world, id, world.groups@.len() as int) ==> #[trigger] same_known(
                    v.last_active,
                    after,
                    id,
                )
        }),
{
    let n = world.groups@.len() as int;
    lemma_batch_follows(v, world);
    lemma_seen(v.last_active, world, n);
    assert(world.groups@.take(n) =~= world.groups@);
    let after = v.batch_done(world).0.last_active;
    assert forall|g: int, w: int| #[trigger] shows(world, g, w) implies after.contains_key(
        terms::number(world.groups@[g].handle),
    ) && after[terms::number(world.groups@[g].handle)] == terms::number(
        world.workspaces@[w].handle,
    ) by {
        assert(terms::in_group_at(world, g, w));
    }
}

/// After a batch of changes, the recent workspaces hold those that became
/// active, as long as no more groups than the list has room for did; the one
/// of the last such group is in front. Nothing else enters, what was recent
/// stays unless the list is full, and where nothing became active the list
/// stays.
pub proof fn law_what_became_active_is_recent(v: state::AppView, world: World)
    requires
        v.inv(),
        v.config.jump_on_empty,
        jumping::groups_told_apart(world),
    ensures
        ({
            let after = v.batch_done(world).0.recent;
            let known = v.last_active;
            &&& world.groups@.len() <= 16 ==> forall|g: int, w: int| #[trigger]
                became_active(known, world, g, w) ==> after.contains(
                    terms::number(world.workspaces@[w].handle),
                )
            &&& forall|g: int, w: int| #[trigger]
                became_active(known, world, g, w) && (forall|h: int, x: int|
                    g < h ==> !(#[trigger] became_active(known, world, h, x))) ==> after.len() > 0
                    && after[0] == terms::number(world.workspaces@[w].handle)
            &&& forall|x: WorkspaceId| #[trigger]
                after.contains(x) ==> v.recent.contains(x) || exists|g: int, w: int| #[trigger]
                    became_active(known, world, g, w) && terms::number(world.workspaces@[w].handle)
                        == x
            &&& forall|x: WorkspaceId| #[trigger]
                v.recent.contains(x) ==> after.contains(x) || after.len() == 16
            &&& (forall|g: int, w: int| !(#[trigger] became_active(known, world, g, w))) ==> after
                == v.recent
        }),
{
    let n = world.groups@.len() as int;
    let known = v.last_active;
    let noticed = seen(known, world, n).1;
    let after = v.batch_done(world).0.recent;
    lemma_batch_follows(v, world);
    lemma_seen(known, world, n);
    assert(world.groups@.take(n) =~= world.groups@);
    assert(after == mru_jump::recorded_all(v.recent, noticed, 16));
    assert forall|g: int, w: int| #[trigger] became_active(known, world, g, w) implies g < n by {
        assert(terms::in_group_at(world, g, w));
    }
    if n <= 16 {
        assert forall|g: int, w: int| #[trigger] became_active(known, world, g, w) implies after.contains(
            terms::number(world.workspaces@[w].handle),
        ) by {
            let x = terms::number(world.workspaces@[w].handle);
            assert(noticed.contains(x));
            let j = choose|j: int| 0 <= j < noticed.len() && noticed[j] == x;
            let place = lemma_visited_is_recent(v.recent, noticed, 16, j);
            assert(after[place] == x);
        }
    }
    assert forall|g: int, w: int| #[trigger]
        became_active(known, world, g, w) && (forall|h: int, x: int|
            g < h ==> !(#[trigger] became_active(known, world, h, x))) implies after.len() > 0
        && after[0] == terms::number(world.workspaces@[w].handle) by {
        assert(noticed.contains(terms::number(world.workspaces@[w].handle)));
        let (h, y) = choose|h: int, y: int|
            h < n && #[trigger] became_active(known, world, h, y) && terms::number(
                world.workspaces@[y].handle,
            ) == noticed.last() && forall|i: int, x: int|
                h < i < n ==> !(#[trigger] became_active(known, world, i, x));
        if h < g {
            assert(!became_active(known, world, g, w));
        }
        if g < h {
            assert(!became_active(known, world, h, y));
        }
        lemma_shows_once(world, g, w, y);
        let place = lemma_visited_is_recent(v.recent, noticed, 16, noticed.len() - 1);
    }
    assert forall|x: WorkspaceId| #[trigger] after.contains(x) implies v.recent.contains(x)
        || exists|g: int, w: int| #[trigger]
        became_active(known, world, g, w) && terms::number(world.workspaces@[w].handle) == x by {
        lemma_recent_was_there(v.recent, noticed, 16, x);
        if noticed.contains(x) {
            let j = choose|j: int| 0 <= j < noticed.len() && noticed[j] == x;
            let (g, w) = choose|g: int, w: int|
                g < n && #[trigger] became_active(known, world, g, w) && terms::number(
                    world.workspaces@[w].handle,
                ) == #[trigger] noticed[j];
            assert(became_active(known, world, g, w));
        }
    }
    assert forall|x: WorkspaceId| #[trigger] v.recent.contains(x) implies after.contains(x)
        || after.len() == 16 by {
        lemma_recent_is_kept(v.recent, noticed, 16, x);
    }
    if forall|g: int, w: int| !(#[trigger] became_active(known, world, g, w)) {
        if noticed.len() > 0 {
            assert(exists|g: int, w: int|
                g < n && #[trigger] became_active(known, world, g, w) && terms::number(
                    world.workspaces@[w].handle,
                ) == noticed.last());
        }
    }
}

} // verus!
