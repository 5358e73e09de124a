//! What holds of the user interface at all times.

use crate::arith::{Arith, Op, ZERO};
use crate::single::{single, Single};
use crate::ui::mode::UiMode;
use crate::ui::pose::{gap_size, nearest_of, PoseGap};
use crate::ui::scene::{due, next_frame, SceneMessage, SceneView};
use crate::ui::tree::{
    active_of, groups_of, hidden_of, ids_of, no_groups, panes_of, Arrangement, Layout,
};
use crate::ui::update_mode::RenderUpdateMode;
use crate::ui::viewport::{same_state, RenderState};
use crate::ui::visibility::{
    all_judged, decided, judged, layered, lemma_active_is_child, lemma_no_active_tab, marked,
    ranked, shown_by,
};
use egui_tiles::Tiles;
use vstd::prelude::*;

verus! {

/// The key for the full screen, pressed twice, changes nothing.
pub proof fn law_toggle_is_undone(mode: UiMode)
    ensures
        mode.after_toggle().after_toggle() == mode,
{
}

/// In the default layout no container holds itself, however deep.
pub proof fn law_default_layout_is_layered(layout: Layout, taken: Set<u64>)
    requires
        layout.fresh(taken),
        taken.contains(layout.panes.scene),
        taken.contains(layout.panes.stats),
        taken.contains(layout.panes.dataset),
        taken.contains(layout.panes.training),
        taken.contains(layout.panes.settings),
        taken.contains(layout.panes.log),
    ensures
        layered(layout.groups(no_groups())),
{
    let rank = |id: u64|
        if id == layout.root {
            3nat
        } else if id == layout.sidebar {
            2
        } else if id == layout.bottom {
            1
        } else {
            0
        };
    let groups = layout.groups(no_groups());
    assert forall|id: u64, k: int|
        groups.contains_key(id) && 0 <= k < groups[id].1.len() implies rank(
        #[trigger] groups[id].1[k],
    ) < rank(id) by {
        assert(id == layout.root || id == layout.sidebar || id == layout.bottom);
    }
    assert(ranked(groups, rank));
}

/// Once visibility is brought up to date, a row, a column or a grid is hidden
/// exactly where all tiles in it are.
pub proof fn law_hidden_containers_show_nothing<P: Fn(u8) -> bool>(
    before: Tiles<u8>,
    after: Tiles<u8>,
    shown: P,
    seen: Map<u64, bool>,
    id: u64,
)
    requires
        all_judged(panes_of(before), groups_of(before), hidden_of(before), shown, seen),
        shown_by(before, after, seen),
        groups_of(before).contains_key(id),
        !panes_of(before).contains_key(id),
        groups_of(before)[id].0 != Arrangement::Tabs,
    ensures
        hidden_of(after).contains(id) <==> forall|k: int|
            0 <= k < groups_of(before)[id].1.len() && ids_of(before).contains(
                #[trigger] groups_of(before)[id].1[k],
            ) ==> hidden_of(after).contains(groups_of(before)[id].1[k]),
{
    let children = groups_of(before)[id].1;
    assert(ids_of(before).contains(id));
    assert(hidden_of(after).contains(id) <==> !seen[id]);
    assert(judged(panes_of(before), groups_of(before), hidden_of(before), shown, seen, id));
    assert(decided(children, seen, seen[id]));
    if seen[id] {
        let k = choose|k: int|
            0 <= k < children.len() && seen.contains_key(#[trigger] children[k])
                && seen[children[k]];
        assert(judged(panes_of(before), groups_of(before), hidden_of(before), shown, seen, children[k]));
        assert(ids_of(before).contains(children[k]));
        assert(!hidden_of(after).contains(children[k]));
    } else {
        assert forall|k: int|
            0 <= k < children.len() && ids_of(before).contains(
                #[trigger] children[k],
            ) implies hidden_of(after).contains(children[k]) by {
            assert(!seen[children[k]]);
        }
    }
}

/// Tabs that are not hidden hold a tile that is not hidden either. So tabs whose
/// tiles are all hidden are hidden themselves.
pub proof fn law_shown_tabs_show_something<P: Fn(u8) -> bool>(
    before: Tiles<u8>,
    after: Tiles<u8>,
    shown: P,
    seen: Map<u64, bool>,
    id: u64,
)
    requires
        all_judged(panes_of(before), groups_of(before), hidden_of(before), shown, seen),
        shown_by(before, after, seen),
        groups_of(before).contains_key(id),
        !panes_of(before).contains_key(id),
        groups_of(before)[id].0 == Arrangement::Tabs,
        !hidden_of(after).contains(id),
    ensures
        exists|k: int|
            0 <= k < groups_of(before)[id].1.len() && ids_of(before).contains(
                #[trigger] groups_of(before)[id].1[k],
            ) && !hidden_of(after).contains(groups_of(before)[id].1[k]),
{
    let group = groups_of(before)[id];
    assert(ids_of(before).contains(id));
    assert(judged(panes_of(before), groups_of(before), hidden_of(before), shown, seen, id));
    assert(seen[id]);
    let hidden = choose|hidden: Set<u64>| #[trigger]
        decided(active_of(group, hidden), seen, seen[id]) && marked(
            hidden_of(before),
            hidden,
            seen,
        );
    let active = active_of(group, hidden);
    let i = choose|i: int|
        0 <= i < active.len() && seen.contains_key(#[trigger] active[i]) && seen[active[i]];
    lemma_active_is_child(group, hidden, i);
    let k = group.1.index_of(active[i]);
    assert(group.1[k] == active[i]);
    assert(
        judged(panes_of(before), groups_of(before), hidden_of(before), shown, seen, active[i])
    );
    assert(ids_of(before).contains(group.1[k]));
}

/// Where an update changes no mark of the tiles in a container, whatever its
/// arrangement, the container is hidden exactly where all of them are.
pub proof fn law_settled_containers_show_nothing<P: Fn(u8) -> bool>(
    before: Tiles<u8>,
    after: Tiles<u8>,
    shown: P,
    seen: Map<u64, bool>,
    id: u64,
)
    requires
        all_judged(panes_of(before), groups_of(before), hidden_of(before), shown, seen),
        shown_by(before, after, seen),
        groups_of(before).contains_key(id),
        !panes_of(before).contains_key(id),
        forall|k: int|
            0 <= k < groups_of(before)[id].1.len() ==> ids_of(before).contains(
                #[trigger] groups_of(before)[id].1[k],
            ) && hidden_of(after).contains(groups_of(before)[id].1[k]) == hidden_of(
                before,
            ).contains(groups_of(before)[id].1[k]),
    ensures
        hidden_of(after).contains(id) <==> forall|k: int|
            0 <= k < groups_of(before)[id].1.len() ==> hidden_of(after).contains(
                #[trigger] groups_of(before)[id].1[k],
            ),
{
    let group = groups_of(before)[id];
    let children = group.1;
    assert(ids_of(before).contains(id));
    if group.0 != Arrangement::Tabs {
        law_hidden_containers_show_nothing(before, after, shown, seen, id);
    } else if !hidden_of(after).contains(id) {
        law_shown_tabs_show_something(before, after, shown, seen, id);
    } else {
        assert(judged(panes_of(before), groups_of(before), hidden_of(before), shown, seen, id));
        assert(!seen[id]);
        let hidden = choose|hidden: Set<u64>| #[trigger]
            decided(active_of(group, hidden), seen, seen[id]) && marked(
                hidden_of(before),
                hidden,
                seen,
            );
        let active = active_of(group, hidden);
        assert forall|k: int| 0 <= k < children.len() implies hidden.contains(
            #[trigger] children[k],
        ) == hidden_of(after).contains(children[k]) by {
            assert(seen[children[k]] == !hidden_of(after).contains(children[k]));
            if hidden.contains(children[k]) != hidden_of(before).contains(children[k]) {
                assert(seen[children[k]] == !hidden.contains(children[k]));
            }
        }
        lemma_no_active_tab(group, hidden);
        if active.len() > 0 {
            lemma_active_is_child(group, hidden, 0);
            let k = children.index_of(active[0]);
            assert(children[k] == active[0]);
            assert(!hidden.contains(active[0]));
            assert(!seen[active[0]]);
            assert(hidden_of(after).contains(children[k]));
        }
    }
}

/// A pane is hidden exactly where its panel has nothing to show.
pub proof fn law_panes_follow_their_panels<P: Fn(u8) -> bool>(
    before: Tiles<u8>,
    after: Tiles<u8>,
    shown: P,
    seen: Map<u64, bool>,
    id: u64,
)
    requires
        all_judged(panes_of(before), groups_of(before), hidden_of(before), shown, seen),
        shown_by(before, after, seen),
        panes_of(before).contains_key(id),
    ensures
        call_ensures(shown, (panes_of(before)[id],), !hidden_of(after).contains(id)),
{
    assert(ids_of(before).contains(id));
    assert(hidden_of(after).contains(id) <==> !seen[id]);
    assert(judged(panes_of(before), groups_of(before), hidden_of(before), shown, seen, id));
}

/// A new process leaves nothing of the scene before: telling of one twice is as
/// good as once.
pub proof fn law_new_process_forgets<D>(
    g: Arith,
    scene: SceneView<D>,
    message: SceneMessage<D>,
    training: bool,
    iter: u32,
)
    requires
        message is NewProcess,
    ensures
        scene.after(g, message, training, iter).after(g, message, training, iter) == scene.after(
            g,
            message,
            training,
            iter,
        ),
        !scene.after(g, message, training, iter).has_splats,
        scene.after(g, message, training, iter).warnings.len() == 0,
        scene.after(g, message, training, iter).err is None,
{
}

/// No more warnings are seen than there are, whatever the panel is told.
pub proof fn law_seen_warnings_exist<D>(
    g: Arith,
    scene: SceneView<D>,
    message: SceneMessage<D>,
    training: bool,
    iter: u32,
)
    requires
        scene.seen_warning_count <= scene.warnings.len(),
    ensures
        ({
            let after = scene.after(g, message, training, iter);
            after.seen_warning_count <= after.warnings.len()
        }),
        message is Warning ==> scene.after(g, message, training, iter).unseen() == scene.unseen()
            + 1,
{
}

/// While training, the viewport is not drawn again before an interval of
/// iterations has passed since it was last.
pub proof fn law_training_is_drawn_at_intervals(mode: RenderUpdateMode, iter: u32, later: u32)
    requires
        iter > 0,
        due(mode, iter, later),
    ensures
        mode.interval() matches Some(interval) && later >= iter + interval,
{
}

/// While training with drawing off, new splats are not drawn.
pub proof fn law_off_is_never_drawn<D>(
    g: Arith,
    scene: SceneView<D>,
    message: SceneMessage<D>,
    iter: u32,
)
    requires
        scene.render_update_mode == RenderUpdateMode::Off,
        !scene.splats_dirty,
    ensures
        !scene.after(g, message, true, iter).splats_dirty,
{
}

/// A sequence never plays beyond its last frame.
pub proof fn law_frames_stay_in_sequence(g: Arith, frame: Single, delta: Single, count: u32)
    requires
        single(ZERO).below(g(Op::FromInt(count as i64))),
    ensures
        !g(Op::FromInt(count as i64)).at_most(next_frame(g, frame, delta, count)),
{
}

/// No reference pose is nearer than the nearest.
pub proof fn law_nearest_pose_is_nearest(g: Arith, gaps: Seq<PoseGap>, n: int, k: int)
    requires
        0 <= k < n <= gaps.len(),
        forall|i: int| 0 <= i < n ==> !(#[trigger] gap_size(g, gaps[i])).nan(),
    ensures
        0 <= nearest_of(g, gaps, n) < n,
        gap_size(g, gaps[nearest_of(g, gaps, n)]).at_most(gap_size(g, gaps[k])),
    decreases n,
{
    assert(!gap_size(g, gaps[n - 1]).nan());
    assert(!gap_size(g, gaps[0]).nan());
    if n > 1 {
        if k < n - 1 {
            law_nearest_pose_is_nearest(g, gaps, n - 1, k);
        } else {
            law_nearest_pose_is_nearest(g, gaps, n - 1, 0);
        }
    }
}

/// What a picture depends on is the same as itself, unless a number in it is
/// none.
pub proof fn law_unchanged_view_is_the_same(state: RenderState)
    requires
        !state.background.x.nan(),
        !state.background.y.nan(),
        !state.background.z.nan(),
        state.splat_scale matches Some(scale) ==> !scale.nan(),
    ensures
        same_state(state, state),
{
}

} // verus!
