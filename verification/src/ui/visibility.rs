//! Which tiles are shown.

use crate::ui::tree::{
    active_children, active_of, children_of, first_shown, groups_of, hidden_of, ids_of, next_of, pane_tag,
    panes_of, set_visible, tile_ids, Arrangement,
};
use egui_tiles::Tiles;
use std::collections::HashMap;
use vstd::prelude::*;

verus! {

/// Every child has a lower rank than its container.
pub open spec fn ranked(
    groups: Map<u64, (Arrangement, Seq<u64>, Option<u64>)>,
    rank: spec_fn(u64) -> nat,
) -> bool {
    forall|id: u64, k: int|
        groups.contains_key(id) && 0 <= k < groups[id].1.len() ==> rank(
            #[trigger] groups[id].1[k],
        ) < rank(id)
}

/// No container holds itself, however deep.
pub open spec fn layered(groups: Map<u64, (Arrangement, Seq<u64>, Option<u64>)>) -> bool {
    exists|rank: spec_fn(u64) -> nat| #[trigger] ranked(groups, rank)
}

/// The verdict on a tile is right, given the verdicts on others: a pane is shown
/// if `shown` says so of its tag; a container is shown if one of its children
/// that take part is, and is not if none of those is; what is no tile is not.
/// Which child of tabs takes part depends on what was marked invisible when the
/// verdict fell: what was at first, `before`, but for what had been marked anew
/// by then.
pub open spec fn judged<P: Fn(u8) -> bool>(
    panes: Map<u64, u8>,
    groups: Map<u64, (Arrangement, Seq<u64>, Option<u64>)>,
    before: Set<u64>,
    shown: P,
    seen: Map<u64, bool>,
    id: u64,
) -> bool {
    if panes.contains_key(id) {
        call_ensures(shown, (panes[id],), seen[id])
    } else if groups.contains_key(id) {
        exists|hidden: Set<u64>| #[trigger]
            decided(active_of(groups[id], hidden), seen, seen[id]) && marked(before, hidden, seen)
    } else {
        !seen[id]
    }
}

/// `hidden` differs from `before` only in tiles that are marked by their verdict.
pub open spec fn marked(before: Set<u64>, hidden: Set<u64>, seen: Map<u64, bool>) -> bool {
    forall|k: u64| #[trigger]
        hidden.contains(k) != before.contains(k) ==> seen.contains_key(k) && seen[k]
            == !hidden.contains(k)
}

/// `verdict` is whether one of `children` is shown.
pub open spec fn decided(children: Seq<u64>, seen: Map<u64, bool>, verdict: bool) -> bool {
    if verdict {
        exists|k: int|
            0 <= k < children.len() && seen.contains_key(#[trigger] children[k])
                && seen[children[k]]
    } else {
        forall|k: int|
            0 <= k < children.len() ==> seen.contains_key(#[trigger] children[k])
                && !seen[children[k]]
    }
}

/// All verdicts are right.
pub open spec fn all_judged<P: Fn(u8) -> bool>(
    panes: Map<u64, u8>,
    groups: Map<u64, (Arrangement, Seq<u64>, Option<u64>)>,
    before: Set<u64>,
    shown: P,
    seen: Map<u64, bool>,
) -> bool {
    forall|id: u64| seen.contains_key(id) ==> #[trigger] judged(
        panes,
        groups,
        before,
        shown,
        seen,
        id,
    )
}

/// What is marked by its verdict stays so when more verdicts are added.
proof fn lemma_marked_grows(
    before: Set<u64>,
    hidden: Set<u64>,
    seen: Map<u64, bool>,
    more: Map<u64, bool>,
)
    requires
        marked(before, hidden, seen),
        seen.submap_of(more),
    ensures
        marked(before, hidden, more),
{
    assert forall|k: u64| #[trigger] hidden.contains(k) != before.contains(k) implies more.contains_key(
        k,
    ) && more[k] == !hidden.contains(k) by {
        assert(seen.dom().contains(k) && more.dom().contains(k));
    }
}

/// Verdicts stay right when more are added.
proof fn lemma_judged_grows<P: Fn(u8) -> bool>(
    panes: Map<u64, u8>,
    groups: Map<u64, (Arrangement, Seq<u64>, Option<u64>)>,
    before: Set<u64>,
    shown: P,
    seen: Map<u64, bool>,
    more: Map<u64, bool>,
)
    requires
        all_judged(panes, groups, before, shown, seen),
        seen.submap_of(more),
    ensures
        forall|id: u64|
            seen.contains_key(id) ==> #[trigger] judged(panes, groups, before, shown, more, id),
{
    assert forall|id: u64| seen.contains_key(id) implies #[trigger] judged(
        panes,
        groups,
        before,
        shown,
        more,
        id,
    ) by {
        assert(judged(panes, groups, before, shown, seen, id));
        assert(seen.dom().contains(id) && more.dom().contains(id));
        if !panes.contains_key(id) && groups.contains_key(id) {
            let hidden = choose|hidden: Set<u64>| #[trigger]
                decided(active_of(groups[id], hidden), seen, seen[id]) && marked(
                    before,
                    hidden,
                    seen,
                );
            lemma_marked_grows(before, hidden, seen, more);
            let children = active_of(groups[id], hidden);
            if seen[id] {
                let k = choose|k: int|
                    0 <= k < children.len() && seen.contains_key(#[trigger] children[k])
                        && seen[children[k]];
                assert(seen.dom().contains(children[k]) && more.dom().contains(children[k]));
                assert(more.contains_key(children[k]) && more[children[k]]);
            } else {
                assert forall|k: int| 0 <= k < children.len() implies more.contains_key(
                    #[trigger] children[k],
                ) && !more[children[k]] by {
                    assert(seen.dom().contains(children[k]) && more.dom().contains(children[k]));
                }
            }
            assert(decided(children, more, more[id]));
        }
    }
}

/// A child that takes part is a child.
pub proof fn lemma_active_is_child(
    group: (Arrangement, Seq<u64>, Option<u64>),
    hidden: Set<u64>,
    i: int,
)
    requires
        0 <= i < active_of(group, hidden).len(),
    ensures
        group.1.contains(active_of(group, hidden)[i]),
{
    lemma_first_shown_is_child(group.1, hidden);
}

proof fn lemma_first_shown_is_child(children: Seq<u64>, hidden: Set<u64>)
    ensures
        first_shown(children, hidden) matches Some(tab) ==> children.contains(tab),
    decreases children.len(),
{
    if children.len() > 0 && hidden.contains(children[0]) {
        lemma_first_shown_is_child(children.drop_first(), hidden);
        if let Some(tab) = first_shown(children.drop_first(), hidden) {
            let k = children.drop_first().index_of(tab);
            assert(children[k + 1] == tab);
        }
    }
}

/// The tab that takes part is not invisible; where none does, all are.
pub proof fn lemma_no_active_tab(
    group: (Arrangement, Seq<u64>, Option<u64>),
    hidden: Set<u64>,
)
    requires
        group.0 == Arrangement::Tabs,
    ensures
        active_of(group, hidden).len() > 0 ==> !hidden.contains(active_of(group, hidden)[0]),
        active_of(group, hidden).len() == 0 ==> forall|k: int|
            0 <= k < group.1.len() ==> hidden.contains(#[trigger] group.1[k]),
{
    lemma_first_shown_is_visible(group.1, hidden);
}

proof fn lemma_first_shown_is_visible(children: Seq<u64>, hidden: Set<u64>)
    ensures
        match first_shown(children, hidden) {
            Some(tab) => !hidden.contains(tab),
            None => forall|k: int|
                0 <= k < children.len() ==> hidden.contains(#[trigger] children[k]),
        },
    decreases children.len(),
{
    if children.len() > 0 && hidden.contains(children[0]) {
        lemma_first_shown_is_visible(children.drop_first(), hidden);
        if first_shown(children.drop_first(), hidden) is None {
            assert forall|k: int| 0 <= k < children.len() implies hidden.contains(
                #[trigger] children[k],
            ) by {
                if k > 0 {
                    assert(children.drop_first()[k - 1] == children[k]);
                }
            }
        }
    }
}

/// Whether a tile is shown, with what is known of others.
fn is_visible<P: Fn(u8) -> bool>(
    id: u64,
    tiles: &Tiles<u8>,
    shown: &P,
    cache: &mut HashMap<u64, bool>,
    Ghost(rank): Ghost<spec_fn(u64) -> nat>,
    Ghost(first): Ghost<Set<u64>>,
) -> (r: bool)
    requires
        ranked(groups_of(*tiles), rank),
        forall|tag: u8| #[trigger] call_requires(*shown, (tag,)),
        all_judged(panes_of(*tiles), groups_of(*tiles), first, *shown, old(cache)@),
        marked(first, hidden_of(*tiles), old(cache)@),
    ensures
        all_judged(panes_of(*tiles), groups_of(*tiles), first, *shown, final(cache)@),
        marked(first, hidden_of(*tiles), final(cache)@),
        old(cache)@.submap_of(final(cache)@),
        final(cache)@.contains_pair(id, r),
        forall|other: u64|
            final(cache)@.contains_key(other) && !old(cache)@.contains_key(other) ==> rank(
                other,
            ) <= rank(id),
    decreases rank(id),
{
    broadcast use vstd::std_specs::hash::group_hash_axioms;

    let ghost panes = panes_of(*tiles);
    let ghost groups = groups_of(*tiles);
    let ghost start = cache@;
    match cache.get(&id) {
        Some(known) => {
            return *known;
        },
        None => {},
    }
    let verdict: bool = match pane_tag(tiles, id) {
        Some(tag) => shown(tag),
        None => match active_children(tiles, id) {
            Some(children) => {
                let mut found: bool = false;
                let mut i: usize = 0;
                while i < children.len() && !found
                    invariant
                        i <= children@.len(),
                        groups == groups_of(*tiles),
                        panes == panes_of(*tiles),
                        groups.contains_key(id),
                        children@ == active_of(groups[id], hidden_of(*tiles)),
                        ranked(groups, rank),
                        forall|tag: u8| #[trigger] call_requires(*shown, (tag,)),
                        all_judged(panes, groups, first, *shown, cache@),
                        marked(first, hidden_of(*tiles), cache@),
                        start.submap_of(cache@),
                        forall|other: u64|
                            cache@.contains_key(other) && !start.contains_key(other) ==> rank(other)
                                < rank(id),
                        forall|k: int|
                            0 <= k < i && !(found && k == i - 1) ==> cache@.contains_pair(
                                #[trigger] children@[k],
                                false,
                            ),
                        found ==> i > 0 && cache@.contains_pair(children@[i - 1], true),
                    decreases children@.len() - i,
                {
                    let ghost before = cache@;
                    proof {
                        lemma_active_is_child(groups[id], hidden_of(*tiles), i as int);
                        let k = groups[id].1.index_of(children@[i as int]);
                        assert(groups[id].1[k] == children@[i as int]);
                    }
                    found = is_visible(
                        children[i],
                        tiles,
                        shown,
                        cache,
                        Ghost(rank),
                        Ghost(first),
                    );
                    proof {
                        vstd::map_lib::lemma_submap_of_trans(start, before, cache@);
                    }
                    assert forall|k: int| 0 <= k < i implies cache@.contains_pair(
                        #[trigger] children@[k],
                        false,
                    ) by {
                        assert(before.contains_pair(children@[k], false));
                        assert(before.dom().contains(children@[k]));
                    }
                    i = i + 1;
                }
                proof {
                    assert(decided(children@, cache@, found)) by {
                        if found {
                            assert(cache@.contains_key(children@[i - 1]));
                        } else {
                            assert forall|k: int| 0 <= k < children@.len() implies cache@.contains_key(
                            #[trigger] children@[k]) && !cache@[children@[k]] by {
                                assert(cache@.contains_pair(children@[k], false));
                            }
                        }
                    }
                }
                found
            },
            None => false,
        },
    };
    let ghost before = cache@;
    assert(!before.contains_key(id));
    cache.insert(id, verdict);
    proof {
        assert(before.submap_of(cache@));
        lemma_judged_grows(panes, groups, first, *shown, before, cache@);
        lemma_marked_grows(first, hidden_of(*tiles), before, cache@);
        assert(judged(panes, groups, first, *shown, cache@, id)) by {
            if !panes.contains_key(id) && groups.contains_key(id) {
                let children = active_of(groups[id], hidden_of(*tiles));
                assert(decided(children, before, verdict));
                if verdict {
                    let k = choose|k: int|
                        0 <= k < children.len() && before.contains_key(#[trigger] children[k])
                            && before[children[k]];
                    assert(cache@.contains_key(children[k]) && cache@[children[k]]);
                } else {
                    assert forall|k: int| 0 <= k < children.len() implies cache@.contains_key(
                        #[trigger] children[k],
                    ) && !cache@[children[k]] by {
                        assert(before.contains_key(children[k]));
                    }
                }
                assert(decided(children, cache@, cache@[id]));
            }
        }
    }
    verdict
}

/// The tiles `after` differ from `before` only in what is marked invisible: each
/// tile by its verdict.
pub open spec fn shown_by(before: Tiles<u8>, after: Tiles<u8>, seen: Map<u64, bool>) -> bool {
    &&& panes_of(after) == panes_of(before)
    &&& groups_of(after) == groups_of(before)
    &&& next_of(after) == next_of(before)
    &&& forall|id: u64|
        ids_of(before).contains(id) ==> seen.contains_key(id) && (#[trigger] hidden_of(
            after,
        ).contains(id) <==> !seen[id])
    &&& forall|id: u64|
        !ids_of(before).contains(id) ==> (#[trigger] hidden_of(after).contains(id)
            <==> hidden_of(before).contains(id))
}

/// Mark each tile visible or invisible by whether there is something to show in
/// it. `shown` says whether the panel with a tag has something to show.
pub fn update_visibility<P: Fn(u8) -> bool>(tiles: &mut Tiles<u8>, shown: &P)
    requires
        layered(groups_of(*old(tiles))),
        forall|tag: u8| #[trigger] call_requires(*shown, (tag,)),
    ensures
        exists|seen: Map<u64, bool>|
            all_judged(
                panes_of(*old(tiles)),
                groups_of(*old(tiles)),
                hidden_of(*old(tiles)),
                *shown,
                seen,
            ) && #[trigger] shown_by(*old(tiles), *final(tiles), seen),
{
    broadcast use vstd::std_specs::hash::group_hash_axioms;

    let ghost before = *tiles;
    let ghost rank = choose|rank: spec_fn(u64) -> nat| #[trigger] ranked(groups_of(before), rank);
    let ids: Vec<u64> = tile_ids(tiles);
    let mut cache: HashMap<u64, bool> = HashMap::new();
    let mut i: usize = 0;
    while i < ids.len()
        invariant
            i <= ids@.len(),
            ids@.no_duplicates(),
            ids@.to_set() == ids_of(before),
            ranked(groups_of(before), rank),
            forall|tag: u8| #[trigger] call_requires(*shown, (tag,)),
            panes_of(*tiles) == panes_of(before),
            groups_of(*tiles) == groups_of(before),
            next_of(*tiles) == next_of(before),
            all_judged(panes_of(before), groups_of(before), hidden_of(before), *shown, cache@),
            marked(hidden_of(before), hidden_of(*tiles), cache@),
            forall|k: int|
                0 <= k < i ==> cache@.contains_pair(
                    #[trigger] ids@[k],
                    !hidden_of(*tiles).contains(ids@[k]),
                ),
            forall|id: u64|
                !ids_of(before).contains(id) ==> (#[trigger] hidden_of(*tiles).contains(id)
                    <==> hidden_of(before).contains(id)),
        decreases ids@.len() - i,
    {
        let ghost known = cache@;
        let ghost id = ids@[i as int];
        assert(ids_of(before).contains(id)) by {
            assert(ids@.to_set().contains(id));
        }
        let visible: bool = is_visible(
            ids[i],
            tiles,
            shown,
            &mut cache,
            Ghost(rank),
            Ghost(hidden_of(before)),
        );
        set_visible(tiles, ids[i], visible);
        assert forall|k: int| 0 <= k < i implies cache@.contains_pair(
            #[trigger] ids@[k],
            !hidden_of(*tiles).contains(ids@[k]),
        ) by {
            assert(known.contains_key(ids@[k]));
            assert(ids@[k] != id);
        }
        i = i + 1;
    }
    proof {
        assert forall|id: u64| ids_of(before).contains(id) implies cache@.contains_key(id) && (
        #[trigger] hidden_of(*tiles).contains(id) <==> !cache@[id]) by {
            assert(ids@.to_set().contains(id));
            let k = ids@.index_of(id);
            assert(cache@.contains_pair(ids@[k], !hidden_of(*tiles).contains(ids@[k])));
        }
        assert(shown_by(before, *tiles, cache@));
    }
}

fn holds(list: &Vec<u64>, item: u64) -> (r: bool)
    ensures
        r == list@.contains(item),
{
    let mut i: usize = 0;
    while i < list.len()
        invariant
            i <= list@.len(),
            forall|k: int| 0 <= k < i ==> list@[k] != item,
        decreases list@.len() - i,
    {
        if list[i] == item {
            return true;
        }
        i = i + 1;
    }
    false
}

/// A child that need not be looked into any more: one that is settled, or is no
/// tile.
spec fn ready(ids: Seq<u64>, settled: Seq<u64>, child: u64) -> bool {
    settled.contains(child) || !ids.contains(child)
}

/// All children of a tile are ready.
spec fn all_ready(
    groups: Map<u64, (Arrangement, Seq<u64>, Option<u64>)>,
    ids: Seq<u64>,
    settled: Seq<u64>,
    id: u64,
) -> bool {
    groups.contains_key(id) ==> forall|k: int|
        0 <= k < groups[id].1.len() ==> ready(ids, settled, #[trigger] groups[id].1[k])
}

fn settles(tiles: &Tiles<u8>, ids: &Vec<u64>, settled: &Vec<u64>, id: u64) -> (r: bool)
    ensures
        r == all_ready(groups_of(*tiles), ids@, settled@, id),
{
    match children_of(tiles, id) {
        Some(children) => {
            let mut i: usize = 0;
            while i < children.len()
                invariant
                    i <= children@.len(),
                    groups_of(*tiles).contains_key(id),
                    children@ == groups_of(*tiles)[id].1,
                    forall|k: int|
                        0 <= k < i ==> ready(ids@, settled@, #[trigger] groups_of(*tiles)[id].1[k]),
                decreases children@.len() - i,
            {
                if !holds(settled, children[i]) && holds(ids, children[i]) {
                    assert(!ready(ids@, settled@, groups_of(*tiles)[id].1[i as int]));
                    return false;
                }
                i = i + 1;
            }
            true
        },
        None => true,
    }
}

/// Where all containers have ranks, no tile waits for ever.
proof fn lemma_none_waits(
    groups: Map<u64, (Arrangement, Seq<u64>, Option<u64>)>,
    ids: Seq<u64>,
    settled: Seq<u64>,
    rank: spec_fn(u64) -> nat,
    id: u64,
)
    requires
        ranked(groups, rank),
        forall|k: int|
            0 <= k < ids.len() && !settled.contains(#[trigger] ids[k]) ==> !all_ready(
                groups,
                ids,
                settled,
                ids[k],
            ),
        ids.contains(id),
    ensures
        settled.contains(id),
    decreases rank(id),
{
    if !settled.contains(id) {
        let at = ids.index_of(id);
        assert(!settled.contains(ids[at]));
        assert(!all_ready(groups, ids, settled, id));
        let k = choose|k: int|
            0 <= k < groups[id].1.len() && !ready(ids, settled, #[trigger] groups[id].1[k]);
        lemma_none_waits(groups, ids, settled, rank, groups[id].1[k]);
    }
}

/// Whether no container holds itself, however deep.
pub fn is_layered(tiles: &Tiles<u8>) -> (r: bool)
    ensures
        r == layered(groups_of(*tiles)),
{
    let ghost groups = groups_of(*tiles);
    let ids: Vec<u64> = tile_ids(tiles);
    let mut settled: Vec<u64> = Vec::new();
    let mut progress: bool = true;
    while progress
        invariant
            groups == groups_of(*tiles),
            ids@.no_duplicates(),
            ids@.to_set() == ids_of(*tiles),
            settled@.no_duplicates(),
            forall|j: int| 0 <= j < settled@.len() ==> ids@.contains(#[trigger] settled@[j]),
            forall|j: int|
                0 <= j < settled@.len() ==> all_ready(
                    groups,
                    ids@,
                    settled@.take(j),
                    #[trigger] settled@[j],
                ),
            !progress ==> forall|k: int|
                0 <= k < ids@.len() && !settled@.contains(#[trigger] ids@[k]) ==> !all_ready(
                    groups,
                    ids@,
                    settled@,
                    ids@[k],
                ),
        decreases ids@.len() - settled@.len(), if progress {
            1int
        } else {
            0
        },
    {
        progress = false;
        let ghost at_start = settled@.len();
        let mut i: usize = 0;
        while i < ids.len()
            invariant
                i <= ids@.len(),
                groups == groups_of(*tiles),
                ids@.no_duplicates(),
                settled@.no_duplicates(),
                at_start <= settled@.len(),
                progress == (at_start < settled@.len()),
                forall|j: int| 0 <= j < settled@.len() ==> ids@.contains(#[trigger] settled@[j]),
                forall|j: int|
                    0 <= j < settled@.len() ==> all_ready(
                        groups,
                        ids@,
                        settled@.take(j),
                        #[trigger] settled@[j],
                    ),
                !progress ==> forall|k: int|
                    0 <= k < i && !settled@.contains(#[trigger] ids@[k]) ==> !all_ready(
                        groups,
                        ids@,
                        settled@,
                        ids@[k],
                    ),
            decreases ids@.len() - i,
        {
            if !holds(&settled, ids[i]) && settles(tiles, &ids, &settled, ids[i]) {
                let ghost before = settled@;
                let ghost id = ids@[i as int];
                settled.push(ids[i]);
                progress = true;
                assert forall|j: int| 0 <= j < settled@.len() implies all_ready(
                    groups,
                    ids@,
                    settled@.take(j),
                    #[trigger] settled@[j],
                ) by {
                    if j < before.len() {
                        assert(settled@.take(j) =~= before.take(j));
                        assert(before[j] == settled@[j]);
                    } else {
                        assert(settled@.take(j) =~= before);
                    }
                }
            }
            i = i + 1;
        }
        proof {
            settled@.unique_seq_to_set();
            ids@.unique_seq_to_set();
            assert(settled@.to_set().subset_of(ids@.to_set())) by {
                assert forall|id: u64| settled@.to_set().contains(id) implies ids@.to_set().contains(
                    id,
                ) by {
                    let j = settled@.index_of(id);
                    assert(ids@.contains(settled@[j]));
                }
            }
            vstd::seq_lib::seq_to_set_is_finite(ids@);
            vstd::set_lib::lemma_len_subset(settled@.to_set(), ids@.to_set());
        }
    }
    let mut i: usize = 0;
    while i < ids.len()
        invariant
            i <= ids@.len(),
            groups == groups_of(*tiles),
            forall|k: int|
                0 <= k < ids@.len() && !settled@.contains(#[trigger] ids@[k]) ==> !all_ready(
                    groups,
                    ids@,
                    settled@,
                    ids@[k],
                ),
            forall|k: int| 0 <= k < i ==> settled@.contains(#[trigger] ids@[k]),
        decreases ids@.len() - i,
    {
        if !holds(&settled, ids[i]) {
            assert(!layered(groups)) by {
                if layered(groups) {
                    let rank = choose|rank: spec_fn(u64) -> nat| #[trigger] ranked(groups, rank);
                    lemma_none_waits(groups, ids@, settled@, rank, ids@[i as int]);
                }
            }
            return false;
        }
        i = i + 1;
    }
    proof {
        let rank = |id: u64|
            if settled@.contains(id) {
                (settled@.index_of(id) + 1) as nat
            } else {
                0nat
            };
        assert forall|id: u64, k: int|
            groups.contains_key(id) && 0 <= k < groups[id].1.len() implies rank(
            #[trigger] groups[id].1[k],
        ) < rank(id) by {
            assert(ids@.to_set().contains(id));
            assert(settled@.contains(ids@[ids@.index_of(id)]));
            let j = settled@.index_of(id);
            assert(all_ready(groups, ids@, settled@.take(j), settled@[j]));
            let child = groups[id].1[k];
            assert(ready(ids@, settled@.take(j), child));
            if settled@.contains(child) {
                assert(ids@.contains(settled@[settled@.index_of(child)]));
                let at = settled@.take(j).index_of(child);
                assert(settled@[at] == child);
            }
        }
        assert(ranked(groups, rank));
    }
    true
}

} // verus!
