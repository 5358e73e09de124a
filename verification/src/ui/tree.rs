//! The tree of tiles that the panels are laid out in.

use egui_tiles::{Linear, LinearDir, TileId, Tiles};
use vstd::prelude::*;

verus! {

/// The tiles of `egui_tiles`, each with its number. A pane is held by the tag
/// of its panel.
#[verifier::external_type_specification]
#[verifier::external_body]
#[verifier::reject_recursive_types(Pane)]
pub struct ExTiles<Pane>(Tiles<Pane>);

/// How a container lays out its children.
#[derive(Clone, Copy, Debug, PartialEq, Eq, Structural)]
pub enum Arrangement {
    Tabs,
    Horizontal,
    Vertical,
    Grid,
}

/// The panes among the tiles, by number, with their tags.
pub uninterp spec fn panes_of(tiles: Tiles<u8>) -> Map<u64, u8>;

/// The containers among the tiles, by number: how they lay out their children,
/// the children, and the tab that was opened last.
pub uninterp spec fn groups_of(tiles: Tiles<u8>) -> Map<
    u64,
    (Arrangement, Seq<u64>, Option<u64>),
>;

/// The numbers that are marked invisible.
pub uninterp spec fn hidden_of(tiles: Tiles<u8>) -> Set<u64>;

/// The number from which on a number for a new tile is looked for.
pub uninterp spec fn next_of(tiles: Tiles<u8>) -> u64;

/// No panes.
pub open spec fn no_panes() -> Map<u64, u8> {
    Map::empty()
}

/// No containers.
pub open spec fn no_groups() -> Map<u64, (Arrangement, Seq<u64>, Option<u64>)> {
    Map::empty()
}

/// The numbers of all tiles.
pub open spec fn ids_of(tiles: Tiles<u8>) -> Set<u64> {
    panes_of(tiles).dom().union(groups_of(tiles).dom())
}

/// The numbers from `from` on.
pub open spec fn numbered_from(ids: Set<u64>, from: int) -> Set<u64> {
    ids.filter(|id: u64| id >= from)
}

/// The tiles need at most this number more than there are numbers left free
/// below it: every new tile raises it by one.
pub open spec fn level(tiles: Tiles<u8>) -> int {
    next_of(tiles) + numbered_from(ids_of(tiles), next_of(tiles) as int).len()
}

/// There are numbers left for `n` new tiles.
pub open spec fn roomy(tiles: Tiles<u8>, n: int) -> bool {
    ids_of(tiles).finite() && level(tiles) + n <= u64::MAX
}

/// `id` is the number that a new tile gets: the first free one.
pub open spec fn first_free(tiles: Tiles<u8>, id: u64) -> bool {
    &&& next_of(tiles) <= id < u64::MAX
    &&& !ids_of(tiles).contains(id)
    &&& forall|k: u64| next_of(tiles) <= k < id ==> #[trigger] ids_of(tiles).contains(k)
}

/// The first child that is not marked invisible.
pub open spec fn first_shown(children: Seq<u64>, hidden: Set<u64>) -> Option<u64>
    decreases children.len(),
{
    if children.len() == 0 {
        None
    } else if !hidden.contains(children[0]) {
        Some(children[0])
    } else {
        first_shown(children.drop_first(), hidden)
    }
}

/// The tab that is shown: the one opened last, or else the first that can be.
pub open spec fn shown_tab(children: Seq<u64>, open: Option<u64>, hidden: Set<u64>) -> Option<
    u64,
> {
    match open {
        Some(tab) => if children.contains(tab) && !hidden.contains(tab) {
            Some(tab)
        } else {
            first_shown(children, hidden)
        },
        None => first_shown(children, hidden),
    }
}

/// The children that take part: of tabs only the one that is shown.
pub open spec fn active_of(
    group: (Arrangement, Seq<u64>, Option<u64>),
    hidden: Set<u64>,
) -> Seq<u64> {
    if group.0 == Arrangement::Tabs {
        match shown_tab(group.1, group.2, hidden) {
            Some(tab) => seq![tab],
            None => Seq::empty(),
        }
    } else {
        group.1
    }
}

/// No tiles, by `Tiles::default`: nothing is invisible, and the first tile gets
/// the number one.
#[verifier::external_body]
fn no_tiles() -> (r: Tiles<u8>)
    ensures
        panes_of(r) == no_panes(),
        groups_of(r) == no_groups(),
        hidden_of(r) == Set::<u64>::empty(),
        next_of(r) == 1,
{
    Tiles::default()
}

/// Add a pane, by `Tiles::insert_pane`. It gets the first free number; nothing
/// else changes.
#[verifier::external_body]
fn insert_pane(tiles: &mut Tiles<u8>, tag: u8) -> (r: u64)
    requires
        roomy(*old(tiles), 1),
    ensures
        first_free(*old(tiles), r),
        panes_of(*final(tiles)) == panes_of(*old(tiles)).insert(r, tag),
        groups_of(*final(tiles)) == groups_of(*old(tiles)),
        hidden_of(*final(tiles)) == hidden_of(*old(tiles)),
        next_of(*final(tiles)) == r + 1,
{
    tiles.insert_pane(tag).0
}

/// Add tabs, by `Tiles::insert_tab_tile`. The first child is opened. They get
/// the first free number; nothing else changes.
#[verifier::external_body]
fn insert_tabs(tiles: &mut Tiles<u8>, children: Vec<u64>) -> (r: u64)
    requires
        roomy(*old(tiles), 1),
    ensures
        first_free(*old(tiles), r),
        panes_of(*final(tiles)) == panes_of(*old(tiles)),
        groups_of(*final(tiles)) == groups_of(*old(tiles)).insert(
            r,
            (
                Arrangement::Tabs,
                children@,
                if children@.len() > 0 {
                    Some(children@[0])
                } else {
                    None
                },
            ),
        ),
        hidden_of(*final(tiles)) == hidden_of(*old(tiles)),
        next_of(*final(tiles)) == r + 1,
{
    tiles.insert_tab_tile(children.into_iter().map(TileId).collect()).0
}

/// Add a column or a row, by `Tiles::insert_container` with `Linear::new`. It
/// gets the first free number; nothing else changes.
#[verifier::external_body]
fn insert_linear(tiles: &mut Tiles<u8>, vertical: bool, children: Vec<u64>) -> (r: u64)
    requires
        roomy(*old(tiles), 1),
    ensures
        first_free(*old(tiles), r),
        panes_of(*final(tiles)) == panes_of(*old(tiles)),
        groups_of(*final(tiles)) == groups_of(*old(tiles)).insert(
            r,
            (
                if vertical {
                    Arrangement::Vertical
                } else {
                    Arrangement::Horizontal
                },
                children@,
                None,
            ),
        ),
        hidden_of(*final(tiles)) == hidden_of(*old(tiles)),
        next_of(*final(tiles)) == r + 1,
{
    let dir = if vertical { LinearDir::Vertical } else { LinearDir::Horizontal };
    let children = children.into_iter().map(TileId).collect();
    tiles.insert_container(Linear::new(dir, children)).0
}

/// Take a tile out, by `Tiles::remove`. What is marked invisible stays marked.
#[verifier::external_body]
fn remove_tile(tiles: &mut Tiles<u8>, id: u64)
    ensures
        panes_of(*final(tiles)) == panes_of(*old(tiles)).remove(id),
        groups_of(*final(tiles)) == groups_of(*old(tiles)).remove(id),
        hidden_of(*final(tiles)) == hidden_of(*old(tiles)),
        next_of(*final(tiles)) == next_of(*old(tiles)),
{
    tiles.remove(TileId(id));
}

/// The numbers of all tiles, by `Tiles::tile_ids`: each once, in any order. None
/// is both a pane and a container.
#[verifier::external_body]
pub(crate) fn tile_ids(tiles: &Tiles<u8>) -> (r: Vec<u64>)
    ensures
        r@.no_duplicates(),
        r@.to_set() == ids_of(*tiles),
        forall|k: int|
            0 <= k < r@.len() ==> !(panes_of(*tiles).contains_key(#[trigger] r@[k])
                && groups_of(*tiles).contains_key(r@[k])),
{
    tiles.tile_ids().map(|id| id.0).collect()
}

/// The tag of a pane, by `Tiles::get_pane`.
#[verifier::external_body]
pub(crate) fn pane_tag(tiles: &Tiles<u8>, id: u64) -> (r: Option<u8>)
    ensures
        match r {
            Some(tag) => panes_of(*tiles).contains_key(id) && panes_of(*tiles)[id] == tag,
            None => !panes_of(*tiles).contains_key(id),
        },
{
    tiles.get_pane(&TileId(id)).copied()
}

/// The children of a container, by `Tiles::get_container` and
/// `Container::children_vec`.
#[verifier::external_body]
pub(crate) fn children_of(tiles: &Tiles<u8>, id: u64) -> (r: Option<Vec<u64>>)
    ensures
        match r {
            Some(children) => groups_of(*tiles).contains_key(id) && groups_of(*tiles)[id].1
                == children@,
            None => !groups_of(*tiles).contains_key(id),
        },
{
    let container = tiles.get_container(TileId(id))?;
    Some(container.children_vec().into_iter().map(|child| child.0).collect())
}

/// The children of a container that take part, by `Tiles::get_container` and
/// `Container::active_children`.
#[verifier::external_body]
pub(crate) fn active_children(tiles: &Tiles<u8>, id: u64) -> (r: Option<Vec<u64>>)
    ensures
        match r {
            Some(children) => groups_of(*tiles).contains_key(id) && active_of(
                groups_of(*tiles)[id],
                hidden_of(*tiles),
            ) == children@,
            None => !groups_of(*tiles).contains_key(id),
        },
{
    let container = tiles.get_container(TileId(id))?;
    Some(container.active_children(tiles).map(|child| child.0).collect())
}

/// Mark a number visible or invisible, by `Tiles::set_visible`.
#[verifier::external_body]
pub(crate) fn set_visible(tiles: &mut Tiles<u8>, id: u64, visible: bool)
    ensures
        panes_of(*final(tiles)) == panes_of(*old(tiles)),
        groups_of(*final(tiles)) == groups_of(*old(tiles)),
        hidden_of(*final(tiles)) == if visible {
            hidden_of(*old(tiles)).remove(id)
        } else {
            hidden_of(*old(tiles)).insert(id)
        },
        next_of(*final(tiles)) == next_of(*old(tiles)),
{
    tiles.set_visible(TileId(id), visible)
}

/// The tags of the panels.
pub const SCENE_PANE: u8 = 0;

pub const STATS_PANE: u8 = 1;

pub const DATASET_PANE: u8 = 2;

pub const TRAINING_PANE: u8 = 3;

pub const SETTINGS_PANE: u8 = 4;

pub const LOG_PANE: u8 = 5;

/// The panes of the panels.
#[derive(Clone, Copy, Debug, PartialEq, Eq, Structural)]
pub struct PaneIds {
    pub scene: u64,
    pub stats: u64,
    pub dataset: u64,
    pub training: u64,
    pub settings: u64,
    pub log: u64,
}

/// How much of a container a child takes, in hundredths of the default share.
#[derive(Clone, Copy, Debug, PartialEq, Eq, Structural)]
pub struct Share {
    pub container: u64,
    pub child: u64,
    pub hundredths: u8,
}

/// The containers of the default layout.
#[derive(Clone, Copy, Debug, PartialEq, Eq, Structural)]
pub struct Layout {
    pub panes: PaneIds,
    /// The tabs below the sidebar.
    pub bottom: u64,
    pub sidebar: u64,
    pub root: u64,
}

impl PaneIds {
    /// Each is a pane with the tag of its panel.
    pub open spec fn tagged(self, panes: Map<u64, u8>) -> bool {
        &&& panes.contains_pair(self.scene, SCENE_PANE)
        &&& panes.contains_pair(self.stats, STATS_PANE)
        &&& panes.contains_pair(self.dataset, DATASET_PANE)
        &&& panes.contains_pair(self.training, TRAINING_PANE)
        &&& panes.contains_pair(self.settings, SETTINGS_PANE)
        &&& panes.contains_pair(self.log, LOG_PANE)
    }
}

impl Layout {
    /// The containers of the default layout beside others: statistics, log and
    /// settings share tabs; they stand below training and data set in the
    /// sidebar, which stands beside the scene.
    pub open spec fn groups(self, others: Map<u64, (Arrangement, Seq<u64>, Option<u64>)>) -> Map<
        u64,
        (Arrangement, Seq<u64>, Option<u64>),
    > {
        let p = self.panes;
        others.insert(
            self.bottom,
            (Arrangement::Tabs, seq![p.stats, p.log, p.settings], Some(p.stats)),
        ).insert(
            self.sidebar,
            (Arrangement::Vertical, seq![p.training, p.dataset, self.bottom], None),
        ).insert(self.root, (Arrangement::Horizontal, seq![p.scene, self.sidebar], None))
    }

    /// The containers have numbers of their own, as low as may be.
    pub open spec fn fresh(self, taken: Set<u64>) -> bool {
        &&& !taken.contains(self.bottom)
        &&& !taken.contains(self.sidebar)
        &&& !taken.contains(self.root)
        &&& self.bottom < self.sidebar < self.root
        &&& forall|k: u64|
            self.bottom < k < self.root && k != self.sidebar ==> #[trigger] taken.contains(k)
    }

    /// The shares that differ from the default: the sidebar is split 12 to 53 to
    /// 35, and takes 35 hundredths beside the scene.
    pub fn shares(&self) -> (r: Vec<Share>)
        ensures
            r@ == seq![
                Share {
                    container: self.sidebar,
                    child: self.panes.training,
                    hundredths: 12,
                },
                Share { container: self.sidebar, child: self.panes.dataset, hundredths: 53 },
                Share { container: self.sidebar, child: self.bottom, hundredths: 35 },
                Share { container: self.root, child: self.sidebar, hundredths: 35 },
            ],
    {
        vec![
            Share { container: self.sidebar, child: self.panes.training, hundredths: 12 },
            Share { container: self.sidebar, child: self.panes.dataset, hundredths: 53 },
            Share { container: self.sidebar, child: self.bottom, hundredths: 35 },
            Share { container: self.root, child: self.sidebar, hundredths: 35 },
        ]
    }
}

/// A run of taken numbers counts for as many.
proof fn lemma_run(ids: Set<u64>, from: int, n: nat)
    requires
        ids.finite(),
        0 <= from,
        from + n <= u64::MAX,
        forall|k: u64| from <= k < from + n ==> #[trigger] ids.contains(k),
    ensures
        numbered_from(ids, from).finite(),
        numbered_from(ids, from).len() == n + numbered_from(ids, from + n).len(),
    decreases n,
{
    if n > 0 {
        lemma_run(ids, from + 1, (n - 1) as nat);
        let first = from as u64;
        assert(ids.contains(first));
        assert(numbered_from(ids, from) =~= numbered_from(ids, from + 1).insert(first));
    } else {
        ids.lemma_len_filter(|id: u64| id >= from);
    }
}

/// A new tile raises the level by one.
proof fn lemma_level(before: Tiles<u8>, after: Tiles<u8>, id: u64)
    requires
        ids_of(before).finite(),
        first_free(before, id),
        ids_of(after) == ids_of(before).insert(id),
        next_of(after) == id + 1,
    ensures
        ids_of(after).finite(),
        level(after) == level(before) + 1,
{
    lemma_run(ids_of(before), next_of(before) as int, (id - next_of(before)) as nat);
    assert(numbered_from(ids_of(after), id + 1) =~= numbered_from(ids_of(before), id as int));
}

/// Lay the panels out as they are at first, in containers of their own.
pub fn build_default_layout(tiles: &mut Tiles<u8>, panes: PaneIds) -> (r: Layout)
    requires
        roomy(*old(tiles), 3),
    ensures
        r.panes == panes,
        r.fresh(ids_of(*old(tiles))),
        first_free(*old(tiles), r.bottom),
        groups_of(*final(tiles)) == r.groups(groups_of(*old(tiles))),
        panes_of(*final(tiles)) == panes_of(*old(tiles)),
        hidden_of(*final(tiles)) == hidden_of(*old(tiles)),
        next_of(*final(tiles)) == r.root + 1,
        ids_of(*final(tiles)).finite(),
        level(*final(tiles)) == level(*old(tiles)) + 3,
{
    let ghost before = *tiles;
    let bottom: u64 = insert_tabs(tiles, vec![panes.stats, panes.log, panes.settings]);
    let ghost with_tabs = *tiles;
    proof {
        assert(ids_of(with_tabs) =~= ids_of(before).insert(bottom));
        lemma_level(before, with_tabs, bottom);
    }
    let sidebar: u64 = insert_linear(tiles, true, vec![panes.training, panes.dataset, bottom]);
    let ghost with_sidebar = *tiles;
    proof {
        assert(ids_of(with_sidebar) =~= ids_of(with_tabs).insert(sidebar));
        lemma_level(with_tabs, with_sidebar, sidebar);
    }
    let root: u64 = insert_linear(tiles, false, vec![panes.scene, sidebar]);
    proof {
        assert(ids_of(*tiles) =~= ids_of(with_sidebar).insert(root));
        lemma_level(with_sidebar, *tiles, root);
        assert forall|k: u64| bottom < k < root && k != sidebar implies #[trigger] ids_of(
            before,
        ).contains(k) by {
            if k < sidebar {
                assert(ids_of(with_tabs).contains(k));
            } else {
                assert(ids_of(with_sidebar).contains(k));
            }
        }
    }
    let layout: Layout = Layout { panes, bottom, sidebar, root };
    assert(groups_of(*tiles) =~= layout.groups(groups_of(before)));
    layout
}

/// The panes of a new tree, numbered from one.
pub open spec fn default_panes() -> PaneIds {
    PaneIds { scene: 1, stats: 2, dataset: 3, training: 4, settings: 5, log: 6 }
}

/// The containers of a new tree.
pub open spec fn default_layout() -> Layout {
    Layout { panes: default_panes(), bottom: 7, sidebar: 8, root: 9 }
}

/// A tree with all panels, laid out as they are at first.
pub fn create_default_tree() -> (r: (Tiles<u8>, Layout))
    ensures
        r.1 == default_layout(),
        panes_of(r.0) == map![
            1u64 => SCENE_PANE,
            2u64 => STATS_PANE,
            3u64 => DATASET_PANE,
            4u64 => TRAINING_PANE,
            5u64 => SETTINGS_PANE,
            6u64 => LOG_PANE,
        ],
        groups_of(r.0) == default_layout().groups(no_groups()),
        hidden_of(r.0) == Set::<u64>::empty(),
        next_of(r.0) == 10,
        ids_of(r.0).finite(),
        level(r.0) == 10,
{
    let mut tiles: Tiles<u8> = no_tiles();
    assert(ids_of(tiles) =~= Set::<u64>::empty());
    assert(numbered_from(ids_of(tiles), 1) =~= Set::<u64>::empty());
    let ghost t0 = tiles;
    let scene: u64 = insert_pane(&mut tiles, SCENE_PANE);
    let ghost t1 = tiles;
    proof {
        assert(ids_of(t1) =~= ids_of(t0).insert(scene));
        lemma_level(t0, t1, scene);
        assert(scene == 1) by {
            if scene > 1 {
                assert(ids_of(t0).contains(1));
            }
        }
    }
    let stats: u64 = insert_pane(&mut tiles, STATS_PANE);
    let ghost t2 = tiles;
    proof {
        assert(ids_of(t2) =~= ids_of(t1).insert(stats));
        lemma_level(t1, t2, stats);
        assert(stats == 2) by {
            if stats > 2 {
                assert(ids_of(t1).contains(2));
            }
        }
    }
    let dataset: u64 = insert_pane(&mut tiles, DATASET_PANE);
    let ghost t3 = tiles;
    proof {
        assert(ids_of(t3) =~= ids_of(t2).insert(dataset));
        lemma_level(t2, t3, dataset);
        assert(dataset == 3) by {
            if dataset > 3 {
                assert(ids_of(t2).contains(3));
            }
        }
    }
    let training: u64 = insert_pane(&mut tiles, TRAINING_PANE);
    let ghost t4 = tiles;
    proof {
        assert(ids_of(t4) =~= ids_of(t3).insert(training));
        lemma_level(t3, t4, training);
        assert(training == 4) by {
            if training > 4 {
                assert(ids_of(t3).contains(4));
            }
        }
    }
    let settings: u64 = insert_pane(&mut tiles, SETTINGS_PANE);
    let ghost t5 = tiles;
    proof {
        assert(ids_of(t5) =~= ids_of(t4).insert(settings));
        lemma_level(t4, t5, settings);
        assert(settings == 5) by {
            if settings > 5 {
                assert(ids_of(t4).contains(5));
            }
        }
    }
    let log: u64 = insert_pane(&mut tiles, LOG_PANE);
    let ghost t6 = tiles;
    proof {
        assert(ids_of(t6) =~= ids_of(t5).insert(log));
        lemma_level(t5, t6, log);
        assert(log == 6) by {
            if log > 6 {
                assert(ids_of(t5).contains(6));
            }
        }
    }
    let panes: PaneIds = PaneIds { scene, stats, dataset, training, settings, log };
    let layout: Layout = build_default_layout(&mut tiles, panes);
    proof {
        assert(layout.bottom == 7) by {
            if layout.bottom > 7 {
                assert(ids_of(t6).contains(7));
            }
        }
        assert(layout.sidebar == 8 && layout.root == 9) by {
            if layout.sidebar > 8 {
                assert(ids_of(t6).contains(8));
            }
            if layout.root > 9 {
                assert(ids_of(t6).contains(9));
            }
        }
        assert(panes_of(tiles) =~= map![
            1u64 => SCENE_PANE,
            2u64 => STATS_PANE,
            3u64 => DATASET_PANE,
            4u64 => TRAINING_PANE,
            5u64 => SETTINGS_PANE,
            6u64 => LOG_PANE,
        ]);
    }
    (tiles, layout)
}

/// A pane with the given tag.
pub open spec fn has_pane(panes: Map<u64, u8>, tag: u8) -> bool {
    exists|id: u64| #[trigger] panes.contains_pair(id, tag)
}

/// Every panel has a pane.
pub open spec fn complete(panes: Map<u64, u8>) -> bool {
    &&& has_pane(panes, SCENE_PANE)
    &&& has_pane(panes, STATS_PANE)
    &&& has_pane(panes, DATASET_PANE)
    &&& has_pane(panes, TRAINING_PANE)
    &&& has_pane(panes, SETTINGS_PANE)
    &&& has_pane(panes, LOG_PANE)
}

/// A pane with the given tag, any of them, if there is one.
pub fn find_pane(tiles: &Tiles<u8>, tag: u8) -> (r: Option<u64>)
    ensures
        match r {
            Some(id) => panes_of(*tiles).contains_pair(id, tag),
            None => !has_pane(panes_of(*tiles), tag),
        },
{
    let ids: Vec<u64> = tile_ids(tiles);
    let mut i: usize = 0;
    while i < ids.len()
        invariant
            i <= ids@.len(),
            ids@.to_set() == ids_of(*tiles),
            forall|k: int| 0 <= k < i ==> !panes_of(*tiles).contains_pair(#[trigger] ids@[k], tag),
        decreases ids@.len() - i,
    {
        match pane_tag(tiles, ids[i]) {
            Some(found) => {
                if found == tag {
                    return Some(ids[i]);
                }
            },
            None => {},
        }
        i = i + 1;
    }
    assert forall|id: u64| !(#[trigger] panes_of(*tiles).contains_pair(id, tag)) by {
        if panes_of(*tiles).contains_key(id) {
            assert(ids@.to_set().contains(id));
        }
    }
    None
}

/// Whether a tree has all panels.
pub fn is_tree_valid(tiles: &Tiles<u8>) -> (r: bool)
    ensures
        r == complete(panes_of(*tiles)),
{
    find_pane(tiles, SCENE_PANE).is_some() && find_pane(tiles, STATS_PANE).is_some() && find_pane(
        tiles,
        DATASET_PANE,
    ).is_some() && find_pane(tiles, TRAINING_PANE).is_some() && find_pane(
        tiles,
        SETTINGS_PANE,
    ).is_some() && find_pane(tiles, LOG_PANE).is_some()
}

/// A pane of each panel, if there are all.
fn find_panes(tiles: &Tiles<u8>) -> (r: Option<PaneIds>)
    ensures
        match r {
            Some(panes) => panes.tagged(panes_of(*tiles)),
            None => !complete(panes_of(*tiles)),
        },
{
    let scene: u64 = find_pane(tiles, SCENE_PANE)?;
    let stats: u64 = find_pane(tiles, STATS_PANE)?;
    let dataset: u64 = find_pane(tiles, DATASET_PANE)?;
    let training: u64 = find_pane(tiles, TRAINING_PANE)?;
    let settings: u64 = find_pane(tiles, SETTINGS_PANE)?;
    let log: u64 = find_pane(tiles, LOG_PANE)?;
    Some(PaneIds { scene, stats, dataset, training, settings, log })
}

/// Take all containers out.
fn remove_containers(tiles: &mut Tiles<u8>)
    ensures
        groups_of(*final(tiles)) == no_groups(),
        panes_of(*final(tiles)) == panes_of(*old(tiles)),
        hidden_of(*final(tiles)) == hidden_of(*old(tiles)),
        next_of(*final(tiles)) == next_of(*old(tiles)),
{
    let ghost before = *tiles;
    let ids: Vec<u64> = tile_ids(tiles);
    let mut i: usize = 0;
    while i < ids.len()
        invariant
            i <= ids@.len(),
            ids@.to_set() == ids_of(before),
            forall|k: int|
                0 <= k < ids@.len() ==> !(panes_of(before).contains_key(#[trigger] ids@[k])
                    && groups_of(before).contains_key(ids@[k])),
            panes_of(*tiles) == panes_of(before),
            hidden_of(*tiles) == hidden_of(before),
            next_of(*tiles) == next_of(before),
            groups_of(*tiles).submap_of(groups_of(before)),
            forall|k: int| 0 <= k < i ==> !groups_of(*tiles).contains_key(#[trigger] ids@[k]),
        decreases ids@.len() - i,
    {
        if children_of(tiles, ids[i]).is_some() {
            assert(groups_of(before).contains_key(ids@[i as int]));
            remove_tile(tiles, ids[i]);
            assert(panes_of(*tiles) =~= panes_of(before));
        }
        i = i + 1;
    }
    assert(groups_of(*tiles) =~= no_groups()) by {
        assert forall|id: u64| !(#[trigger] groups_of(*tiles).contains_key(id)) by {
            if groups_of(*tiles).contains_key(id) {
                assert(groups_of(before).contains_key(id));
                assert(ids@.to_set().contains(id));
            }
        }
    }
}

/// Fewer tiles do not raise the level.
proof fn lemma_level_falls(before: Tiles<u8>, after: Tiles<u8>)
    requires
        ids_of(before).finite(),
        ids_of(after).subset_of(ids_of(before)),
        next_of(after) == next_of(before),
    ensures
        ids_of(after).finite(),
        level(after) <= level(before),
{
    let from = next_of(before) as int;
    vstd::set_lib::lemma_len_subset(ids_of(after), ids_of(before));
    ids_of(before).lemma_len_filter(|id: u64| id >= from);
    vstd::set_lib::lemma_len_subset(
        numbered_from(ids_of(after), from),
        numbered_from(ids_of(before), from),
    );
}

/// Lay the panels out anew as they are at first. Without a pane for each panel
/// nothing changes.
pub fn reset_layout(tiles: &mut Tiles<u8>) -> (r: Option<Layout>)
    requires
        roomy(*old(tiles), 3),
    ensures
        panes_of(*final(tiles)) == panes_of(*old(tiles)),
        hidden_of(*final(tiles)) == hidden_of(*old(tiles)),
        match r {
            Some(layout) => {
                &&& layout.panes.tagged(panes_of(*old(tiles)))
                &&& layout.fresh(panes_of(*old(tiles)).dom())
                &&& groups_of(*final(tiles)) == layout.groups(no_groups())
                &&& ids_of(*final(tiles)).finite()
                &&& level(*final(tiles)) <= level(*old(tiles)) + 3
            },
            None => !complete(panes_of(*old(tiles))) && *final(tiles) == *old(tiles),
        },
{
    let ghost before = *tiles;
    match find_panes(tiles) {
        Some(panes) => {
            remove_containers(tiles);
            proof {
                lemma_level_falls(before, *tiles);
            }
            assert(ids_of(*tiles) =~= panes_of(before).dom());
            Some(build_default_layout(tiles, panes))
        },
        None => None,
    }
}

} // verus!
