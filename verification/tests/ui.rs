//! The state behind the user interface.

use brush::arith::{Op, Vec3};
use brush::single::Single;
use brush::ui::camera_settings::{color_bytes, color_of_bytes, CameraSettings};
use brush::ui::error_display::ErrorDisplay;
use brush::ui::mode::UiMode;
use brush::ui::pose::{bar_along, nearest_pose, PoseGap};
use brush::ui::scene::{NewPressed, SceneMessage, ScenePanel};
use brush::ui::tree::{
    build_default_layout, create_default_tree, find_pane, is_tree_valid, reset_layout, Share,
    DATASET_PANE, LOG_PANE, SCENE_PANE, SETTINGS_PANE, STATS_PANE, TRAINING_PANE,
};
use brush::ui::update_mode::RenderUpdateMode;
use brush::ui::viewport::{needs_render, side_in_pixels, step_time, RenderState, TargetSize};
use brush::ui::visibility::{is_layered, update_visibility};
use egui_tiles::{Container, Linear, LinearDir, Tile, TileId, Tiles};

fn s(x: f32) -> Single {
    Single { bits: x.to_bits() }
}

fn v(x: Single) -> f32 {
    f32::from_bits(x.bits)
}

fn vec3(x: f32, y: f32, z: f32) -> Vec3 {
    Vec3::new(s(x), s(y), s(z))
}

fn compute(op: Op) -> Single {
    match op {
        Op::Add(a, b) => s(v(a) + v(b)),
        Op::Sub(a, b) => s(v(a) - v(b)),
        Op::Mul(a, b) => s(v(a) * v(b)),
        Op::Div(a, b) => s(v(a) / v(b)),
        Op::Exp(a) => s(v(a).exp()),
        Op::Round(a) => s(v(a).round()),
        Op::FromInt(i) => s(i as f32),
        _ => unreachable!("not used by the interface"),
    }
}

fn children(tiles: &Tiles<u8>, id: u64) -> Vec<u64> {
    tiles
        .get_container(TileId(id))
        .expect("a container")
        .children_vec()
        .into_iter()
        .map(|child| child.0)
        .collect()
}

#[test]
fn a_new_tree_has_all_panels() {
    let (tiles, layout) = create_default_tree();
    assert!(is_tree_valid(&tiles));
    assert_eq!(tiles.len(), 9);
    assert_eq!((layout.bottom, layout.sidebar, layout.root), (7, 8, 9));
    for (tag, id) in [
        (SCENE_PANE, layout.panes.scene),
        (STATS_PANE, layout.panes.stats),
        (DATASET_PANE, layout.panes.dataset),
        (TRAINING_PANE, layout.panes.training),
        (SETTINGS_PANE, layout.panes.settings),
        (LOG_PANE, layout.panes.log),
    ] {
        assert_eq!(tiles.get_pane(&TileId(id)), Some(&tag));
        assert_eq!(find_pane(&tiles, tag), Some(id));
    }
    assert_eq!(children(&tiles, layout.bottom), vec![2, 6, 5]);
    assert_eq!(children(&tiles, layout.sidebar), vec![4, 3, 7]);
    assert_eq!(children(&tiles, layout.root), vec![1, 8]);
    let kinds: Vec<bool> = [layout.bottom, layout.sidebar, layout.root]
        .iter()
        .map(|id| matches!(tiles.get(TileId(*id)), Some(Tile::Container(Container::Tabs(_)))))
        .collect();
    assert_eq!(kinds, vec![true, false, false]);
    match tiles.get(TileId(layout.sidebar)) {
        Some(Tile::Container(Container::Linear(linear))) => {
            assert_eq!(linear.dir, LinearDir::Vertical)
        }
        _ => panic!("the sidebar is a column"),
    }
    match tiles.get(TileId(layout.root)) {
        Some(Tile::Container(Container::Linear(linear))) => {
            assert_eq!(linear.dir, LinearDir::Horizontal)
        }
        _ => panic!("the root is a row"),
    }
}

#[test]
fn the_layout_has_shares() {
    let (_, layout) = create_default_tree();
    assert_eq!(
        layout.shares(),
        vec![
            Share { container: 8, child: 4, hundredths: 12 },
            Share { container: 8, child: 3, hundredths: 53 },
            Share { container: 8, child: 7, hundredths: 35 },
            Share { container: 9, child: 8, hundredths: 35 },
        ]
    );
}

#[test]
fn a_tree_without_a_panel_is_not_valid() {
    let (mut tiles, layout) = create_default_tree();
    tiles.remove(TileId(layout.panes.log));
    assert!(!is_tree_valid(&tiles));
    assert_eq!(find_pane(&tiles, LOG_PANE), None);
    assert!(reset_layout(&mut tiles).is_none());
    assert_eq!(tiles.len(), 8);
}

#[test]
fn the_layout_is_reset() {
    let (mut tiles, first) = create_default_tree();
    let extra = tiles.insert_tab_tile(vec![TileId(first.panes.scene)]);
    let second = reset_layout(&mut tiles).expect("all panels are there");
    assert_eq!(second.panes, first.panes);
    assert_eq!(tiles.len(), 9);
    assert!(tiles.get(extra).is_none());
    assert_eq!(children(&tiles, second.root), vec![1, second.sidebar]);
    assert_eq!(children(&tiles, second.sidebar), vec![4, 3, second.bottom]);
    assert_eq!(children(&tiles, second.bottom), vec![2, 6, 5]);
    assert!(is_layered(&tiles));
    assert!(is_tree_valid(&tiles));
}

#[test]
fn a_layout_is_built_beside_what_there_is() {
    let (mut tiles, first) = create_default_tree();
    let second = build_default_layout(&mut tiles, first.panes);
    assert_eq!((second.bottom, second.sidebar, second.root), (10, 11, 12));
    assert_eq!(tiles.len(), 12);
}

#[test]
fn panes_are_hidden_with_their_panels() {
    let (mut tiles, layout) = create_default_tree();
    update_visibility(&mut tiles, &|tag| tag == SCENE_PANE || tag == DATASET_PANE);
    assert!(tiles.is_visible(TileId(layout.panes.scene)));
    assert!(tiles.is_visible(TileId(layout.panes.dataset)));
    assert!(!tiles.is_visible(TileId(layout.panes.training)));
    assert!(!tiles.is_visible(TileId(layout.panes.stats)));
    assert!(tiles.is_visible(TileId(layout.sidebar)));
    assert!(tiles.is_visible(TileId(layout.root)));
    update_visibility(&mut tiles, &|_| false);
    for id in 1..10 {
        assert!(!tiles.is_visible(TileId(id)));
    }
    update_visibility(&mut tiles, &|tag| tag == TRAINING_PANE);
    assert!(tiles.is_visible(TileId(layout.sidebar)));
    assert!(!tiles.is_visible(TileId(layout.panes.scene)));
}

#[test]
fn tabs_are_hidden_with_all_their_tiles() {
    let mut tiles: Tiles<u8> = Tiles::default();
    let first = tiles.insert_pane(SCENE_PANE);
    let second = tiles.insert_pane(DATASET_PANE);
    let tabs = tiles.insert_tab_tile(vec![first, second]);
    // Once the marks of the tiles do not change any more, the tabs go by them.
    update_visibility(&mut tiles, &|tag| tag == DATASET_PANE);
    update_visibility(&mut tiles, &|tag| tag == DATASET_PANE);
    assert!(!tiles.is_visible(first));
    assert!(tiles.is_visible(second));
    assert!(tiles.is_visible(tabs));
    update_visibility(&mut tiles, &|_| false);
    assert!(!tiles.is_visible(second));
    assert!(!tiles.is_visible(tabs));
    update_visibility(&mut tiles, &|_| false);
    assert!(!tiles.is_visible(tabs));
}

#[test]
fn endless_trees_are_found() {
    let (mut tiles, layout) = create_default_tree();
    assert!(is_layered(&tiles));
    let loops = Linear::new(LinearDir::Vertical, vec![TileId(layout.root)]);
    tiles.insert(TileId(layout.bottom), Tile::Container(Container::Linear(loops)));
    assert!(!is_layered(&tiles));
    let dangling = Linear::new(LinearDir::Vertical, vec![TileId(77)]);
    tiles.insert(TileId(layout.bottom), Tile::Container(Container::Linear(dangling)));
    assert!(is_layered(&tiles));
}

#[test]
fn the_key_for_the_full_screen_toggles() {
    assert_eq!(UiMode::default(), UiMode::Default);
    assert_eq!(UiMode::Default.toggled(), UiMode::FullScreenSplat);
    assert_eq!(UiMode::FullScreenSplat.toggled(), UiMode::Default);
    assert_eq!(UiMode::EmbeddedViewer.toggled(), UiMode::EmbeddedViewer);
    assert!(UiMode::FullScreenSplat.all_panes_must_have_tabs());
    assert!(!UiMode::EmbeddedViewer.all_panes_must_have_tabs());
    assert_eq!(UiMode::Default.gap_width(), 1);
    assert_eq!(UiMode::FullScreenSplat.gap_width(), 0);
    assert!(!UiMode::EmbeddedViewer.is_interactive());
}

#[test]
fn drawing_has_modes() {
    assert_eq!(RenderUpdateMode::default(), RenderUpdateMode::Live);
    assert_eq!(RenderUpdateMode::Off.update_interval(), None);
    assert_eq!(RenderUpdateMode::Low.update_interval(), Some(100));
    assert_eq!(RenderUpdateMode::Live.update_interval(), Some(5));
    for mode in [RenderUpdateMode::Off, RenderUpdateMode::Low, RenderUpdateMode::Live] {
        assert_eq!(RenderUpdateMode::from_index(mode.to_index()), mode);
    }
    assert_eq!(RenderUpdateMode::from_index(9), RenderUpdateMode::Live);
    assert_eq!(RenderUpdateMode::Low.label(), "Low");
}

fn shown_error(headline: &str) -> ErrorDisplay {
    ErrorDisplay::from_messages(&vec![String::from(headline)])
}

#[test]
fn errors_are_shown_with_their_causes() {
    let error = anyhow::Error::msg("root").context("middle").context("top");
    let display = ErrorDisplay::new(&error);
    assert_eq!(display.headline, "top");
    assert_eq!(display.context, vec!["middle", "root"]);
    assert_eq!(display.heading(), "❌ top");
    assert_eq!(display.lines(), vec!["• middle", "• root"]);
    let lone = ErrorDisplay::new(&anyhow::Error::msg("only"));
    assert_eq!(lone.headline, "only");
    assert!(lone.context.is_empty());
    let many = ErrorDisplay::from_messages(&vec![String::from("a"), String::from("b")]);
    assert_eq!((many.headline.as_str(), many.context[0].as_str()), ("a", "b"));
}

fn splats(frame: u32, total_frames: u32) -> SceneMessage<u8> {
    SceneMessage::SplatsUpdated { up_axis: Some(vec3(0.0, 1.0, 0.0)), frame, total_frames }
}

#[test]
fn loaded_splats_are_drawn() {
    let mut panel: ScenePanel<u8> = ScenePanel::new();
    let request = panel.on_message(&compute, splats(3, 10), false, 0);
    assert_eq!(request.model_up, Some(vec3(0.0, 1.0, 0.0)));
    assert!(panel.has_splats && panel.splats_dirty);
    assert_eq!(panel.frame_count, 10);
    assert_eq!(panel.frame, s(3.0));
    panel.on_message(&compute, splats(9, 10), false, 0);
    assert_eq!(panel.frame, s(3.0));
    panel.on_message(&compute, splats(0, 1), false, 0);
    assert_eq!(panel.frame, s(0.0));
    assert!(panel.take_dirty());
    assert!(!panel.take_dirty());
}

#[test]
fn training_is_drawn_at_intervals() {
    let mut panel: ScenePanel<u8> = ScenePanel::new();
    let request = panel.on_message(&compute, splats(0, 1), true, 3);
    assert_eq!(request.model_up, None);
    assert!(panel.take_dirty());
    assert_eq!(panel.last_rendered_iter, 3);
    panel.on_message(&compute, splats(0, 1), true, 7);
    assert!(!panel.take_dirty());
    panel.on_message(&compute, splats(0, 1), true, 8);
    assert!(panel.take_dirty());
    panel.slide_update_mode(0);
    panel.on_message(&compute, splats(0, 1), true, 1000);
    assert!(!panel.take_dirty());
    panel.slide_update_mode(1);
    panel.on_message(&compute, splats(0, 1), true, 107);
    assert!(!panel.take_dirty());
    panel.on_message(&compute, splats(0, 1), true, 108);
    assert!(panel.take_dirty());
}

#[test]
fn messages_are_taken_in() {
    let mut panel: ScenePanel<u8> = ScenePanel::new();
    assert_eq!(panel.title(), (String::from("Scene"), None));
    panel.on_message(&compute, splats(0, 4), false, 0);
    panel.on_message(
        &compute,
        SceneMessage::StartLoading {
            name: String::from("room"),
            source: String::from("file"),
            training: false,
            base_path: Some(String::from("/data")),
        },
        false,
        0,
    );
    assert!(panel.has_splats);
    assert_eq!(panel.title(), (String::from("room"), Some(String::from("  |  file"))));
    assert_eq!(panel.base_path, Some(String::from("/data")));
    panel.source_type = None;
    assert_eq!(panel.title(), (String::from("room"), None));
    let request = panel.on_message(
        &compute,
        SceneMessage::TrainConfig { background: vec3(1.0, 0.5, 0.0) },
        true,
        0,
    );
    assert_eq!(request.background, Some(vec3(1.0, 0.5, 0.0)));
    panel.on_message(&compute, SceneMessage::Dataset { dataset: 9 }, true, 0);
    assert_eq!(panel.dataset, Some(9));
    panel.on_message(
        &compute,
        SceneMessage::StartLoading {
            name: String::from("set"),
            source: String::from("dir"),
            training: true,
            base_path: None,
        },
        false,
        0,
    );
    assert!(!panel.has_splats);
    assert_eq!(panel.dataset, None);
    assert_eq!(panel.frame_count, 0);
}

#[test]
fn a_new_process_starts_over() {
    let mut panel: ScenePanel<u8> = ScenePanel::new();
    panel.on_error(shown_error("broken"));
    panel.on_message(&compute, SceneMessage::Warning { error: shown_error("hm") }, false, 0);
    panel.on_message(&compute, splats(2, 5), false, 0);
    panel.url = String::from("splat.com");
    panel.on_message(&compute, SceneMessage::NewProcess, false, 0);
    assert!(panel.err.is_none());
    assert!(panel.warnings.is_empty());
    assert!(!panel.has_splats && !panel.splats_dirty);
    assert_eq!(panel.frame, s(0.0));
    assert_eq!(panel.url, "splat.com");
    panel.on_message(&compute, SceneMessage::Other, false, 0);
    assert!(!panel.has_splats);
}

#[test]
fn sequences_are_played_in_a_loop() {
    let mut panel: ScenePanel<u8> = ScenePanel::new();
    assert!(!panel.advance_frame(&compute, s(0.1)));
    assert!(!panel.shows_play_pause(UiMode::Default));
    panel.on_message(&compute, splats(0, 4), false, 0);
    assert!(panel.advance_frame(&compute, s(0.1)));
    assert_eq!(panel.frame, s(0.1 * 30.0));
    assert!(panel.advance_frame(&compute, s(0.1)));
    assert_eq!(panel.frame, s(0.0));
    panel.toggle_paused();
    assert!(!panel.advance_frame(&compute, s(0.1)));
    assert!(panel.shows_play_pause(UiMode::FullScreenSplat));
    assert!(!panel.shows_play_pause(UiMode::EmbeddedViewer));
}

#[test]
fn drawings_are_timed() {
    let mut panel: ScenePanel<u8> = ScenePanel::new();
    assert_eq!(panel.begin_draw(1_000), None);
    assert_eq!(panel.begin_draw(1_600), Some(600));
    assert_eq!(panel.begin_draw(1_500), Some(0));
}

#[test]
fn an_empty_scene_is_welcoming() {
    let mut panel: ScenePanel<u8> = ScenePanel::new();
    assert!(panel.show_welcome(false, UiMode::Default));
    assert!(!panel.show_welcome(true, UiMode::Default));
    assert!(!panel.show_welcome(false, UiMode::EmbeddedViewer));
    assert!(!panel.has_content(false));
    assert!(panel.has_content(true));
    panel.on_message(&compute, splats(0, 1), false, 0);
    assert!(!panel.show_welcome(false, UiMode::Default));
    assert!(panel.has_content(false));
}

#[test]
fn a_training_is_not_thrown_away_unasked() {
    let mut panel: ScenePanel<u8> = ScenePanel::new();
    assert_eq!(panel.press_new(false), NewPressed::Reset);
    assert!(!panel.show_reset_confirm);
    assert_eq!(panel.press_new(true), NewPressed::Confirm);
    assert!(panel.show_reset_confirm);
    panel.answer_confirm();
    assert!(!panel.show_reset_confirm);
    assert!(ScenePanel::<u8>::shows_settings(true, true));
    assert!(!ScenePanel::<u8>::shows_settings(true, false));
}

#[test]
fn warnings_are_counted() {
    let mut panel: ScenePanel<u8> = ScenePanel::new();
    assert!(panel.warning_button().is_none());
    for text in ["one", "two"] {
        let error = shown_error(text);
        panel.on_message(&compute, SceneMessage::Warning { error }, false, 0);
    }
    let button = panel.warning_button().unwrap();
    assert_eq!(button.label, "⚠ 2");
    assert_eq!(button.hover, "2 new warning(s)");
    assert!(button.has_unseen);
    assert_eq!(panel.warnings_heading(), "Warnings (2)");
    assert!(panel.is_new_warning(0));
    panel.warnings_shown(false, true);
    assert_eq!(panel.seen_warning_count, 0);
    panel.warnings_shown(true, false);
    assert_eq!(panel.seen_warning_count, 2);
    let button = panel.warning_button().unwrap();
    assert_eq!(button.hover, "View warnings");
    assert!(!button.has_unseen);
    let error = shown_error("three");
    panel.on_message(&compute, SceneMessage::Warning { error }, false, 0);
    assert_eq!(panel.warning_button().unwrap().hover, "1 new warning(s)");
    assert!(!panel.is_new_warning(1) && panel.is_new_warning(2));
    panel.clear_warnings();
    assert!(panel.warning_button().is_none());
    assert_eq!(panel.seen_warning_count, 0);
}

#[test]
fn blank_addresses_are_not_loaded() {
    let mut panel: ScenePanel<u8> = ScenePanel::new();
    panel.open_url_dialog();
    panel.url = String::from("  ");
    assert_eq!(panel.accept_url(), None);
    assert!(panel.show_url_dialog);
    panel.url = String::from(" splat.com/a.ply ");
    assert_eq!(panel.accept_url(), Some(String::from(" splat.com/a.ply ")));
    assert!(!panel.show_url_dialog);
    panel.open_url_dialog();
    panel.close_url_dialog();
    assert!(!panel.show_url_dialog);
}

fn gap(position: f32, rotation: f32) -> PoseGap {
    PoseGap { position: s(position), rotation: s(rotation) }
}

#[test]
fn the_nearest_pose_is_the_first_smallest() {
    let gaps = vec![gap(1.0, 1.0), gap(f32::NAN, 0.0), gap(0.5, 0.25), gap(0.25, 0.5)];
    assert_eq!(nearest_pose(&compute, &gaps), 2);
    assert_eq!(nearest_pose(&compute, &vec![gap(f32::NAN, 0.0), gap(0.0, 0.0)]), 0);
}

#[test]
fn bars_fade_in_on_a_pose() {
    let mut panel: ScenePanel<u8> = ScenePanel::new();
    assert!(panel.update_reference_pose_bars(&compute, &Vec::new(), s(0.1)).is_none());
    let on = vec![gap(0.0, 0.0)];
    let bars = panel.update_reference_pose_bars(&compute, &on, s(0.1)).unwrap();
    let expected = 1.0 + (0.0 - 1.0) * (-0.1f32 / 0.2).exp();
    assert_eq!(panel.pose_match_alpha, s(expected));
    assert_eq!(bars.alpha, (expected * 160.0) as u8);
    assert!(bars.fading);
    let bars = panel.update_reference_pose_bars(&compute, &on, s(10.0)).unwrap();
    assert_eq!(panel.pose_match_alpha, s(1.0));
    assert_eq!((bars.alpha, bars.fading, bars.nearest), (160, false, 0));
    let off = vec![gap(0.0, 0.5)];
    let bars = panel.update_reference_pose_bars(&compute, &off, s(10.0)).unwrap();
    assert_eq!((bars.alpha, bars.fading), (0, false));
}

#[test]
fn bars_cover_what_a_picture_does_not_show() {
    assert_eq!(bar_along(&compute, s(100.0), s(0.5), s(1.0)), Some(s(25.0)));
    assert_eq!(bar_along(&compute, s(100.0), s(2.0), s(1.0)), None);
    assert_eq!(bar_along(&compute, s(1.0), s(0.5), s(1.0)), None);
    assert_eq!(bar_along(&compute, s(10.0), s(-1.0), s(0.0)), Some(s(5.0)));
}

#[test]
fn settings_have_defaults() {
    let mut settings = CameraSettings {
        speed_scale: None,
        splat_scale: None,
        background: None,
        grid_enabled: None,
        clamping: (),
    };
    assert_eq!(settings.speed(), s(1.0));
    assert_eq!(settings.scale(), s(1.0));
    assert!(!settings.grid());
    assert_eq!(settings.background_color(), Vec3::zero());
    settings.splat_scale = Some(s(0.5));
    settings.grid_enabled = Some(true);
    settings.background = Some(vec3(1.0, 0.5, 0.0));
    assert_eq!(settings.scale(), s(0.5));
    assert!(settings.grid());
    assert_eq!(color_bytes(&compute, settings.background_color()), (255, 127, 0));
    assert_eq!(color_bytes(&compute, vec3(2.0, -1.0, f32::NAN)), (255, 0, 0));
    assert_eq!(color_of_bytes(&compute, 255, 0, 51), vec3(1.0, 0.0, 51.0 / 255.0));
}

fn state(width: u32) -> RenderState {
    RenderState { frame: 0, background: Vec3::zero(), splat_scale: None, width, height: 10 }
}

#[test]
fn pictures_are_asked_for_when_something_changed() {
    let now = state(10);
    assert!(needs_render(&now, None, false, true));
    assert!(!needs_render(&now, Some((now, true)), false, true));
    assert!(needs_render(&now, Some((now, false)), false, true));
    assert!(needs_render(&now, Some((state(11), true)), false, true));
    assert!(needs_render(&now, Some((now, true)), true, true));
    assert!(!needs_render(&now, None, true, false));
    let mut scaled = now;
    scaled.splat_scale = Some(s(1.0));
    assert!(!scaled.same(&now) && scaled.same(&scaled));
    scaled.splat_scale = Some(s(f32::NAN));
    assert!(!scaled.same(&scaled));
    let mut signed = now;
    signed.background = vec3(-0.0, 0.0, 0.0);
    assert!(signed.same(&now));
}

#[test]
fn sides_are_rounded_to_pixels() {
    assert_eq!(side_in_pixels(&compute, s(100.3), s(1.5)), 150);
    assert_eq!(side_in_pixels(&compute, s(100.4), s(1.5)), 151);
    assert_eq!(side_in_pixels(&compute, s(-3.0), s(1.0)), 0);
}

#[test]
fn long_pauses_are_cut_short() {
    assert_eq!(step_time(None), s(0.0));
    assert_eq!(step_time(Some(s(0.016))), s(0.016));
    assert_eq!(step_time(Some(s(5.0))), s(0.1));
}

#[test]
fn textures_follow_the_viewport() {
    let mut target = TargetSize::new();
    assert_eq!(target.ensure(0, 5), Some((1, 5)));
    assert_eq!(target.ensure(0, 5), None);
    assert_eq!(target.ensure(8, 5), Some((8, 5)));
    assert!(target.depth_fits(5, 8));
    assert!(!target.depth_fits(8, 5));
}
