//! Characters that move by themselves.

use brush::arith::{Op, Vec3};
use brush::character::skeleton::{Placement, Quat};
use brush::npc::brain::{
    clip_duration, next_brain_step, random_direction, AnimTable, Brain, Role, TimelineStep,
};
use brush::npc::rng::Rng;
use brush::npc::scene::{
    anim_table, plan_assets, position_of, spawn, BrainConfig, NpcConfig,
};
use brush::npc::system::NpcSystem;
use brush::npc::tick::{separate, BadSpawnBox, NpcRuntime};
use brush::npc::view::{model_matrix, view_projection, Lens, Turn};
use brush::single::Single;

fn s(x: f32) -> Single {
    Single { bits: x.to_bits() }
}

fn v(x: Single) -> f32 {
    f32::from_bits(x.bits)
}

fn vec3(x: f32, y: f32, z: f32) -> Vec3 {
    Vec3::new(s(x), s(y), s(z))
}

fn compute(op: Op) -> Single {
    match op {
        Op::Add(a, b) => s(v(a) + v(b)),
        Op::Sub(a, b) => s(v(a) - v(b)),
        Op::Mul(a, b) => s(v(a) * v(b)),
        Op::Div(a, b) => s(v(a) / v(b)),
        Op::Sqrt(a) => s(v(a).sqrt()),
        Op::Cos(a) => s(v(a).cos()),
        Op::Sin(a) => s(v(a).sin()),
        Op::Atan2(a, b) => s(v(a).atan2(v(b))),
        Op::Degrees(a) => s(v(a).to_degrees()),
        Op::Radians(a) => s(v(a).to_radians()),
        Op::FromInt(i) => s(i as f32),
        _ => unreachable!("not used by characters"),
    }
}

fn table() -> AnimTable {
    AnimTable { idle: None, walk: Some(0), fall: Some(1), fall_side: Some(2) }
}

fn durations() -> Vec<Single> {
    vec![s(1.0), s(2.0), s(0.1)]
}

fn config(asset: &str) -> NpcConfig {
    NpcConfig {
        asset: String::from(asset),
        pos: vec3(1.0, 2.0, 3.0),
        yaw_deg: s(90.0),
        animation: None,
        brain: None,
    }
}

fn brainy(seed: u64) -> NpcConfig {
    let mut npc = config("a.glb");
    npc.brain = Some(BrainConfig {
        seed,
        min_x: s(0.0),
        min_z: s(-2.0),
        max_x: s(4.0),
        max_z: s(2.0),
    });
    npc
}

fn standing_at(x: f32, z: f32) -> NpcRuntime {
    let mut rt = spawn(&compute, &brainy(1), 0, &table(), s(0.0));
    rt.pos = vec3(x, 0.0, z);
    rt
}

#[test]
fn generator_draws_known_numbers() {
    let mut rng = Rng::new(1);
    assert_eq!(rng.next_u64(), 0xbafa_cf62_4f01_c45d);
    assert_eq!(rng.next_u64(), 0x02da_6891_e507_685d);
    assert_eq!(Rng::new(0).state, 0xdead_beef_cafe_babe);
}

#[test]
fn draws_are_fractions() {
    let mut rng = Rng::new(1);
    assert_eq!(v(rng.next_f32(&compute)), (0xba_facf as f32) / 16_777_216.0);
    let mut rng = Rng::new(99);
    for _ in 0..200 {
        let x = v(rng.next_f32(&compute));
        assert!((0.0..1.0).contains(&x));
        let y = v(rng.range_f32(&compute, s(1.5), s(4.0)));
        assert!((1.5..=4.0).contains(&y));
    }
}

#[test]
fn generator_is_never_stuck() {
    let mut rng = Rng::new(0);
    for _ in 0..1000 {
        rng.next_u64();
        assert_ne!(rng.state, 0);
    }
}

#[test]
fn different_states_stay_different() {
    let (mut a, mut b) = (Rng::new(5), Rng::new(6));
    for _ in 0..100 {
        assert_ne!(a.next_u64(), b.next_u64());
        assert_ne!(a.state, b.state);
    }
}

#[test]
fn directions_are_level_and_of_length_one() {
    let mut rng = Rng::new(3);
    let mut current = Vec3::zero();
    for _ in 0..100 {
        current = random_direction(&compute, &mut rng, current);
        assert_eq!(v(current.y), 0.0);
        let length = (v(current.x).powi(2) + v(current.z).powi(2)).sqrt();
        assert!((length - 1.0).abs() < 1e-5);
    }
}

#[test]
fn clips_are_played_for_their_length() {
    assert_eq!(clip_duration(&durations(), Some(1)), s(2.0));
    assert_eq!(clip_duration(&durations(), Some(2)), s(0.3));
    assert_eq!(clip_duration(&durations(), Some(3)), s(0.5));
    assert_eq!(clip_duration(&durations(), None), s(0.5));
}

fn brain_with(seed: u64) -> Brain {
    Brain {
        rng: Rng::new(seed),
        step: TimelineStep { role: Role::Idle, duration: s(0.5), direction: Vec3::zero() },
        elapsed: s(0.0),
        last_direction: Vec3::zero(),
        last_pos: Vec3::zero(),
        stuck_secs: s(0.0),
    }
}

#[test]
fn steps_are_rolled_by_the_generator() {
    let mut walks = 0;
    let mut falls = 0;
    let mut side_falls = 0;
    for seed in 1..400 {
        let mut probe = Rng::new(seed);
        let roll = v(probe.next_f32(&compute));
        let mut brain = brain_with(seed);
        let step = next_brain_step(&compute, &mut brain, &table(), &durations());
        match step.role {
            Role::Walk => {
                walks += 1;
                assert!(roll < 0.86);
                assert!((1.5..=4.0).contains(&v(step.duration)));
            }
            Role::Fall => {
                falls += 1;
                assert!((0.86..0.93).contains(&roll));
                assert_eq!(step.duration, s(2.0));
                assert_eq!(step.direction, Vec3::zero());
            }
            Role::FallSide => {
                side_falls += 1;
                assert!(roll >= 0.86 + 0.07);
                assert_eq!(step.duration, s(0.3));
            }
            Role::Idle => panic!("nobody idles by choice"),
        }
    }
    assert!(walks > falls && falls > 0 && side_falls > 0);
}

#[test]
fn roles_have_animations() {
    let t = table();
    assert_eq!(t.for_role(Role::Idle), None);
    assert_eq!(t.for_role(Role::Walk), Some(0));
    assert_eq!(t.for_role(Role::FallSide), Some(2));
    let step = |role| TimelineStep { role, duration: s(1.0), direction: Vec3::zero() };
    assert_eq!(step(Role::Idle).anim_name(), None);
    assert_eq!(step(Role::Walk).anim_name(), Some("Walk"));
    assert_eq!(step(Role::Fall).anim_name(), Some("Fall"));
    assert_eq!(step(Role::FallSide).anim_name(), Some("fall_side"));
}

#[test]
fn animations_are_found_by_name() {
    let names: Vec<String> =
        ["Fall", "Walk", "Run", "Walk"].iter().map(|n| String::from(*n)).collect();
    assert_eq!(position_of(&names, &String::from("Walk")), Some(1));
    assert_eq!(position_of(&names, &String::from("Swim")), None);
    let mut npc = config("a.glb");
    npc.animation = Some(String::from("Run"));
    let t = anim_table(&npc, &names);
    assert_eq!(t.walk, Some(2));
    assert_eq!(t.fall, Some(0));
    assert_eq!(t.fall_side, None);
    assert_eq!(t.idle, None);
    npc.animation = Some(String::from("Swim"));
    assert_eq!(anim_table(&npc, &names).walk, Some(1));
}

#[test]
fn characters_spawn_in_their_box() {
    let rt = spawn(&compute, &brainy(0), 3, &table(), s(-0.6));
    assert_eq!(rt.scene_index, 3);
    assert_eq!(rt.pos, vec3(2.0, -0.6, 0.0));
    assert_eq!(rt.current_anim_index, None);
    assert_eq!(rt.brain.unwrap().rng.state, 0xdead_beef_cafe_babe);
    assert_eq!(rt.brain.unwrap().step.role, Role::Idle);
    assert_eq!(rt.spawn_min, vec3(0.0, -0.6, -2.0));
    assert_eq!(rt.spawn_max, vec3(4.0, -0.6, 2.0));
    let still = spawn(&compute, &config("a.glb"), 0, &table(), s(-0.6));
    assert_eq!(still.pos, vec3(1.0, 2.0, 3.0));
    assert_eq!(still.current_anim_index, Some(0));
    assert!(still.brain.is_none());
}

#[test]
fn assets_are_loaded_once() {
    let npcs = vec![config("a"), config("b"), config("a"), config("c"), config("b")];
    let plan = plan_assets(&npcs);
    assert_eq!(plan.first_users, vec![0, 1, 3]);
    assert_eq!(plan.slots, vec![0, 1, 0, 2, 1]);
}

#[test]
fn a_walk_moves_along_its_direction() {
    let mut rt = standing_at(1.0, 0.0);
    let mut brain = rt.brain.unwrap();
    brain.step =
        TimelineStep { role: Role::Walk, duration: s(3.0), direction: vec3(1.0, 0.0, 0.0) };
    brain.last_pos = rt.pos;
    rt.brain = Some(brain);
    rt.advance(&compute, s(0.5), &table(), &durations(), s(0.25)).unwrap();
    assert_eq!(rt.pos, vec3(1.0 + 1.4 * 0.5, 0.25, 0.0));
    assert_eq!(rt.yaw_deg, s(1.0f32.atan2(0.0).to_degrees() + 180.0));
    assert_eq!(rt.step_anim_t, s(0.5));
    assert_eq!(rt.brain.unwrap().elapsed, s(0.5));
}

#[test]
fn ticks_keep_to_the_spawn_box() {
    let mut rt = spawn(&compute, &brainy(11), 0, &table(), s(0.0));
    for _ in 0..2000 {
        rt.advance(&compute, s(0.033), &table(), &durations(), s(0.0)).unwrap();
        assert!((0.0..=4.0).contains(&v(rt.pos.x)));
        assert!((-2.0..=2.0).contains(&v(rt.pos.z)));
        assert_eq!(v(rt.pos.y), 0.0);
    }
}

#[test]
fn a_step_that_is_over_is_followed_by_another() {
    let mut rt = spawn(&compute, &brainy(1), 0, &table(), s(0.0));
    rt.advance(&compute, s(0.4), &table(), &durations(), s(0.0)).unwrap();
    assert_eq!(rt.brain.unwrap().step.role, Role::Idle);
    rt.advance(&compute, s(0.2), &table(), &durations(), s(0.0)).unwrap();
    assert_ne!(rt.brain.unwrap().step.role, Role::Idle);
    assert_eq!(rt.step_anim_t, s(0.0));
    assert_eq!(rt.brain.unwrap().elapsed, s(0.0));
}

#[test]
fn a_character_that_is_stuck_gives_up() {
    // Against the edge of its box it cannot move on.
    let mut rt = standing_at(4.0, 0.0);
    let mut brain = rt.brain.unwrap();
    brain.step =
        TimelineStep { role: Role::Walk, duration: s(100.0), direction: vec3(1.0, 0.0, 0.0) };
    brain.last_pos = rt.pos;
    rt.brain = Some(brain);
    let mut ticks = 0;
    while rt.brain.unwrap().step.duration == s(100.0) {
        rt.advance(&compute, s(0.25), &table(), &durations(), s(0.0)).unwrap();
        ticks += 1;
        assert!(ticks < 10);
    }
    assert_eq!(ticks, 4);
}

#[test]
fn a_character_without_a_brain_stays() {
    let mut rt = spawn(&compute, &config("a.glb"), 0, &table(), s(2.0));
    rt.advance(&compute, s(0.5), &table(), &durations(), s(2.0)).unwrap();
    assert_eq!(rt.pos, vec3(1.0, 2.0, 3.0));
    assert_eq!(rt.current_anim_index, Some(0));
    assert_eq!(rt.step_anim_t, s(0.5));
}

#[test]
fn a_box_upside_down_is_told() {
    let mut rt = standing_at(1.0, 0.0);
    rt.spawn_max = vec3(-1.0, 0.0, 0.0);
    let before = rt;
    assert_eq!(rt.advance(&compute, s(0.1), &table(), &durations(), s(0.0)), Err(BadSpawnBox));
    assert_eq!(rt, before);
    let pair = vec![rt, standing_at(1.5, 0.0)];
    assert!(separate(&compute, &pair, s(0.1)).is_err());
}

#[test]
fn falls_keep_their_root_motion() {
    let mut rt = standing_at(1.0, 0.0);
    assert!(rt.strip_root());
    let mut brain = rt.brain.unwrap();
    brain.step.role = Role::Fall;
    rt.brain = Some(brain);
    assert!(!rt.strip_root());
    rt.brain = None;
    assert!(rt.strip_root());
}

#[test]
fn neighbours_push_each_other_apart() {
    let all = vec![standing_at(1.0, 0.0), standing_at(2.0, 0.0)];
    let (next, moved) = separate(&compute, &all, s(0.1)).unwrap();
    assert_eq!(moved, vec![true, true]);
    let push = (1.0f32 - 1.0 / 2.5) * 1.5 * 0.1;
    assert!((v(next[0].pos.x) - (1.0 - push)).abs() < 1e-6);
    assert!((v(next[1].pos.x) - (2.0 + push)).abs() < 1e-6);
}

#[test]
fn pushed_characters_stay_in_their_box() {
    let all = vec![standing_at(0.0, 0.0), standing_at(0.5, 0.0)];
    let (next, _) = separate(&compute, &all, s(1.0)).unwrap();
    assert_eq!(v(next[0].pos.x), 0.0);
}

#[test]
fn nobody_is_pushed_alone_or_from_afar() {
    let (next, moved) = separate(&compute, &vec![standing_at(1.0, 0.0)], s(0.1)).unwrap();
    assert_eq!(moved, vec![false]);
    assert_eq!(next[0], standing_at(1.0, 0.0));
    let far = vec![standing_at(0.0, 0.0), standing_at(3.0, 0.0)];
    let (_, moved) = separate(&compute, &far, s(0.1)).unwrap();
    assert_eq!(moved, vec![false, false]);
}

fn names() -> Vec<Vec<String>> {
    let names = ["Walk", "Fall", "fall_side"].iter().map(|n| String::from(*n)).collect();
    vec![names, vec![String::from("Walk")]]
}

#[test]
fn scenes_are_set_up() {
    let npcs = vec![brainy(1), config("other.glb"), brainy(2)];
    let plan = plan_assets(&npcs);
    let system = NpcSystem::new(&compute, &npcs, plan, &names(), s(-1.0), &|place: Vec3| place);
    assert_eq!(system.slots, vec![0, 1, 0]);
    assert_eq!(system.tables[0], table());
    assert_eq!(system.tables[1].fall, None);
    assert_eq!(system.world_t, s(0.0));
    let places: Vec<Vec3> = system.runtimes.iter().map(|runtime| runtime.pos).collect();
    assert_eq!(system.ambients, places);
    assert_eq!(
        system.runtimes[2],
        spawn(&compute, &npcs[2], 2, &system.tables[2], s(-1.0))
    );
}

#[test]
fn scenes_advance_and_push_apart() {
    let npcs = vec![brainy(1), brainy(2)];
    let plan = plan_assets(&npcs);
    let all_durations = vec![durations()];
    let one_name = names()[..1].to_vec();
    let mut system =
        NpcSystem::new(&compute, &npcs, plan, &one_name, s(-1.5), &|place: Vec3| place);
    let lights = system.ambients.clone();
    for tick in 1..200 {
        let mut alone = system.runtimes.clone();
        for runtime in &mut alone {
            runtime.advance(&compute, s(0.05), &table(), &durations(), s(-1.5)).unwrap();
        }
        let (apart, pushed) = separate(&compute, &alone, s(0.05)).unwrap();
        let moved = system.tick(&compute, s(0.05), &all_durations).unwrap();
        assert_eq!(system.runtimes, apart);
        assert_eq!(moved, pushed);
        assert_eq!(system.ambients, lights);
        assert!((v(system.world_t) - tick as f32 * 0.05).abs() < 1e-3);
        for runtime in &system.runtimes {
            assert!(v(runtime.pos.x) >= v(runtime.spawn_min.x));
            assert!(v(runtime.pos.x) <= v(runtime.spawn_max.x));
            assert_eq!(runtime.pos.y, s(-1.5));
        }
    }
}

#[test]
fn scenes_with_a_bad_box_stay() {
    let mut bad = brainy(1);
    bad.brain = Some(BrainConfig {
        seed: 1,
        min_x: s(1.0),
        min_z: s(0.0),
        max_x: s(-1.0),
        max_z: s(2.0),
    });
    let npcs = vec![bad];
    let plan = plan_assets(&npcs);
    let mut system = NpcSystem::new(&compute, &npcs, plan, &names()[..1].to_vec(), s(0.0), &|place: Vec3| place);
    let before = system.runtimes.clone();
    assert_eq!(system.tick(&compute, s(0.1), &vec![durations()]), Err(BadSpawnBox));
    assert_eq!(system.runtimes, before);
    assert_eq!(system.world_t, s(0.0));
}

#[test]
fn characters_are_turned_over() {
    let turn = |by: Turn| match by {
        Turn::AboutX(a) => Quat { x: a, y: s(0.0), z: s(0.0), w: s(1.0) },
        Turn::AboutY(a) => Quat { x: s(0.0), y: a, z: s(0.0), w: s(1.0) },
    };
    let compose = |a: Quat, b: Quat| Quat { x: b.x, y: a.y, z: s(0.0), w: s(1.0) };
    let build = |p: Placement| p;
    let model = model_matrix(
        &compute,
        &turn,
        &compose,
        &build,
        s(0.5),
        s(90.0),
        vec3(1.0, 2.0, 3.0),
    );
    assert_eq!(model.translation, vec3(1.0, 2.0, 3.0));
    assert_eq!(model.scale, vec3(0.5, 0.5, 0.5));
    assert_eq!(model.rotation.x, s(std::f32::consts::PI));
    assert_eq!(model.rotation.y, s(90.0f32.to_radians()));
}

#[test]
fn only_walks_turn_characters() {
    let mut npc = spawn(&compute, &brainy(5), 0, &table(), s(0.0));
    for _ in 0..400 {
        let before = npc;
        npc.advance(&compute, s(0.05), &table(), &durations(), s(0.0)).unwrap();
        let brain = npc.brain.unwrap();
        if brain.step.role != Role::Walk {
            assert_eq!(npc.yaw_deg, before.yaw_deg);
        }
        if brain.elapsed == s(0.0) {
            assert_eq!(npc.step_anim_t, s(0.0));
            assert_eq!(npc.current_anim_index, table().for_role(brain.step.role));
        } else {
            assert_eq!(npc.step_anim_t, s(v(before.step_anim_t) + 0.05));
            assert_eq!(npc.current_anim_index, before.current_anim_index);
        }
    }
}

#[test]
fn characters_without_a_brain_stay() {
    let before = spawn(&compute, &config("a.glb"), 4, &table(), s(0.0));
    let mut after = before;
    after.advance(&compute, s(0.25), &table(), &durations(), s(-3.0)).unwrap();
    assert_eq!(after.pos, vec3(1.0, -3.0, 3.0));
    assert_eq!(after.yaw_deg, s(90.0));
    assert_eq!(after.step_anim_t, s(0.25));
    assert_eq!(after.current_anim_index, before.current_anim_index);
    after.advance(&compute, s(0.25), &table(), &durations(), s(-3.0)).unwrap();
    assert_eq!(after.pos, vec3(1.0, -3.0, 3.0));
    assert_eq!(after.step_anim_t, s(0.5));
}

fn plain_quat(q: Quat) -> glam::Quat {
    glam::Quat::from_xyzw(v(q.x), v(q.y), v(q.z), v(q.w))
}

fn quat_of(q: glam::Quat) -> Quat {
    Quat { x: s(q.x), y: s(q.y), z: s(q.z), w: s(q.w) }
}

#[test]
fn characters_stand_upright_at_their_place() {
    let turn = |by: Turn| match by {
        Turn::AboutX(a) => quat_of(glam::Quat::from_rotation_x(v(a))),
        Turn::AboutY(a) => quat_of(glam::Quat::from_rotation_y(v(a))),
    };
    let compose = |a: Quat, b: Quat| quat_of(plain_quat(a) * plain_quat(b));
    let plain = |p: Vec3| glam::vec3(v(p.x), v(p.y), v(p.z));
    let build = |p: Placement| {
        glam::Mat4::from_scale_rotation_translation(
            plain(p.scale),
            plain_quat(p.rotation),
            plain(p.translation),
        )
    };
    let place = glam::vec3(1.0, 2.0, 3.0);
    let model = |yaw: f32| {
        model_matrix(&compute, &turn, &compose, &build, s(0.5), s(yaw), vec3(1.0, 2.0, 3.0))
    };
    let near = |a: glam::Vec3, b: glam::Vec3| (a - b).length() < 1e-5;
    for yaw in [0.0, 37.0, 90.0, 200.0] {
        let matrix = model(yaw);
        assert!(near(matrix.transform_point3(glam::Vec3::ZERO), place));
        assert!(near(matrix.transform_point3(glam::Vec3::Y), place - glam::vec3(0.0, 0.5, 0.0)));
        assert!(model(yaw + 360.0).abs_diff_eq(matrix, 1e-5));
    }
    let ahead = model(0.0).transform_point3(glam::Vec3::Z);
    assert!(near(ahead, place - glam::vec3(0.0, 0.0, 0.5)));
}

#[test]
fn views_are_turned_over() {
    let project = |lens: Lens| {
        assert_eq!((lens.near, lens.far), (s(0.05), s(1000.0)));
        assert_eq!((lens.fov_y, lens.aspect), (s(0.8), s(1.5)));
        String::from("lens")
    };
    let turn = |by: Turn| {
        assert_eq!(by, Turn::AboutX(s(std::f32::consts::PI)));
        String::from("over")
    };
    let product = |a: String, b: String| format!("({a} {b})");
    let all = view_projection(&project, &turn, &product, String::from("view"), s(0.8), s(1.5));
    assert_eq!(all, "((lens over) view)");
}
