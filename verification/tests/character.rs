//! Characters: images, tracks, skeletons, paths and buffers.

use brush::arith::{Op, Vec3};
use brush::character::asset::{
    assemble_mesh, build_material, MaterialSource, MeshAsset, MeshSource, NormalTexture,
};
use brush::character::buffers::{
    camera_bytes, index_bytes, instance_bytes, resting_skin_bytes, skin_bytes, vertex_bytes,
    Matrix,
};
use brush::character::gltf::{
    armature_transform, build_animations, build_joints, collapse_channels, complete_primitive,
    corner, find_parent, first_skinned, AnimationSource, Channel, ChannelOutput, Document,
    Interpolation, JointQuad, MeshError, Node, PrimitiveData, Quad,
};
use brush::character::image::{decode_image, ImageData, PixelFormat};
use brush::character::path::{LinearPath, Path};
use brush::character::skeleton::{
    apply_channel, Animation, Joint, JointChannel, Placement, Quat, Skeleton,
};
use brush::character::static_mesh::{
    load_static_mesh, overlay_bytes, StaticMeshError, StaticPart, StaticScene, Triangles,
};
use brush::character::track::{find_spot, is_ordered, Spot, Track};
use brush::single::Single;
use glam::Mat4;

fn s(x: f32) -> Single {
    Single { bits: x.to_bits() }
}

fn v(x: Single) -> f32 {
    f32::from_bits(x.bits)
}

fn vec3(x: f32, y: f32, z: f32) -> Vec3 {
    Vec3::new(s(x), s(y), s(z))
}

fn plain(p: Vec3) -> glam::Vec3 {
    glam::vec3(v(p.x), v(p.y), v(p.z))
}

fn compute(op: Op) -> Single {
    match op {
        Op::Add(a, b) => s(v(a) + v(b)),
        Op::Sub(a, b) => s(v(a) - v(b)),
        Op::Mul(a, b) => s(v(a) * v(b)),
        Op::Div(a, b) => s(v(a) / v(b)),
        Op::Sqrt(a) => s(v(a).sqrt()),
        Op::RemEuclid(a, b) => s(v(a).rem_euclid(v(b))),
        Op::Atan2(a, b) => s(v(a).atan2(v(b))),
        Op::Degrees(a) => s(v(a).to_degrees()),
        _ => unreachable!("not used by characters"),
    }
}

fn lerp(a: Vec3, b: Vec3, alpha: Single) -> Vec3 {
    let p = plain(a).lerp(plain(b), v(alpha));
    vec3(p.x, p.y, p.z)
}

fn slerp(a: Quat, b: Quat, alpha: Single) -> Quat {
    let q = rotation(a).slerp(rotation(b), v(alpha));
    Quat { x: s(q.x), y: s(q.y), z: s(q.z), w: s(q.w) }
}

fn rotation(q: Quat) -> glam::Quat {
    glam::Quat::from_xyzw(v(q.x), v(q.y), v(q.z), v(q.w))
}

fn build(p: Placement) -> Mat4 {
    Mat4::from_scale_rotation_translation(
        plain(p.scale),
        rotation(p.rotation),
        plain(p.translation),
    )
}

fn product(a: Mat4, b: Mat4) -> Mat4 {
    a * b
}

fn still() -> Quat {
    Quat { x: s(0.0), y: s(0.0), z: s(0.0), w: s(1.0) }
}

fn placed(x: f32, y: f32, z: f32) -> Placement {
    Placement {
        translation: vec3(x, y, z),
        rotation: still(),
        scale: vec3(1.0, 1.0, 1.0),
    }
}

fn node(name: &str, children: &[usize], placement: Placement) -> Node {
    Node {
        name: Some(String::from(name)),
        mesh: None,
        skin: None,
        children: children.to_vec(),
        placement,
    }
}

/// An armature two metres up, a hip one metre up, and a foot back on the ground.
fn nodes() -> Vec<Node> {
    vec![
        node("armature", &[1], placed(0.0, 2.0, 0.0)),
        node("hip", &[2], placed(0.0, 1.0, 0.0)),
        node("foot", &[], placed(0.0, -1.0, 0.0)),
    ]
}

fn quad(x: f32, y: f32, z: f32, w: f32) -> Quad {
    Quad { x: s(x), y: s(y), z: s(z), w: s(w) }
}

fn primitive() -> PrimitiveData {
    PrimitiveData {
        positions: Some(vec![vec3(0.0, 0.0, 0.0), vec3(1.0, 0.0, 0.0), vec3(0.0, 2.0, 0.5)]),
        normals: None,
        joints: Some(vec![JointQuad { a: 0, b: 1, c: 0, d: 0 }; 3]),
        weights: Some(vec![quad(1.0, 0.0, 0.0, 0.0); 3]),
        indices: Some(vec![0, 1, 2]),
        texcoords: None,
        tangents: None,
    }
}

fn walk() -> AnimationSource {
    AnimationSource {
        name: Some(String::from("Walk")),
        channels: vec![Channel {
            node: 2,
            interpolation: Interpolation::Linear,
            times: Some(vec![s(0.0), s(2.0)]),
            output: Some(ChannelOutput::Translations(vec![
                vec3(0.0, -1.0, 0.0),
                vec3(4.0, -1.0, 0.0),
            ])),
        }],
    }
}

fn source() -> MeshSource<Mat4> {
    MeshSource {
        primitive: primitive(),
        material: MaterialSource {
            base_color: None,
            normal: None,
            base_color_factor: quad(1.0, 1.0, 1.0, 1.0),
        },
        images: Vec::new(),
        nodes: nodes(),
        joints: vec![1, 2],
        inverse_binds: None,
        animations: vec![walk()],
        source: String::from("character.glb"),
    }
}

fn character() -> MeshAsset<Mat4> {
    assemble_mesh(source(), &build, &product, Mat4::IDENTITY).expect("a whole character")
}

#[test]
fn loads_bundled_character() {
    let asset = character();
    assert_eq!(asset.mesh.positions.len(), 3);
    assert_eq!(asset.mesh.indices, vec![0, 1, 2]);
    assert_eq!(asset.skeleton.joints.len(), 2);
    assert_eq!(asset.skeleton.joints[0].name, "hip");
    assert_eq!(asset.skeleton.joints[0].parent, None);
    assert_eq!(asset.skeleton.joints[1].parent, Some(0));
    assert_eq!(asset.animations.len(), 1);
    assert_eq!(asset.animations[0].name, "Walk");
    assert_eq!(asset.animations[0].duration, s(2.0));
    assert_eq!(asset.animations[0].channels.len(), 1);
    assert_eq!(asset.source, "character.glb");
    let mut lo = asset.mesh.positions[0];
    let mut hi = lo;
    for p in &asset.mesh.positions {
        lo = lo.min(*p);
        hi = hi.max(*p);
    }
    assert_eq!(lo, vec3(0.0, 0.0, 0.0));
    assert_eq!(hi, vec3(1.0, 2.0, 0.5));
}

#[test]
fn dump_character_bounds() {
    let asset = character();
    let skin = asset
        .skeleton
        .evaluate(&compute, &lerp, &slerp, &build, &product, Mat4::IDENTITY, None, s(0.0))
        .expect("a pose");
    assert_eq!(skin.len(), asset.skeleton.joints.len());
    assert_eq!(asset.skeleton.armature.w_axis.y, 2.0);
    assert_eq!(skin[0].w_axis.y, 3.0);
    assert_eq!(skin[1].w_axis.y, 2.0);
    // The lowest vertex follows the joints by their weights.
    let js = asset.mesh.joints[0];
    let ws = asset.mesh.weights[0];
    let mat = skin[js.a as usize] * v(ws.x) + skin[js.b as usize] * v(ws.y);
    let after = mat.transform_point3(plain(asset.mesh.positions[0]));
    assert_eq!(after, glam::vec3(0.0, 3.0, 0.0));
}

#[test]
fn animations_move_joints() {
    let asset = character();
    let anim = &asset.animations[0];
    assert!(anim.is_ordered());
    let at = |t: f32| {
        asset
            .skeleton
            .evaluate(&compute, &lerp, &slerp, &build, &product, Mat4::IDENTITY, Some(anim), s(t))
            .unwrap()[1]
            .w_axis
            .x
    };
    assert_eq!(at(0.0), 0.0);
    assert_eq!(at(0.5), 1.0);
    assert_eq!(at(2.5), 1.0);
}

#[test]
fn root_motion_is_stripped() {
    let asset = character();
    let mut anim = Animation {
        name: String::from("Fall"),
        duration: s(1.0),
        channels: vec![
            JointChannel {
                joint: 0,
                translation: Some(Track { times: vec![s(0.0)], values: vec![vec3(9.0, 9.0, 9.0)], linear: true }),
                rotation: Some(Track { times: vec![s(0.0)], values: vec![still()], linear: true }),
                scale: None,
            },
            JointChannel {
                joint: 1,
                translation: Some(Track { times: vec![s(0.0)], values: vec![vec3(5.0, 0.0, 0.0)], linear: true }),
                rotation: None,
                scale: None,
            },
        ],
    };
    let stripped = asset.skeleton.strip_root_motion(&anim);
    assert!(stripped.channels[0].translation.is_none());
    assert!(stripped.channels[0].rotation.is_some());
    assert_eq!(
        stripped.channels[1].translation.as_ref().unwrap().values,
        vec![vec3(5.0, 0.0, 0.0)]
    );
    let pose = apply_channel(&compute, &lerp, &slerp, &anim.channels[0], s(0.5), placed(1.0, 1.0, 1.0));
    assert_eq!(pose.unwrap().translation, vec3(9.0, 9.0, 9.0));
    let pose =
        apply_channel(&compute, &lerp, &slerp, &stripped.channels[0], s(0.5), placed(1.0, 1.0, 1.0));
    assert_eq!(pose.unwrap().translation, vec3(1.0, 1.0, 1.0));
    anim.channels[0].translation =
        Some(Track { times: vec![s(1.0), s(0.0)], values: Vec::new(), linear: true });
    assert!(!anim.is_ordered());
}

#[test]
fn children_need_their_parents() {
    let joint = |parent| Joint {
        name: String::new(),
        parent,
        bind: placed(0.0, 1.0, 0.0),
        inverse_bind: Mat4::IDENTITY,
    };
    let mut skeleton =
        Skeleton { joints: vec![joint(None), joint(Some(0))], armature: Mat4::IDENTITY };
    let pose = |skeleton: &Skeleton<Mat4>| {
        skeleton.evaluate(&compute, &lerp, &slerp, &build, &product, Mat4::IDENTITY, None, s(0.0))
    };
    assert_eq!(pose(&skeleton).unwrap()[1].w_axis.y, 2.0);
    skeleton.joints[0].parent = Some(1);
    skeleton.joints[1].parent = None;
    assert_eq!(pose(&skeleton).unwrap()[0].w_axis.y, 1.0);
    skeleton.joints[1].parent = Some(9);
    assert!(pose(&skeleton).is_none());
}

#[test]
fn flawed_characters_are_rejected() {
    let load = |source| assemble_mesh(source, &build, &product, Mat4::IDENTITY).unwrap_err();
    let mut bad = source();
    bad.primitive.positions = None;
    assert_eq!(load(bad), MeshError::MissingPosition);
    let mut bad = source();
    bad.primitive.joints = None;
    assert_eq!(load(bad), MeshError::MissingJoints);
    let mut bad = source();
    bad.primitive.weights = None;
    assert_eq!(load(bad), MeshError::MissingWeights);
    let mut bad = source();
    bad.primitive.indices = None;
    assert_eq!(load(bad), MeshError::MissingIndices);
    let mut bad = source();
    bad.inverse_binds = Some(vec![Mat4::IDENTITY]);
    assert_eq!(load(bad), MeshError::MissingInverseBind);
    let mut bad = source();
    bad.animations[0].channels[0].times = None;
    assert_eq!(load(bad), MeshError::MissingInput);
    let mut bad = source();
    bad.animations[0].channels[0].output = None;
    assert_eq!(load(bad), MeshError::MissingOutput);
    let mut bad = source();
    bad.nodes[2].children = vec![0];
    assert_eq!(load(bad), MeshError::EndlessAncestry);
    assert_eq!(
        MeshError::NoSkinnedPrimitive.message("a.glb"),
        "no skinned primitive found in a.glb"
    );
    assert_eq!(MeshError::MissingJoints.message("a.glb"), "primitive missing JOINTS_0");
}

#[test]
fn missing_attributes_are_filled_in() {
    let mesh = complete_primitive(primitive()).unwrap();
    assert_eq!(mesh.normals, vec![vec3(0.0, 1.0, 0.0); 3]);
    assert_eq!(mesh.texcoords.len(), 3);
    assert_eq!(mesh.texcoords[2].u, s(0.0));
    assert!(mesh.tangents.is_none());
    assert_eq!(corner(&mesh.indices, 0, 2), 2);
}

#[test]
fn the_first_skinned_primitive_is_picked() {
    let mut skinned = node("body", &[], placed(0.0, 0.0, 0.0));
    skinned.mesh = Some(1);
    skinned.skin = Some(4);
    let mut bare = node("hat", &[], placed(0.0, 0.0, 0.0));
    bare.mesh = Some(0);
    let doc = Document { primitives: vec![1, 2], nodes: vec![bare, skinned] };
    let found = first_skinned(&doc).unwrap();
    assert_eq!((found.mesh, found.primitive, found.skin), (1, 0, 4));
    let doc = Document { primitives: vec![1, 0], nodes: doc.nodes };
    assert_eq!(first_skinned(&doc), Err(MeshError::NoSkinnedPrimitive));
}

#[test]
fn parents_and_joints_are_found() {
    assert_eq!(find_parent(&nodes(), 2), Some(1));
    assert_eq!(find_parent(&nodes(), 0), None);
    let joints = build_joints(&nodes(), &vec![2, 1], &None, Mat4::IDENTITY).unwrap();
    assert_eq!(joints[0].parent, Some(1));
    assert_eq!(joints[1].parent, None);
    let above = armature_transform(&nodes(), &vec![2], &build, &product, Mat4::IDENTITY);
    assert_eq!(above.unwrap().w_axis.y, 3.0);
    let none = armature_transform(&nodes(), &Vec::new(), &build, &product, Mat4::IDENTITY);
    assert_eq!(none.unwrap(), Mat4::IDENTITY);
}

#[test]
fn channels_are_gathered_by_joint() {
    let channel = |node, output| Channel {
        node,
        interpolation: Interpolation::Linear,
        times: Some(vec![s(0.0), s(3.0)]),
        output: Some(output),
    };
    let channels = vec![
        channel(1, ChannelOutput::Translations(vec![vec3(1.0, 0.0, 0.0)])),
        channel(1, ChannelOutput::Rotations(vec![still()])),
        channel(7, ChannelOutput::Scales(vec![vec3(1.0, 1.0, 1.0)])),
        channel(2, ChannelOutput::MorphTargetWeights),
        channel(1, ChannelOutput::Translations(vec![vec3(2.0, 0.0, 0.0)])),
    ];
    let (tracks, length) = collapse_channels(&channels, &vec![1, 2]).unwrap();
    assert_eq!(length, s(3.0));
    let hip = tracks.iter().find(|t| t.joint == 0).unwrap();
    assert_eq!(hip.translation.as_ref().unwrap().values, vec![vec3(2.0, 0.0, 0.0)]);
    assert!(hip.rotation.is_some() && hip.scale.is_none());
    let unnamed = AnimationSource { name: None, channels: Vec::new() };
    let anims = build_animations(&vec![unnamed], &vec![1]).unwrap();
    assert_eq!(anims[0].name, "(unnamed)");
    assert_eq!(anims[0].duration, s(0.0));
}

fn image(format: PixelFormat, pixels: &[u8]) -> ImageData {
    ImageData { width: 1, height: 1, format, pixels: pixels.to_vec() }
}

#[test]
fn images_get_four_channels() {
    let images = vec![
        image(PixelFormat::R8, &[9]),
        image(PixelFormat::R8G8, &[1, 2]),
        image(PixelFormat::R8G8B8, &[1, 2, 3, 4]),
        image(PixelFormat::R8G8B8A8, &[1, 2, 3, 4]),
        image(PixelFormat::Wide, &[1, 2]),
    ];
    assert_eq!(decode_image(&images, 0).unwrap().rgba, vec![9, 9, 9, 255]);
    assert_eq!(decode_image(&images, 1).unwrap().rgba, vec![1, 2, 0, 255]);
    assert_eq!(decode_image(&images, 2).unwrap().rgba, vec![1, 2, 3, 255]);
    assert_eq!(decode_image(&images, 3).unwrap().rgba, vec![1, 2, 3, 4]);
    assert!(decode_image(&images, 4).is_none());
    assert!(decode_image(&images, 5).is_none());
}

#[test]
fn materials_are_built() {
    let images = vec![image(PixelFormat::R8, &[9]), image(PixelFormat::Wide, &[1])];
    let mut source = MaterialSource {
        base_color: Some(0),
        normal: Some(NormalTexture { image: 1, scale: s(0.5) }),
        base_color_factor: quad(0.5, 0.5, 0.5, 1.0),
    };
    let material = build_material(&source, &images);
    assert_eq!(material.base_color.unwrap().rgba, vec![9, 9, 9, 255]);
    assert!(material.normal.is_none());
    assert_eq!(material.normal_scale, s(0.5));
    assert_eq!(material.base_color_factor, quad(0.5, 0.5, 0.5, 1.0));
    source.normal = None;
    assert_eq!(build_material(&source, &images).normal_scale, s(1.0));
}

#[test]
fn tracks_hold_their_ends() {
    let track = Track {
        times: vec![s(1.0), s(2.0), s(4.0)],
        values: vec![s(10.0), s(20.0), s(40.0)],
        linear: true,
    };
    let blend = |a: Single, b: Single, t: Single| s(v(a) + (v(b) - v(a)) * v(t));
    assert!(is_ordered(&track.times));
    assert_eq!(track.sample(&compute, s(0.0), &blend), Some(s(10.0)));
    assert_eq!(track.sample(&compute, s(9.0), &blend), Some(s(40.0)));
    assert_eq!(track.sample(&compute, s(1.5), &blend), Some(s(15.0)));
    assert_eq!(track.sample(&compute, s(3.0), &blend), Some(s(30.0)));
    assert_eq!(track.sample(&compute, s(f32::NAN), &blend), None);
    assert_eq!(find_spot(&track.times, s(2.0)), Some(Spot::After(1)));
    assert_eq!(find_spot(&Vec::new(), s(2.0)), None);
    assert!(!is_ordered(&vec![s(1.0), s(0.5)]));
    let empty: Track<Single> = Track { times: Vec::new(), values: Vec::new(), linear: true };
    assert_eq!(empty.sample(&compute, s(0.0), &blend), None);
}

#[test]
fn stepped_tracks_take_the_nearer_key() {
    let channel = |interpolation, outputs| Channel {
        node: 1,
        interpolation,
        times: Some(vec![s(0.0), s(1.0)]),
        output: Some(ChannelOutput::Translations(outputs)),
    };
    let a = vec3(1.0, 0.0, 0.0);
    let b = vec3(2.0, 0.0, 0.0);
    let sample = |interpolation, outputs, t| {
        let (tracks, length) = collapse_channels(&vec![channel(interpolation, outputs)], &vec![1]).unwrap();
        assert_eq!(length, s(1.0));
        tracks[0].translation.as_ref().unwrap().sample(&compute, s(t), &lerp)
    };
    assert_eq!(sample(Interpolation::Step, vec![a, b], 0.25), Some(a));
    assert_eq!(sample(Interpolation::Step, vec![a, b], 0.5), Some(a));
    assert_eq!(sample(Interpolation::Step, vec![a, b], 0.75), Some(b));
    assert_eq!(sample(Interpolation::Step, vec![a, b], 2.0), Some(b));
    assert_eq!(sample(Interpolation::Step, vec![a], 0.75), None);
    assert_eq!(sample(Interpolation::Linear, vec![a, b], 0.25), Some(vec3(1.25, 0.0, 0.0)));
    // The tangents of a spline are no values.
    let tangent = vec3(9.0, 9.0, 9.0);
    let spline = vec![tangent, a, tangent, tangent, b, tangent];
    assert_eq!(sample(Interpolation::CubicSpline, spline.clone(), 0.25), Some(a));
    assert_eq!(sample(Interpolation::CubicSpline, spline.clone(), 0.75), Some(b));
    assert_eq!(sample(Interpolation::CubicSpline, spline, 2.0), Some(b));
}

#[test]
fn paths_lead_to_and_fro() {
    let path = LinearPath {
        start: vec3(0.0, 0.0, 0.0),
        end: vec3(4.0, 0.0, 0.0),
        duration_s: s(2.0),
    };
    assert_eq!(path.position(&compute, s(0.5)), vec3(1.0, 0.0, 0.0));
    assert_eq!(path.position(&compute, s(3.0)), vec3(2.0, 0.0, 0.0));
    assert_eq!(path.alpha(&compute, s(4.0)), s(0.0));
    assert_eq!(path.alpha(&compute, s(0.0)), s(0.0));
    assert_eq!(path.alpha(&compute, s(2.0)), s(1.0));
    assert_eq!(path.alpha(&compute, s(1.5)), s(0.75));
    assert_eq!(path.alpha(&compute, s(5.5)), s(0.75));
    assert_eq!(path.alpha(&compute, s(-1.5)), s(0.75));
    assert_eq!(path.alpha(&compute, s(3.5)), s(0.25));
    assert!(path.going_forward(&compute, s(1.0)));
    assert!(!path.going_forward(&compute, s(3.0)));
    assert_eq!(path.heading_deg(&compute, s(1.0)), s(90.0 + 180.0));
    assert_eq!(path.heading_deg(&compute, s(3.0)), s(-90.0 + 180.0));
    assert_eq!(path.speed(&compute, s(0.0)), s(2.0));
    assert_eq!(path.duration(), s(2.0));
    let still = LinearPath { duration_s: s(0.0), ..path };
    assert_eq!(still.position(&compute, s(7.0)), vec3(0.0, 0.0, 0.0));
    assert_eq!(still.speed(&compute, s(0.0)), s(0.0));
    let nowhere = LinearPath { end: path.start, ..path };
    assert_eq!(nowhere.heading_deg(&compute, s(1.0)), s(0.0));
}

fn words(bytes: &[u8]) -> Vec<u32> {
    bytes.chunks(4).map(|b| u32::from_ne_bytes([b[0], b[1], b[2], b[3]])).collect()
}

fn identity() -> Matrix {
    Matrix {
        x: quad(1.0, 0.0, 0.0, 0.0),
        y: quad(0.0, 1.0, 0.0, 0.0),
        z: quad(0.0, 0.0, 1.0, 0.0),
        w: quad(0.0, 0.0, 0.0, 1.0),
    }
}

fn identity_words() -> Vec<u32> {
    let one = 1.0f32.to_bits();
    vec![one, 0, 0, 0, 0, one, 0, 0, 0, 0, one, 0, 0, 0, 0, one]
}

#[test]
fn vertices_become_bytes() {
    let mesh = complete_primitive(primitive()).unwrap();
    let bytes = vertex_bytes(&mesh);
    assert_eq!(bytes.len(), 3 * 64);
    let words = words(&bytes);
    let f = |x: f32| x.to_bits();
    assert_eq!(words[32..36], [f(0.0), f(2.0), f(0.5), 0]);
    assert_eq!(words[36..40], [f(0.0), f(1.0), f(0.0), 0]);
    assert_eq!(words[40..44], [0, 1, 0, 0]);
    assert_eq!(words[44..48], [f(1.0), 0, 0, 0]);
    assert_eq!(self::words(&index_bytes(&mesh)), vec![0, 1, 2]);
}

#[test]
fn uniforms_become_bytes() {
    let bytes = camera_bytes(identity(), vec3(1.0, 2.0, 3.0));
    assert_eq!(bytes.len(), 80);
    let mut expected = identity_words();
    expected.extend([1.0f32.to_bits(), 2.0f32.to_bits(), 3.0f32.to_bits(), 0]);
    assert_eq!(words(&bytes), expected);
    assert_eq!(instance_bytes(identity(), vec3(1.0, 2.0, 3.0)), bytes);
    let overlay = overlay_bytes(identity(), quad(0.0, 1.0, 0.0, 0.5));
    assert_eq!(words(&overlay)[16..], [0, 1.0f32.to_bits(), 0, 0.5f32.to_bits()]);
}

#[test]
fn skins_have_a_matrix_for_each_joint() {
    let bytes = skin_bytes(2, &vec![identity(), identity()]).unwrap();
    assert_eq!(bytes, resting_skin_bytes(2));
    assert_eq!(words(&bytes)[..16], identity_words());
    let err = skin_bytes(3, &vec![identity()]).unwrap_err();
    assert_eq!((err.expected, err.got), (192, 64));
    assert_eq!(err.message(), "skin matrix count mismatch: buffer expects 192 bytes, got 64");
}

fn part(positions: &[Vec3], indices: &[u32]) -> StaticPart {
    StaticPart { positions: positions.to_vec(), indices: indices.to_vec() }
}

#[test]
fn primitives_are_joined() {
    let mesh = vec![
        part(&[vec3(0.0, 0.0, 0.0), vec3(1.0, 0.0, 0.0)], &[0, 1, 1]),
        part(&[vec3(5.0, 0.0, 0.0)], &[0, 0, 0]),
    ];
    let joined = load_static_mesh(&vec![mesh, Vec::new()]).unwrap();
    assert_eq!(joined.positions.len(), 3);
    assert_eq!(joined.indices, vec![0, 1, 1, 2, 2, 2]);
    assert_eq!(words(&joined.index_bytes()), joined.indices);
    let bytes = joined.position_bytes();
    assert_eq!(bytes.len(), 36);
    assert_eq!(words(&bytes)[6..], [5.0f32.to_bits(), 0, 0]);
    assert_eq!(load_static_mesh(&Vec::new()).unwrap_err(), StaticMeshError::NoMesh);
    let wide = vec![part(&[vec3(0.0, 0.0, 0.0)], &[]), part(&[], &[u32::MAX])];
    assert_eq!(load_static_mesh(&vec![wide]).unwrap_err(), StaticMeshError::TooLarge);
    assert_eq!(StaticMeshError::NoMesh.message("a.glb"), "no mesh in a.glb");
    assert_eq!(StaticMeshError::NoMeshData.message("a.glb"), "no mesh data in a.glb");
}

fn apply(m: Mat4, p: Vec3) -> Vec3 {
    let q = m.transform_point3(plain(p));
    vec3(q.x, q.y, q.z)
}

fn in_world(scene: &StaticScene) -> Result<Triangles, StaticMeshError> {
    scene.load_in_world(&build, &product, &apply, Mat4::IDENTITY)
}

#[test]
fn scenes_are_moved_to_the_world() {
    let mut nodes = nodes();
    nodes[0].mesh = Some(0);
    nodes[2].mesh = Some(0);
    let mut scene = StaticScene {
        meshes: vec![vec![part(&[vec3(1.0, 0.0, 0.0)], &[0])]],
        nodes,
        scenes: vec![vec![0]],
    };
    let all = in_world(&scene).unwrap();
    assert_eq!(all.positions, vec![vec3(1.0, 2.0, 0.0), vec3(1.0, 2.0, 0.0)]);
    assert_eq!(all.indices, vec![0, 1]);
    scene.scenes = vec![vec![1], vec![2]];
    let all = in_world(&scene).unwrap();
    assert_eq!(all.positions, vec![vec3(1.0, 0.0, 0.0), vec3(1.0, -1.0, 0.0)]);
    scene.nodes[2].mesh = None;
    assert_eq!(in_world(&scene).unwrap_err(), StaticMeshError::NoMeshData);
    scene.nodes[2].children = vec![1];
    assert_eq!(in_world(&scene).unwrap_err(), StaticMeshError::EndlessTree);
}

#[test]
fn tangents_are_set_by_corner() {
    let mut data = primitive();
    data.indices = Some(vec![0, 1, 2, 2, 1, 0, 0]);
    let mesh = complete_primitive(data).unwrap();
    assert!(mesh.is_sound());
    assert_eq!(mesh.num_faces(), 2);
    assert_eq!(mesh.position(1, 0), vec3(0.0, 2.0, 0.5));
    assert_eq!(mesh.normal(0, 1), vec3(0.0, 1.0, 0.0));
    assert_eq!(mesh.tex_coord(0, 0).v, s(0.0));
    let mut tangents = mesh.resting_tangents();
    assert_eq!(tangents, vec![quad(1.0, 0.0, 0.0, 1.0); 3]);
    mesh.set_tangent(&mut tangents, 1, 0, quad(0.0, 0.0, 1.0, -1.0));
    assert_eq!(tangents[2], quad(0.0, 0.0, 1.0, -1.0));
    assert_eq!(tangents[0], quad(1.0, 0.0, 0.0, 1.0));
    let mut data = primitive();
    data.indices = Some(vec![3]);
    assert!(!complete_primitive(data).unwrap().is_sound());
}
