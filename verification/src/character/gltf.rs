//! Picking a skinned mesh, its skeleton and its animations out of a scene.
//!
//! The scene comes as plain lists that mirror the tables of a glTF document.

use crate::arith::{Vec3, ONE, ZERO};
use crate::character::skeleton::{
    builds, makes, multiplies, products, Animation, Joint, JointChannel, Placement, Quat,
};
use crate::character::track::Track;
use crate::single::{single, Single};
use vstd::prelude::*;
use vstd::string::StringExecFns;

verus! {

/// A node of the scene.
#[derive(Debug)]
pub struct Node {
    pub name: Option<String>,
    pub mesh: Option<usize>,
    pub skin: Option<usize>,
    pub children: Vec<usize>,
    pub placement: Placement,
}

/// The tables of a scene.
#[derive(Debug)]
pub struct Document {
    /// For each mesh, the number of its primitives.
    pub primitives: Vec<usize>,
    pub nodes: Vec<Node>,
}

/// A primitive that is drawn with a skin.
#[derive(Clone, Copy, Debug, PartialEq, Eq, Structural)]
pub struct SkinnedPrimitive {
    pub mesh: usize,
    pub primitive: usize,
    pub skin: usize,
}

/// Why a scene holds no usable character.
#[derive(Clone, Copy, Debug, PartialEq, Eq, Structural)]
pub enum MeshError {
    NoSkinnedPrimitive,
    MissingPosition,
    MissingJoints,
    MissingWeights,
    MissingIndices,
    /// There are fewer inverse bind matrices than joints.
    MissingInverseBind,
    MissingInput,
    MissingOutput,
    /// A node is its own ancestor.
    EndlessAncestry,
}

impl MeshError {
    /// The text shown for an error in the file `source`.
    pub open spec fn text(self, source: Seq<char>) -> Seq<char> {
        match self {
            MeshError::NoSkinnedPrimitive => "no skinned primitive found in "@ + source,
            MeshError::MissingPosition => "primitive missing POSITION attribute"@,
            MeshError::MissingJoints => "primitive missing JOINTS_0"@,
            MeshError::MissingWeights => "primitive missing WEIGHTS_0"@,
            MeshError::MissingIndices => "primitive missing indices"@,
            MeshError::MissingInverseBind => "skin missing inverse bind matrices"@,
            MeshError::MissingInput => "animation channel missing input times"@,
            MeshError::MissingOutput => "animation channel missing output"@,
            MeshError::EndlessAncestry => "node is its own ancestor"@,
        }
    }

    pub fn message(&self, source: &str) -> (r: String)
        ensures
            r@ == self.text(source@),
    {
        match self {
            MeshError::NoSkinnedPrimitive => {
                let mut out: String = String::from_str("no skinned primitive found in ");
                out.append(source);
                out
            },
            MeshError::MissingPosition => String::from_str("primitive missing POSITION attribute"),
            MeshError::MissingJoints => String::from_str("primitive missing JOINTS_0"),
            MeshError::MissingWeights => String::from_str("primitive missing WEIGHTS_0"),
            MeshError::MissingIndices => String::from_str("primitive missing indices"),
            MeshError::MissingInverseBind => String::from_str("skin missing inverse bind matrices"),
            MeshError::MissingInput => String::from_str("animation channel missing input times"),
            MeshError::MissingOutput => String::from_str("animation channel missing output"),
            MeshError::EndlessAncestry => String::from_str("node is its own ancestor"),
        }
    }
}

/// The skin with which the first node, from node `from` on, draws a mesh.
pub open spec fn skin_of(nodes: Seq<Node>, mesh: int, from: int) -> Option<usize>
    decreases nodes.len() - from,
{
    if from >= nodes.len() || from < 0 {
        None
    } else if nodes[from].mesh == Some(mesh as usize) && nodes[from].skin is Some {
        nodes[from].skin
    } else {
        skin_of(nodes, mesh, from + 1)
    }
}

/// The first primitive, in meshes from `from` on, that is drawn with a skin.
pub open spec fn skinned_from(doc: Document, from: int) -> Option<SkinnedPrimitive>
    decreases doc.primitives@.len() - from,
{
    if from >= doc.primitives@.len() || from < 0 {
        None
    } else if doc.primitives@[from] > 0 && skin_of(doc.nodes@, from, 0) is Some {
        Some(
            SkinnedPrimitive {
                mesh: from as usize,
                primitive: 0,
                skin: skin_of(doc.nodes@, from, 0)->0,
            },
        )
    } else {
        skinned_from(doc, from + 1)
    }
}

fn find_skin(nodes: &Vec<Node>, mesh: usize) -> (r: Option<usize>)
    ensures
        r == skin_of(nodes@, mesh as int, 0),
{
    let mut i: usize = 0;
    while i < nodes.len()
        invariant
            i <= nodes@.len(),
            skin_of(nodes@, mesh as int, 0) == skin_of(nodes@, mesh as int, i as int),
        decreases nodes@.len() - i,
    {
        if let Some(m) = nodes[i].mesh {
            if m == mesh {
                if let Some(skin) = nodes[i].skin {
                    return Some(skin);
                }
            }
        }
        i = i + 1;
    }
    None
}

/// Find the first primitive that is drawn with a skin.
pub fn first_skinned(doc: &Document) -> (r: Result<SkinnedPrimitive, MeshError>)
    ensures
        match skinned_from(*doc, 0) {
            Some(found) => r == Ok::<SkinnedPrimitive, MeshError>(found),
            None => r == Err::<SkinnedPrimitive, MeshError>(MeshError::NoSkinnedPrimitive),
        },
{
    let mut mesh: usize = 0;
    while mesh < doc.primitives.len()
        invariant
            mesh <= doc.primitives@.len(),
            skinned_from(*doc, 0) == skinned_from(*doc, mesh as int),
        decreases doc.primitives@.len() - mesh,
    {
        if doc.primitives[mesh] > 0 {
            if let Some(skin) = find_skin(&doc.nodes, mesh) {
                return Ok(SkinnedPrimitive { mesh, primitive: 0, skin });
            }
        }
        mesh = mesh + 1;
    }
    Err(MeshError::NoSkinnedPrimitive)
}

/// A pair of texture coordinates.
#[derive(Clone, Copy, Debug, PartialEq, Eq, Structural)]
pub struct Uv {
    pub u: Single,
    pub v: Single,
}

/// Four singles: joint weights, or a tangent and the sign of its bitangent.
#[derive(Clone, Copy, Debug, PartialEq, Eq, Structural)]
pub struct Quad {
    pub x: Single,
    pub y: Single,
    pub z: Single,
    pub w: Single,
}

/// Four joint indices.
#[derive(Clone, Copy, Debug, PartialEq, Eq, Structural)]
pub struct JointQuad {
    pub a: u16,
    pub b: u16,
    pub c: u16,
    pub d: u16,
}

/// The attributes of a primitive, as far as it has them.
#[derive(Debug)]
pub struct PrimitiveData {
    pub positions: Option<Vec<Vec3>>,
    pub normals: Option<Vec<Vec3>>,
    pub joints: Option<Vec<JointQuad>>,
    pub weights: Option<Vec<Quad>>,
    pub indices: Option<Vec<u32>>,
    pub texcoords: Option<Vec<Uv>>,
    pub tangents: Option<Vec<Quad>>,
}

/// The attributes of a primitive that can be drawn. Tangents may have to be
/// made.
#[derive(Debug)]
pub struct MeshData {
    pub positions: Vec<Vec3>,
    pub normals: Vec<Vec3>,
    pub joints: Vec<JointQuad>,
    pub weights: Vec<Quad>,
    pub indices: Vec<u32>,
    pub texcoords: Vec<Uv>,
    pub tangents: Option<Vec<Quad>>,
}

/// The first attribute that a primitive lacks.
pub open spec fn lacking(data: PrimitiveData) -> Option<MeshError> {
    if data.positions is None {
        Some(MeshError::MissingPosition)
    } else if data.joints is None {
        Some(MeshError::MissingJoints)
    } else if data.weights is None {
        Some(MeshError::MissingWeights)
    } else if data.indices is None {
        Some(MeshError::MissingIndices)
    } else {
        None
    }
}

/// Straight up.
pub open spec fn up() -> Vec3 {
    Vec3 { x: single(ZERO), y: single(ONE), z: single(ZERO) }
}

fn repeat<T: Copy>(value: T, count: usize) -> (r: Vec<T>)
    ensures
        r@ == Seq::new(count as nat, |i: int| value),
{
    let mut out: Vec<T> = Vec::new();
    let mut i: usize = 0;
    while i < count
        invariant
            i <= count,
            out@ == Seq::new(i as nat, |k: int| value),
        decreases count - i,
    {
        out.push(value);
        i = i + 1;
        assert(out@ =~= Seq::new(i as nat, |k: int| value));
    }
    out
}

/// Check that a primitive has what it needs. Missing normals point up, missing
/// texture coordinates are zero.
pub fn complete_primitive(data: PrimitiveData) -> (r: Result<MeshData, MeshError>)
    ensures
        lacking(data) matches Some(error) ==> r == Err::<MeshData, MeshError>(error),
        lacking(data) is None ==> (r matches Ok(mesh) && {
            &&& mesh.positions == data.positions->0
            &&& mesh.joints == data.joints->0
            &&& mesh.weights == data.weights->0
            &&& mesh.indices == data.indices->0
            &&& mesh.tangents == data.tangents
            &&& mesh.normals@ == match data.normals {
                Some(normals) => normals@,
                None => Seq::new(mesh.positions@.len(), |i: int| up()),
            }
            &&& mesh.texcoords@ == match data.texcoords {
                Some(texcoords) => texcoords@,
                None => Seq::new(
                    mesh.positions@.len(),
                    |i: int| Uv { u: single(ZERO), v: single(ZERO) },
                ),
            }
        }),
{
    let positions: Vec<Vec3> = match data.positions {
        Some(positions) => positions,
        None => {
            return Err(MeshError::MissingPosition);
        },
    };
    let normals: Vec<Vec3> = match data.normals {
        Some(normals) => normals,
        None => repeat(
            Vec3 { x: single(ZERO), y: single(ONE), z: single(ZERO) },
            positions.len(),
        ),
    };
    let joints: Vec<JointQuad> = match data.joints {
        Some(joints) => joints,
        None => {
            return Err(MeshError::MissingJoints);
        },
    };
    let weights: Vec<Quad> = match data.weights {
        Some(weights) => weights,
        None => {
            return Err(MeshError::MissingWeights);
        },
    };
    let indices: Vec<u32> = match data.indices {
        Some(indices) => indices,
        None => {
            return Err(MeshError::MissingIndices);
        },
    };
    let texcoords: Vec<Uv> = match data.texcoords {
        Some(texcoords) => texcoords,
        None => repeat(Uv { u: single(ZERO), v: single(ZERO) }, positions.len()),
    };
    Ok(
        MeshData {
            positions,
            normals,
            joints,
            weights,
            indices,
            texcoords,
            tangents: data.tangents,
        },
    )
}

/// Index of the vertex at a corner of a triangle, for a mesh without gaps in
/// its index list.
pub fn corner(indices: &Vec<u32>, face: usize, vert: usize) -> (r: u32)
    requires
        face < indices@.len() as int / 3,
        vert < 3,
    ensures
        r == indices@[face * 3 + vert],
{
    assert(indices@.len() == indices.len());
    indices[face * 3 + vert]
}

/// The first node, from node `from` on, that has a child.
pub open spec fn parent_from(nodes: Seq<Node>, child: int, from: int) -> Option<int>
    decreases nodes.len() - from,
{
    if from >= nodes.len() || from < 0 {
        None
    } else if nodes[from].children@.contains(child as usize) {
        Some(from)
    } else {
        parent_from(nodes, child, from + 1)
    }
}

/// The parent of a node.
pub open spec fn parent_of(nodes: Seq<Node>, child: int) -> Option<int> {
    parent_from(nodes, child, 0)
}

fn has_child(node: &Node, child: usize) -> (r: bool)
    ensures
        r == node.children@.contains(child),
{
    let mut i: usize = 0;
    while i < node.children.len()
        invariant
            i <= node.children@.len(),
            forall|j: int| 0 <= j < i ==> node.children@[j] != child,
        decreases node.children@.len() - i,
    {
        if node.children[i] == child {
            return true;
        }
        i = i + 1;
    }
    false
}

/// Find the parent of a node.
pub fn find_parent(nodes: &Vec<Node>, child: usize) -> (r: Option<usize>)
    ensures
        match r {
            Some(p) => p < nodes@.len() && parent_of(nodes@, child as int) == Some(p as int),
            None => parent_of(nodes@, child as int) is None,
        },
{
    let mut i: usize = 0;
    while i < nodes.len()
        invariant
            i <= nodes@.len(),
            parent_of(nodes@, child as int) == parent_from(nodes@, child as int, i as int),
        decreases nodes@.len() - i,
    {
        if has_child(&nodes[i], child) {
            return Some(i);
        }
        i = i + 1;
    }
    None
}

/// The place of a node among the first `n` joints of a skin; the last one, if
/// it has several.
pub open spec fn joint_of(joints: Seq<usize>, node: int, n: nat) -> Option<u16>
    decreases n,
{
    if n == 0 {
        None
    } else if joints[n - 1] == node {
        Some((n - 1) as u16)
    } else {
        joint_of(joints, node, (n - 1) as nat)
    }
}

fn find_joint(joints: &Vec<usize>, node: usize) -> (r: Option<u16>)
    ensures
        r == joint_of(joints@, node as int, joints@.len()),
{
    let mut n: usize = joints.len();
    while n > 0
        invariant
            n <= joints@.len(),
            joint_of(joints@, node as int, joints@.len()) == joint_of(
                joints@,
                node as int,
                n as nat,
            ),
        decreases n,
    {
        if joints[n - 1] == node {
            return Some((n - 1) as u16);
        }
        n = n - 1;
    }
    None
}

/// What a joint of a skeleton is, given its node.
pub open spec fn is_joint<M>(
    joint: Joint<M>,
    nodes: Seq<Node>,
    joints: Seq<usize>,
    i: int,
    inverse_bind: M,
) -> bool {
    let node = nodes[joints[i] as int];
    &&& joint.name@ == match node.name {
        Some(name) => name@,
        None => ""@,
    }
    &&& joint.parent == match parent_of(nodes, joints[i] as int) {
        Some(p) => joint_of(joints, p, joints.len()),
        None => None,
    }
    &&& joint.bind == node.placement
    &&& joint.inverse_bind == inverse_bind
}

/// The joints of a skeleton, with their parents among each other. Without
/// inverse bind matrices all are the identity.
pub fn build_joints<M: Copy>(
    nodes: &Vec<Node>,
    joints: &Vec<usize>,
    inverse_binds: &Option<Vec<M>>,
    identity: M,
) -> (r: Result<Vec<Joint<M>>, MeshError>)
    requires
        forall|i: int| 0 <= i < joints@.len() ==> #[trigger] joints@[i] < nodes@.len(),
    ensures
        match r {
            Ok(out) => {
                &&& out@.len() == joints@.len()
                &&& *inverse_binds matches Some(binds) ==> binds@.len() >= joints@.len()
                &&& forall|i: int|
                    0 <= i < joints@.len() ==> is_joint(
                        #[trigger] out@[i],
                        nodes@,
                        joints@,
                        i,
                        match *inverse_binds {
                            Some(binds) => binds@[i],
                            None => identity,
                        },
                    )
            },
            Err(e) => e == MeshError::MissingInverseBind && (*inverse_binds matches Some(binds)
                && binds@.len() < joints@.len()),
        },
{
    let mut out: Vec<Joint<M>> = Vec::new();
    let mut i: usize = 0;
    while i < joints.len()
        invariant
            forall|k: int| 0 <= k < joints@.len() ==> #[trigger] joints@[k] < nodes@.len(),
            i <= joints@.len(),
            out@.len() == i,
            *inverse_binds matches Some(binds) ==> binds@.len() >= i,
            forall|k: int|
                0 <= k < i ==> is_joint(
                    #[trigger] out@[k],
                    nodes@,
                    joints@,
                    k,
                    match *inverse_binds {
                        Some(binds) => binds@[k],
                        None => identity,
                    },
                ),
        decreases joints@.len() - i,
    {
        let node: &Node = &nodes[joints[i]];
        let name: String = match &node.name {
            Some(name) => name.clone(),
            None => String::from_str(""),
        };
        let parent: Option<u16> = match find_parent(nodes, joints[i]) {
            Some(p) => find_joint(joints, p),
            None => None,
        };
        let inverse_bind: M = match inverse_binds {
            Some(binds) => {
                if i >= binds.len() {
                    return Err(MeshError::MissingInverseBind);
                }
                binds[i]
            },
            None => identity,
        };
        out.push(Joint { name, parent, bind: node.placement, inverse_bind });
        i = i + 1;
    }
    Ok(out)
}

/// The ancestors of a node, nearest first, if there are no more than `fuel`.
pub open spec fn ancestry(nodes: Seq<Node>, child: int, fuel: nat) -> Option<Seq<int>>
    decreases fuel,
{
    match parent_of(nodes, child) {
        None => Some(Seq::empty()),
        Some(p) => if fuel == 0 {
            None
        } else {
            match ancestry(nodes, p, (fuel - 1) as nat) {
                None => None,
                Some(rest) => Some(seq![p] + rest),
            }
        },
    }
}

/// The transform of a chain of ancestors, nearest first, over what is below.
pub open spec fn stacked<M>(
    nodes: Seq<Node>,
    chain: Seq<int>,
    make: spec_fn(Placement) -> M,
    times: spec_fn(M, M) -> M,
    below: M,
) -> M
    decreases chain.len(),
{
    if chain.len() == 0 {
        below
    } else {
        stacked(
            nodes,
            chain.skip(1),
            make,
            times,
            times(make(nodes[chain[0]].placement), below),
        )
    }
}

/// The transform of everything above the first joint of a skin. There is none
/// where a node is its own ancestor.
pub fn armature_transform<M: Copy, B: Fn(Placement) -> M, P: Fn(M, M) -> M>(
    nodes: &Vec<Node>,
    joints: &Vec<usize>,
    build: &B,
    product: &P,
    identity: M,
) -> (r: Result<M, MeshError>)
    requires
        builds::<M, B>(*build),
        multiplies::<M, P>(*product),
    ensures
        joints@.len() == 0 ==> r == Ok::<M, MeshError>(identity),
        joints@.len() > 0 && ancestry(nodes@, joints@[0] as int, nodes@.len()) is None ==> r == Err::<
            M,
            MeshError,
        >(MeshError::EndlessAncestry),
        joints@.len() > 0 && ancestry(nodes@, joints@[0] as int, nodes@.len()) is Some ==> r.is_ok()
            && forall|m: spec_fn(Placement) -> M, h: spec_fn(M, M) -> M|
            #![trigger makes(*build, m), products(*product, h)]
            makes(*build, m) && products(*product, h) ==> r == Ok::<M, MeshError>(
                stacked(
                    nodes@,
                    ancestry(nodes@, joints@[0] as int, nodes@.len())->0,
                    m,
                    h,
                    identity,
                ),
            ),
{
    if joints.len() == 0 {
        return Ok(identity);
    }
    let ghost whole = ancestry(nodes@, joints@[0] as int, nodes@.len());
    let mut at: usize = joints[0];
    let mut result: M = identity;
    let mut fuel: usize = nodes.len();
    loop
        invariant
            builds::<M, B>(*build),
            multiplies::<M, P>(*product),
            ancestry(nodes@, at as int, fuel as nat) is None <==> whole is None,
            ancestry(nodes@, at as int, fuel as nat) is Some ==> forall|
                m: spec_fn(Placement) -> M,
                h: spec_fn(M, M) -> M,
            |
                #![trigger makes(*build, m), products(*product, h)]
                makes(*build, m) && products(*product, h) ==> stacked(
                    nodes@,
                    whole->0,
                    m,
                    h,
                    identity,
                ) == stacked(
                    nodes@,
                    ancestry(nodes@, at as int, fuel as nat)->0,
                    m,
                    h,
                    result,
                ),
            joints@.len() > 0,
            whole == ancestry(nodes@, joints@[0] as int, nodes@.len()),
        decreases fuel,
    {
        match find_parent(nodes, at) {
            None => {
                return Ok(result);
            },
            Some(p) => {
                if fuel == 0 {
                    return Err(MeshError::EndlessAncestry);
                }
                let local: M = build(nodes[p].placement);
                proof {
                    if let Some(rest) = ancestry(nodes@, p as int, (fuel - 1) as nat) {
                        let chain = seq![p as int] + rest;
                        assert(chain.skip(1) =~= rest);
                        assert(chain[0] == p);
                    }
                }
                result = product(local, result);
                at = p;
                fuel = fuel - 1;
            },
        }
    }
}

/// The values that an animation channel drives.
#[derive(Debug)]
pub enum ChannelOutput {
    Translations(Vec<Vec3>),
    Rotations(Vec<Quat>),
    Scales(Vec<Vec3>),
    /// Not supported.
    MorphTargetWeights,
}

/// How a channel gets from one key to the next.
#[derive(Clone, Copy, Debug, PartialEq, Eq, Structural)]
pub enum Interpolation {
    Linear,
    Step,
    /// Each key has a tangent before its value and one after it.
    CubicSpline,
}

/// One channel of an animation: one component of one node.
#[derive(Debug)]
pub struct Channel {
    pub node: usize,
    pub interpolation: Interpolation,
    pub times: Option<Vec<Single>>,
    pub output: Option<ChannelOutput>,
}

/// The joint that a channel drives, if its node is one.
pub open spec fn target(ch: Channel, joints: Seq<usize>) -> Option<u16> {
    joint_of(joints, ch.node as int, joints.len())
}

/// What is wrong with the first channel, from `from` on, that drives a joint
/// and lacks something.
pub open spec fn channel_error(channels: Seq<Channel>, joints: Seq<usize>, from: int) -> Option<
    MeshError,
>
    decreases channels.len() - from,
{
    if from >= channels.len() || from < 0 {
        None
    } else if target(channels[from], joints) is Some && channels[from].times is None {
        Some(MeshError::MissingInput)
    } else if target(channels[from], joints) is Some && channels[from].output is None {
        Some(MeshError::MissingOutput)
    } else {
        channel_error(channels, joints, from + 1)
    }
}

/// The later of two times; a time that is no number does not count.
pub open spec fn later(a: Single, b: Single) -> Single {
    if b.nan() {
        a
    } else if a.nan() || a.below(b) {
        b
    } else {
        a
    }
}

/// The last key time among the first `n` channels that drive a joint.
pub open spec fn length_of(channels: Seq<Channel>, joints: Seq<usize>, n: nat) -> Single
    decreases n,
{
    if n == 0 {
        single(ZERO)
    } else {
        let before = length_of(channels, joints, (n - 1) as nat);
        let ch = channels[n - 1];
        if target(ch, joints) is Some && ch.times is Some && ch.times->0@.len() > 0 {
            later(before, ch.times->0@.last())
        } else {
            before
        }
    }
}

/// A component of a placement.
#[derive(Clone, Copy, Debug, PartialEq, Eq, Structural)]
pub enum Component {
    Translation,
    Rotation,
    Scale,
}

/// A channel drives a component of a joint.
pub open spec fn drives(ch: Channel, joints: Seq<usize>, joint: u16, component: Component) -> bool {
    target(ch, joints) == Some(joint) && match component {
        Component::Translation => ch.output matches Some(ChannelOutput::Translations(_)),
        Component::Rotation => ch.output matches Some(ChannelOutput::Rotations(_)),
        Component::Scale => ch.output matches Some(ChannelOutput::Scales(_)),
    }
}

/// The last of the first `n` channels that drives a component of a joint.
pub open spec fn last_driver(
    channels: Seq<Channel>,
    joints: Seq<usize>,
    joint: u16,
    component: Component,
    n: nat,
) -> Option<Channel>
    decreases n,
{
    if n == 0 {
        None
    } else if drives(channels[n - 1], joints, joint, component) {
        Some(channels[n - 1])
    } else {
        last_driver(channels, joints, joint, component, (n - 1) as nat)
    }
}

/// The values of the keys among the outputs of a channel: all of them, but for
/// a spline, whose values have a tangent on either side.
pub open spec fn key_values<V>(interpolation: Interpolation, outputs: Seq<V>) -> Seq<V> {
    if interpolation == Interpolation::CubicSpline {
        Seq::new(((outputs.len() + 1) / 3) as nat, |k: int| outputs[3 * k + 1])
    } else {
        outputs
    }
}

/// The track holds the times of a channel and the values of its keys. Only a
/// linear channel is interpolated.
pub open spec fn track_holds<V>(track: Option<Track<V>>, ch: Channel, outputs: Seq<V>) -> bool {
    track matches Some(track) && track.times@ == ch.times->0@ && track.values@ == key_values(
        ch.interpolation,
        outputs,
    ) && track.linear == (ch.interpolation == Interpolation::Linear)
}

/// The tracks of a joint come from the last of the first `n` channels that
/// drives each component.
pub open spec fn collects(
    jc: JointChannel,
    channels: Seq<Channel>,
    joints: Seq<usize>,
    n: nat,
) -> bool {
    &&& match last_driver(channels, joints, jc.joint, Component::Translation, n) {
        None => jc.translation is None,
        Some(ch) => track_holds(jc.translation, ch, (ch.output->0)->Translations_0@),
    }
    &&& match last_driver(channels, joints, jc.joint, Component::Rotation, n) {
        None => jc.rotation is None,
        Some(ch) => track_holds(jc.rotation, ch, (ch.output->0)->Rotations_0@),
    }
    &&& match last_driver(channels, joints, jc.joint, Component::Scale, n) {
        None => jc.scale is None,
        Some(ch) => track_holds(jc.scale, ch, (ch.output->0)->Scales_0@),
    }
}

/// The joint channels hold each driven joint once, with its tracks.
pub open spec fn collapsed(
    out: Seq<JointChannel>,
    channels: Seq<Channel>,
    joints: Seq<usize>,
    n: nat,
) -> bool {
    &&& forall|a: int| 0 <= a < out.len() ==> collects(#[trigger] out[a], channels, joints, n)
    &&& forall|a: int, b: int|
        0 <= a < b < out.len() ==> #[trigger] out[a].joint != #[trigger] out[b].joint
    &&& forall|a: int|
        0 <= a < out.len() ==> driven_by(channels, joints, (#[trigger] out[a]).joint, n)
    &&& forall|i: int|
        0 <= i < n && (#[trigger] target(channels[i], joints)) is Some ==> has_joint(
            out,
            target(channels[i], joints)->0,
        )
}

/// One of the first `n` channels drives the joint.
pub open spec fn driven_by(channels: Seq<Channel>, joints: Seq<usize>, joint: u16, n: nat) -> bool {
    exists|i: int| 0 <= i < n && #[trigger] target(channels[i], joints) == Some(joint)
}

/// The joint is among the joint channels.
pub open spec fn has_joint(out: Seq<JointChannel>, joint: u16) -> bool {
    exists|a: int| 0 <= a < out.len() && (#[trigger] out[a]).joint == joint
}

fn later_of(a: Single, b: Single) -> (r: Single)
    ensures
        r == later(a, b),
{
    if b.is_nan() {
        a
    } else if a.is_nan() || a.lt(b) {
        b
    } else {
        a
    }
}

fn values_of_keys<V: Copy>(interpolation: Interpolation, outputs: &Vec<V>) -> (r: Vec<V>)
    ensures
        r@ == key_values(interpolation, outputs@),
{
    let spline: bool = interpolation == Interpolation::CubicSpline;
    let mut values: Vec<V> = Vec::new();
    let mut i: usize = 0;
    while i < outputs.len()
        invariant
            i <= outputs@.len(),
            spline == (interpolation == Interpolation::CubicSpline),
            values@ == key_values(interpolation, outputs@.take(i as int)),
        decreases outputs@.len() - i,
    {
        if !spline || i % 3 == 1 {
            values.push(outputs[i]);
        }
        i = i + 1;
        assert(values@ =~= key_values(interpolation, outputs@.take(i as int)));
    }
    assert(outputs@.take(i as int) =~= outputs@);
    values
}

fn slot_of(out: &Vec<JointChannel>, joint: u16) -> (r: usize)
    ensures
        r <= out@.len(),
        r < out@.len() ==> out@[r as int].joint == joint,
        r == out@.len() ==> !has_joint(out@, joint),
{
    let mut i: usize = 0;
    while i < out.len()
        invariant
            i <= out@.len(),
            forall|k: int| 0 <= k < i ==> (#[trigger] out@[k]).joint != joint,
        decreases out@.len() - i,
    {
        if out[i].joint == joint {
            return i;
        }
        i = i + 1;
    }
    i
}

/// Nothing among the first `n` channels drives a joint that none of them
/// targets.
proof fn lemma_untargeted(
    channels: Seq<Channel>,
    joints: Seq<usize>,
    joint: u16,
    component: Component,
    n: nat,
)
    requires
        n <= channels.len(),
        forall|i: int| 0 <= i < n ==> #[trigger] target(channels[i], joints) != Some(joint),
    ensures
        last_driver(channels, joints, joint, component, n) is None,
    decreases n,
{
    if n > 0 {
        assert(target(channels[n - 1], joints) != Some(joint));
        lemma_untargeted(channels, joints, joint, component, (n - 1) as nat);
    }
}

/// Gather the channels of an animation into one entry for each joint that they
/// drive, and find the length of the animation. Channels of other nodes are
/// ignored, and so are morph targets.
pub fn collapse_channels(channels: &Vec<Channel>, joints: &Vec<usize>) -> (r: Result<
    (Vec<JointChannel>, Single),
    MeshError,
>)
    ensures
        match r {
            Err(e) => channel_error(channels@, joints@, 0) == Some(e),
            Ok((out, duration)) => {
                &&& channel_error(channels@, joints@, 0) is None
                &&& collapsed(out@, channels@, joints@, channels@.len())
                &&& duration == length_of(channels@, joints@, channels@.len())
            },
        },
{
    let mut out: Vec<JointChannel> = Vec::new();
    let mut duration: Single = single(ZERO);
    let mut i: usize = 0;
    while i < channels.len()
        invariant
            i <= channels@.len(),
            channel_error(channels@, joints@, 0) == channel_error(channels@, joints@, i as int),
            collapsed(out@, channels@, joints@, i as nat),
            duration == length_of(channels@, joints@, i as nat),
        decreases channels@.len() - i,
    {
        let ch: &Channel = &channels[i];
        if let Some(joint) = find_joint(joints, ch.node) {
            assert(target(channels@[i as int], joints@) == Some(joint));
            let times: Vec<Single> = match &ch.times {
                Some(times) => times.clone(),
                None => {
                    return Err(MeshError::MissingInput);
                },
            };
            assert(times@ =~= ch.times->0@);
            if times.len() > 0 {
                duration = later_of(duration, times[times.len() - 1]);
            }
            let linear: bool = ch.interpolation == Interpolation::Linear;
            let ghost before = out@;
            let slot: usize = slot_of(&out, joint);
            if slot == out.len() {
                out.push(JointChannel { joint, translation: None, rotation: None, scale: None });
                proof {
                    assert forall|k: int| 0 <= k < i implies #[trigger] target(
                        channels@[k],
                        joints@,
                    ) != Some(joint) by {
                        if target(channels@[k], joints@) == Some(joint) {
                            assert(has_joint(before, joint));
                        }
                    }
                    lemma_untargeted(channels@, joints@, joint, Component::Translation, i as nat);
                    lemma_untargeted(channels@, joints@, joint, Component::Rotation, i as nat);
                    lemma_untargeted(channels@, joints@, joint, Component::Scale, i as nat);
                }
            }
            let ghost grown = out@;
            assert forall|a: int| 0 <= a < grown.len() implies collects(
                #[trigger] grown[a],
                channels@,
                joints@,
                i as nat,
            ) by {
                if a < before.len() {
                    assert(grown[a] == before[a]);
                }
            }
            match &ch.output {
                None => {
                    return Err(MeshError::MissingOutput);
                },
                Some(ChannelOutput::Translations(values)) => {
                    let values: Vec<Vec3> = values_of_keys(ch.interpolation, values);
                    out[slot].translation = Some(Track { times, values, linear });
                },
                Some(ChannelOutput::Rotations(values)) => {
                    let values: Vec<Quat> = values_of_keys(ch.interpolation, values);
                    out[slot].rotation = Some(Track { times, values, linear });
                },
                Some(ChannelOutput::Scales(values)) => {
                    let values: Vec<Vec3> = values_of_keys(ch.interpolation, values);
                    out[slot].scale = Some(Track { times, values, linear });
                },
                Some(ChannelOutput::MorphTargetWeights) => {},
            }
            proof {
                assert forall|a: int| 0 <= a < out@.len() implies #[trigger] out@[a].joint
                    == grown[a].joint by {}
                assert forall|a: int| 0 <= a < out@.len() implies collects(
                    #[trigger] out@[a],
                    channels@,
                    joints@,
                    (i + 1) as nat,
                ) by {
                    assert(collects(grown[a], channels@, joints@, i as nat));
                    if a != slot {
                        assert(out@[a] == grown[a]);
                        assert(grown[a].joint != grown[slot as int].joint);
                    }
                }
                assert forall|a: int| 0 <= a < out@.len() implies driven_by(
                    channels@,
                    joints@,
                    (#[trigger] out@[a]).joint,
                    (i + 1) as nat,
                ) by {
                    if a != slot {
                        assert(grown[a] == before[a]);
                        let k = choose|k: int|
                            0 <= k < i && #[trigger] target(channels@[k], joints@) == Some(
                                before[a].joint,
                            );
                        assert(target(channels@[k], joints@) == Some(out@[a].joint));
                    } else {
                        assert(target(channels@[i as int], joints@) == Some(out@[a].joint));
                    }
                }
                assert forall|k: int|
                    0 <= k < i + 1 && (#[trigger] target(channels@[k], joints@))
                        is Some implies has_joint(out@, target(channels@[k], joints@)->0) by {
                    if k < i {
                        let a = choose|a: int|
                            0 <= a < before.len() && (#[trigger] before[a]).joint == target(
                                channels@[k],
                                joints@,
                            )->0;
                        assert(out@[a].joint == before[a].joint);
                    } else {
                        assert(out@[slot as int].joint == joint);
                    }
                }
                assert(collapsed(out@, channels@, joints@, (i + 1) as nat));
            }
        } else {
            proof {
                assert forall|a: int| 0 <= a < out@.len() implies driven_by(
                    channels@,
                    joints@,
                    (#[trigger] out@[a]).joint,
                    (i + 1) as nat,
                ) by {
                    let k = choose|k: int|
                        0 <= k < i && #[trigger] target(channels@[k], joints@) == Some(
                            out@[a].joint,
                        );
                    assert(target(channels@[k], joints@) == Some(out@[a].joint));
                }
                assert(collapsed(out@, channels@, joints@, (i + 1) as nat));
            }
        }
        i = i + 1;
    }
    Ok((out, duration))
}

/// An animation of the scene.
#[derive(Debug)]
pub struct AnimationSource {
    pub name: Option<String>,
    pub channels: Vec<Channel>,
}

/// What an animation of the scene becomes.
pub open spec fn is_animation(anim: Animation, source: AnimationSource, joints: Seq<usize>) -> bool {
    &&& anim.name@ == match source.name {
        Some(name) => name@,
        None => "(unnamed)"@,
    }
    &&& anim.duration == length_of(source.channels@, joints, source.channels@.len())
    &&& collapsed(anim.channels@, source.channels@, joints, source.channels@.len())
}

/// What is wrong with the first animation, from `from` on, that is broken.
pub open spec fn animation_error(
    sources: Seq<AnimationSource>,
    joints: Seq<usize>,
    from: int,
) -> Option<MeshError>
    decreases sources.len() - from,
{
    if from >= sources.len() || from < 0 {
        None
    } else if channel_error(sources[from].channels@, joints, 0) is Some {
        channel_error(sources[from].channels@, joints, 0)
    } else {
        animation_error(sources, joints, from + 1)
    }
}

/// The animations of a character.
pub fn build_animations(sources: &Vec<AnimationSource>, joints: &Vec<usize>) -> (r: Result<
    Vec<Animation>,
    MeshError,
>)
    ensures
        match r {
            Err(e) => animation_error(sources@, joints@, 0) == Some(e),
            Ok(out) => {
                &&& animation_error(sources@, joints@, 0) is None
                &&& out@.len() == sources@.len()
                &&& forall|i: int|
                    0 <= i < out@.len() ==> is_animation(#[trigger] out@[i], sources@[i], joints@)
            },
        },
{
    let mut out: Vec<Animation> = Vec::new();
    let mut i: usize = 0;
    while i < sources.len()
        invariant
            i <= sources@.len(),
            out@.len() == i,
            animation_error(sources@, joints@, 0) == animation_error(sources@, joints@, i as int),
            forall|k: int|
                0 <= k < i ==> is_animation(#[trigger] out@[k], sources@[k], joints@),
        decreases sources@.len() - i,
    {
        let name: String = match &sources[i].name {
            Some(name) => name.clone(),
            None => String::from_str("(unnamed)"),
        };
        match collapse_channels(&sources[i].channels, joints) {
            Err(e) => {
                return Err(e);
            },
            Ok((channels, duration)) => {
                out.push(Animation { name, duration, channels });
            },
        }
        i = i + 1;
    }
    Ok(out)
}

} // verus!
