//! Putting a character together.

use crate::arith::{ONE, ZERO};
use crate::character::gltf::{
    ancestry, animation_error, armature_transform, build_animations, build_joints,
    complete_primitive, is_animation, is_joint, lacking, stacked, up, AnimationSource, MeshData,
    MeshError, Node, PrimitiveData, Quad, Uv,
};
use crate::character::image::{decode_image, expanded, ImageData, PixelFormat, TextureImage};
use crate::character::skeleton::{
    builds, makes, multiplies, products, Animation, Joint, JointChannel, Placement, Skeleton,
};
use crate::character::track::Track;
use crate::single::{single, Single};
use vstd::prelude::*;

verus! {

/// A normal texture: which image, and how strongly it bends the normals.
#[derive(Clone, Copy, Debug, PartialEq, Eq, Structural)]
pub struct NormalTexture {
    pub image: usize,
    pub scale: Single,
}

/// The material of a primitive, by the images it uses.
#[derive(Clone, Copy, Debug, PartialEq, Eq, Structural)]
pub struct MaterialSource {
    pub base_color: Option<usize>,
    pub normal: Option<NormalTexture>,
    pub base_color_factor: Quad,
}

/// A material ready for the graphics card.
#[derive(Debug)]
pub struct Material {
    /// None stands for the colour factor alone.
    pub base_color: Option<TextureImage>,
    /// None stands for a flat surface.
    pub normal: Option<TextureImage>,
    pub base_color_factor: Quad,
    pub normal_scale: Single,
}

/// What is read of a character.
#[derive(Debug)]
pub struct MeshSource<M> {
    pub primitive: PrimitiveData,
    pub material: MaterialSource,
    pub images: Vec<ImageData>,
    pub nodes: Vec<Node>,
    /// Nodes that are the joints of the skin.
    pub joints: Vec<usize>,
    pub inverse_binds: Option<Vec<M>>,
    pub animations: Vec<AnimationSource>,
    /// Where the character comes from.
    pub source: String,
}

/// A character.
#[derive(Debug)]
pub struct MeshAsset<M> {
    pub mesh: MeshData,
    pub skeleton: Skeleton<M>,
    pub animations: Vec<Animation>,
    pub material: Material,
    pub source: String,
}

/// The image, brought to four bytes for each pixel, if it is there and its
/// format is understood.
pub open spec fn is_texture(
    texture: Option<TextureImage>,
    images: Seq<ImageData>,
    index: Option<usize>,
) -> bool {
    match index {
        None => texture is None,
        Some(i) => if i < images.len() && images[i as int].format != PixelFormat::Wide {
            texture matches Some(t) && t.width == images[i as int].width && t.height
                == images[i as int].height && t.rgba@ == expanded(
                images[i as int].format,
                images[i as int].pixels@,
            )
        } else {
            texture is None
        },
    }
}

pub open spec fn is_material(m: Material, source: MaterialSource, images: Seq<ImageData>) -> bool {
    &&& is_texture(m.base_color, images, source.base_color)
    &&& is_texture(
        m.normal,
        images,
        match source.normal {
            Some(normal) => Some(normal.image),
            None => None,
        },
    )
    &&& m.base_color_factor == source.base_color_factor
    &&& m.normal_scale == match source.normal {
        Some(normal) => normal.scale,
        None => single(ONE),
    }
}

/// Decode the images of a material.
pub fn build_material(source: &MaterialSource, images: &Vec<ImageData>) -> (r: Material)
    ensures
        is_material(r, *source, images@),
{
    let base_color: Option<TextureImage> = match source.base_color {
        Some(index) => decode_image(images, index),
        None => None,
    };
    let (normal, normal_scale): (Option<TextureImage>, Single) = match source.normal {
        Some(normal) => (decode_image(images, normal.image), normal.scale),
        None => (None, single(ONE)),
    };
    Material { base_color, normal, base_color_factor: source.base_color_factor, normal_scale }
}

impl<M> MeshSource<M> {
    /// The joints are nodes.
    pub open spec fn wf(self) -> bool {
        forall|i: int| 0 <= i < self.joints@.len() ==> #[trigger] self.joints@[i] < self.nodes@.len()
    }

    /// There are fewer inverse bind matrices than joints.
    pub open spec fn lacks_binds(self) -> bool {
        self.inverse_binds matches Some(binds) && binds@.len() < self.joints@.len()
    }

    /// What is wrong with the source, the first thing first.
    pub open spec fn flaw(self) -> Option<MeshError> {
        if lacking(self.primitive) is Some {
            lacking(self.primitive)
        } else if self.lacks_binds() {
            Some(MeshError::MissingInverseBind)
        } else if animation_error(self.animations@, self.joints@, 0) is Some {
            animation_error(self.animations@, self.joints@, 0)
        } else if self.joints@.len() > 0 && ancestry(
            self.nodes@,
            self.joints@[0] as int,
            self.nodes@.len(),
        ) is None {
            Some(MeshError::EndlessAncestry)
        } else {
            None
        }
    }
}

/// Put a character together. Tangents that the primitive lacks are left to be
/// made.
pub fn assemble_mesh<M: Copy, B: Fn(Placement) -> M, P: Fn(M, M) -> M>(
    source: MeshSource<M>,
    build: &B,
    product: &P,
    identity: M,
) -> (r: Result<MeshAsset<M>, MeshError>)
    requires
        builds::<M, B>(*build),
        multiplies::<M, P>(*product),
        source.wf(),
    ensures
        source.flaw() matches Some(error) ==> r == Err::<MeshAsset<M>, MeshError>(error),
        source.flaw() is None ==> r.is_ok(),
        r matches Ok(asset) ==> {
            &&& asset.mesh.positions == source.primitive.positions->0
            &&& asset.mesh.joints == source.primitive.joints->0
            &&& asset.mesh.weights == source.primitive.weights->0
            &&& asset.mesh.indices == source.primitive.indices->0
            &&& asset.mesh.tangents == source.primitive.tangents
            &&& asset.mesh.normals@ == match source.primitive.normals {
                Some(normals) => normals@,
                None => Seq::new(
                    asset.mesh.positions@.len(),
                    |i: int| up(),
                ),
            }
            &&& asset.mesh.texcoords@ == match source.primitive.texcoords {
                Some(texcoords) => texcoords@,
                None => Seq::new(
                    asset.mesh.positions@.len(),
                    |i: int|
                        Uv {
                            u: single(ZERO),
                            v: single(ZERO),
                        },
                ),
            }
            &&& is_material(asset.material, source.material, source.images@)
            &&& asset.skeleton.joints@.len() == source.joints@.len()
            &&& forall|i: int|
                0 <= i < source.joints@.len() ==> is_joint(
                    #[trigger] asset.skeleton.joints@[i],
                    source.nodes@,
                    source.joints@,
                    i,
                    match source.inverse_binds {
                        Some(binds) => binds@[i],
                        None => identity,
                    },
                )
            &&& asset.animations@.len() == source.animations@.len()
            &&& forall|i: int|
                0 <= i < source.animations@.len() ==> is_animation(
                    #[trigger] asset.animations@[i],
                    source.animations@[i],
                    source.joints@,
                )
            &&& source.joints@.len() == 0 ==> asset.skeleton.armature == identity
            &&& source.joints@.len() > 0 ==> forall|
                m: spec_fn(Placement) -> M,
                h: spec_fn(M, M) -> M,
            |
                #![trigger makes(*build, m), products(*product, h)]
                makes(*build, m) && products(*product, h) ==> asset.skeleton.armature == stacked(
                    source.nodes@,
                    ancestry(source.nodes@, source.joints@[0] as int, source.nodes@.len())->0,
                    m,
                    h,
                    identity,
                )
            &&& asset.source@ == source.source@
        },
{
    let mesh: MeshData = match complete_primitive(source.primitive) {
        Ok(mesh) => mesh,
        Err(e) => {
            return Err(e);
        },
    };
    let material: Material = build_material(&source.material, &source.images);
    let joints: Vec<Joint<M>> = match build_joints(
        &source.nodes,
        &source.joints,
        &source.inverse_binds,
        identity,
    ) {
        Ok(joints) => joints,
        Err(e) => {
            return Err(e);
        },
    };
    let animations: Vec<Animation> = match build_animations(&source.animations, &source.joints) {
        Ok(animations) => animations,
        Err(e) => {
            return Err(e);
        },
    };
    let armature: M = match armature_transform(
        &source.nodes,
        &source.joints,
        build,
        product,
        identity,
    ) {
        Ok(armature) => armature,
        Err(e) => {
            return Err(e);
        },
    };
    Ok(
        MeshAsset {
            mesh,
            skeleton: Skeleton { joints, armature },
            animations,
            material,
            source: source.source,
        },
    )
}

/// A copy of a track.
fn copy_track<V: Copy>(track: &Track<V>) -> (r:
    Track<V>)
    ensures
        r.times@ == track.times@,
        r.values@ == track.values@,
        r.linear == track.linear,
{
    let mut times: Vec<Single> = Vec::new();
    let mut i: usize = 0;
    while i < track.times.len()
        invariant
            i <= track.times@.len(),
            times@ == track.times@.take(i as int),
        decreases track.times@.len() - i,
    {
        times.push(track.times[i]);
        i = i + 1;
        assert(times@ =~= track.times@.take(i as int));
    }
    assert(times@ =~= track.times@);
    let mut values: Vec<V> = Vec::new();
    let mut k: usize = 0;
    while k < track.values.len()
        invariant
            k <= track.values@.len(),
            values@ == track.values@.take(k as int),
        decreases track.values@.len() - k,
    {
        values.push(track.values[k]);
        k = k + 1;
        assert(values@ =~= track.values@.take(k as int));
    }
    assert(values@ =~= track.values@);
    Track { times, values, linear: track.linear }
}

fn copy_optional<V: Copy>(track: &Option<Track<V>>) -> (r: Option<
    Track<V>,
>)
    ensures
        same_track(*track, r),
{
    match track {
        Some(track) => Some(copy_track(track)),
        None => None,
    }
}

/// Two tracks hold the same keys.
pub open spec fn same_track<V>(
    a: Option<Track<V>>,
    b: Option<Track<V>>,
) -> bool {
    match (a, b) {
        (Some(a), Some(b)) => a.times@ == b.times@ && a.values@ == b.values@ && a.linear
            == b.linear,
        (None, None) => true,
        _ => false,
    }
}

impl<M> Skeleton<M> {
    /// The joint exists and has no parent.
    pub open spec fn root(self, joint: int) -> bool {
        0 <= joint < self.joints@.len() && self.joints@[joint].parent is None
    }

    /// The animation without the translation of root joints, for a character
    /// whose place is driven from elsewhere.
    pub fn strip_root_motion(&self, anim: &Animation) -> (r: Animation)
        ensures
            r.name@ == anim.name@,
            r.duration == anim.duration,
            r.channels@.len() == anim.channels@.len(),
            forall|i: int|
                0 <= i < anim.channels@.len() ==> {
                    let a = anim.channels@[i];
                    let b = #[trigger] r.channels@[i];
                    &&& b.joint == a.joint
                    &&& self.root(a.joint as int) ==> b.translation is None
                    &&& !self.root(a.joint as int) ==> same_track(a.translation, b.translation)
                    &&& same_track(a.rotation, b.rotation)
                    &&& same_track(a.scale, b.scale)
                },
    {
        let mut channels: Vec<JointChannel> = Vec::new();
        let mut i: usize = 0;
        while i < anim.channels.len()
            invariant
                i <= anim.channels@.len(),
                channels@.len() == i,
                forall|k: int|
                    0 <= k < i ==> {
                        let a = anim.channels@[k];
                        let b = #[trigger] channels@[k];
                        &&& b.joint == a.joint
                        &&& self.root(a.joint as int) ==> b.translation is None
                        &&& !self.root(a.joint as int) ==> same_track(a.translation, b.translation)
                        &&& same_track(a.rotation, b.rotation)
                        &&& same_track(a.scale, b.scale)
                    },
            decreases anim.channels@.len() - i,
        {
            let ch: &JointChannel = &anim.channels[i];
            let root: bool = (ch.joint as usize) < self.joints.len()
                && self.joints[ch.joint as usize].parent.is_none();
            channels.push(
                JointChannel {
                    joint: ch.joint,
                    translation: if root {
                        None
                    } else {
                        copy_optional(&ch.translation)
                    },
                    rotation: copy_optional(&ch.rotation),
                    scale: copy_optional(&ch.scale),
                },
            );
            i = i + 1;
        }
        Animation { name: anim.name.clone(), duration: anim.duration, channels }
    }
}

} // verus!
