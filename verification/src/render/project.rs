//! Projecting visible splats to the image.

use crate::arith::{
    computes, total, vec_difference, vec_sum, Arith, Op, Sym2, Vec3, HALF, ONE, ZERO,
};
use crate::character::skeleton::Quat;
use crate::render::rasterize::{
    lanes_of, write_projected_splat, Splat, PROJECTED_LANES,
};
use crate::render::splats::{scrub_color, scrubbed, ROTATION_LANE, SCALE_LANE, TRANSFORM_LANES};
use crate::single::{single, Single};
use vstd::prelude::*;

verus! {

/// Largest entry of a covariance, 1e18.
pub const MAX_COVARIANCE: u32 = 0x5d5e_0b6b;

/// What blurs a splat, added to its covariance: 0.1 with and 0.3 without
/// compensation.
pub const MIP_BLUR: u32 = 0x3dcc_cccd;

pub const BLUR: u32 = 0x3e99_999a;

/// A three by three matrix, column by column.
#[derive(Clone, Copy, Debug, PartialEq, Eq, Structural)]
pub struct Mat3 {
    pub c0: Vec3,
    pub c1: Vec3,
    pub c2: Vec3,
}

/// What projecting depends on: the view matrix column by column without its
/// last row, what the model of the camera goes by, the place of the camera, the
/// image in pixels and in tiles, and the splats.
#[derive(Debug, PartialEq, Eq)]
pub struct ProjectUniforms<P, J> {
    pub vm0: Vec3,
    pub vm1: Vec3,
    pub vm2: Vec3,
    pub vm3: Vec3,
    /// Half of the largest field of view that is rendered.
    pub half_max_render_fov: Single,
    pub pinhole_params: P,
    /// Between what the derivative of the projection is held.
    pub jacobian_clamp_limits: J,
    pub camera: Vec3,
    pub img_w: u32,
    pub img_h: u32,
    pub tile_bw: u32,
    pub tile_bh: u32,
    pub sh_degree: u32,
    pub total_splats: u32,
    pub num_visible: u32,
}

impl<P: Copy, J: Copy> Clone for ProjectUniforms<P, J> {
    fn clone(&self) -> (r: ProjectUniforms<P, J>)
        ensures
            r == *self,
    {
        *self
    }
}

impl<P: Copy, J: Copy> Copy for ProjectUniforms<P, J> {

}

impl<P, J> ProjectUniforms<P, J> {
    /// The rotation from the world to the camera.
    pub fn view_rotation(&self) -> (r: Mat3)
        ensures
            r == (Mat3 { c0: self.vm0, c1: self.vm1, c2: self.vm2 }),
    {
        Mat3 { c0: self.vm0, c1: self.vm1, c2: self.vm2 }
    }

    /// How far the camera is shifted against the world.
    pub fn view_translation(&self) -> (r: Vec3)
        ensures
            r == self.vm3,
    {
        self.vm3
    }

    pub fn camera_pos(&self) -> (r: Vec3)
        ensures
            r == self.camera,
    {
        self.camera
    }
}

/// A splat in the world.
#[derive(Clone, Copy, Debug, PartialEq, Eq, Structural)]
pub struct Gaussian {
    pub mean: Vec3,
    pub scale: Vec3,
    /// Its rotation, of any length.
    pub quat: Quat,
}

/// A splat as the camera sees it.
#[derive(Clone, Copy, Debug, PartialEq, Eq, Structural)]
pub struct Look {
    /// Its mean in the space of the camera.
    pub mean: Vec3,
    /// Its covariance in the image.
    pub covariance: Sym2,
    /// Its mean in the image.
    pub x: Single,
    pub y: Single,
    /// Its colour from there, by its coefficients.
    pub color: Vec3,
}

/// A question to the arithmetic of vectors and to the model of the camera.
#[derive(Debug)]
pub enum Sight<P, J, M> {
    /// A vector turned by a matrix.
    Turned(Mat3, Vec3),
    /// A rotation made one long.
    UnitQuat(Quat),
    /// A vector made one long.
    Unit(Vec3),
    /// The covariance in the image of a splat with the given rotation, scales
    /// and mean in the space of the camera, where the camera itself is turned, by
    /// the model of the camera and what it goes by.
    Covariance {
        camera: Mat3,
        quat: Quat,
        scale: Vec3,
        mean: Vec3,
        limits: J,
        pinhole: P,
        model: M,
    },
    /// Where a point in the space of the camera is in the image, by the model of
    /// the camera and what it goes by.
    Projected { point: Vec3, pinhole: P, model: M },
}

/// The answer to a question: as many of these numbers as it has.
#[derive(Clone, Copy, Debug, PartialEq, Eq, Structural)]
pub struct Seen {
    pub a: Single,
    pub b: Single,
    pub c: Single,
    pub d: Single,
}

/// The function that answers accepts every question.
pub open spec fn answers<P, J, M, L: Fn(Sight<P, J, M>) -> Seen>(sight: L) -> bool {
    forall|q: Sight<P, J, M>| #[trigger] call_requires(sight, (q,))
}

/// Whatever `sight` answers is what `h` gives.
pub open spec fn sees<P, J, M, L: Fn(Sight<P, J, M>) -> Seen>(
    sight: L,
    h: spec_fn(Sight<P, J, M>) -> Seen,
) -> bool {
    forall|q: Sight<P, J, M>, r: Seen| #[trigger] call_ensures(sight, (q,), r) ==> r == h(q)
}

/// The function that colours splats accepts every place among the coefficients
/// and every direction.
pub open spec fn paints<C: Fn(&Vec<Single>, usize, Vec3) -> Vec3>(color: C) -> bool {
    forall|coeffs: &Vec<Single>, first: usize, from: Vec3| #[trigger]
        call_requires(color, (coeffs, first, from))
}

/// Whatever `color` returns is what `k` gives: it depends on the coefficients,
/// on the first that belongs to the splat, and on the direction of the look.
pub open spec fn colors<C: Fn(&Vec<Single>, usize, Vec3) -> Vec3>(
    color: C,
    k: spec_fn(Seq<Single>, int, Vec3) -> Vec3,
) -> bool {
    forall|coeffs: &Vec<Single>, first: usize, from: Vec3, r: Vec3| #[trigger]
        call_ensures(color, (coeffs, first, from), r) ==> r == k(coeffs@, first as int, from)
}

/// Lane `k` of the transform of splat `i`.
pub open spec fn transform_lane(transforms: Seq<Single>, i: int, k: int) -> Single {
    transforms[i * TRANSFORM_LANES + k]
}

pub open spec fn mean_at(transforms: Seq<Single>, i: int) -> Vec3 {
    Vec3 {
        x: transform_lane(transforms, i, 0),
        y: transform_lane(transforms, i, 1),
        z: transform_lane(transforms, i, 2),
    }
}

pub open spec fn quat_at(transforms: Seq<Single>, i: int) -> Quat {
    Quat {
        x: transform_lane(transforms, i, ROTATION_LANE as int),
        y: transform_lane(transforms, i, ROTATION_LANE + 1),
        z: transform_lane(transforms, i, ROTATION_LANE + 2),
        w: transform_lane(transforms, i, ROTATION_LANE + 3),
    }
}

pub open spec fn scale_at(g: Arith, transforms: Seq<Single>, i: int) -> Vec3 {
    Vec3 {
        x: g(Op::Exp(transform_lane(transforms, i, SCALE_LANE as int))),
        y: g(Op::Exp(transform_lane(transforms, i, SCALE_LANE + 1))),
        z: g(Op::Exp(transform_lane(transforms, i, SCALE_LANE + 2))),
    }
}

/// The mean of splat `i`.
pub fn read_mean(transforms: &Vec<Single>, i: u32) -> (r: Vec3)
    requires
        (i + 1) * TRANSFORM_LANES <= transforms@.len(),
    ensures
        r == mean_at(transforms@, i as int),
{
    assert(transforms@.len() == transforms.len());
    let base: usize = i as usize * TRANSFORM_LANES;
    Vec3 { x: transforms[base], y: transforms[base + 1], z: transforms[base + 2] }
}

/// The rotation of splat `i`, of any length.
pub fn read_quat_unorm(transforms: &Vec<Single>, i: u32) -> (r: Quat)
    requires
        (i + 1) * TRANSFORM_LANES <= transforms@.len(),
    ensures
        r == quat_at(transforms@, i as int),
{
    assert(transforms@.len() == transforms.len());
    let base: usize = i as usize * TRANSFORM_LANES + ROTATION_LANE;
    Quat {
        x: transforms[base],
        y: transforms[base + 1],
        z: transforms[base + 2],
        w: transforms[base + 3],
    }
}

/// The scales of splat `i`.
pub fn read_scale<F: Fn(Op) -> Single>(f: &F, transforms: &Vec<Single>, i: u32) -> (r: Vec3)
    requires
        total(*f),
        (i + 1) * TRANSFORM_LANES <= transforms@.len(),
    ensures
        forall|g: Arith| #[trigger] computes(*f, g) ==> r == scale_at(g, transforms@, i as int),
{
    assert(transforms@.len() == transforms.len());
    let base: usize = i as usize * TRANSFORM_LANES + SCALE_LANE;
    Vec3 {
        x: f(Op::Exp(transforms[base])),
        y: f(Op::Exp(transforms[base + 1])),
        z: f(Op::Exp(transforms[base + 2])),
    }
}

pub open spec fn first_three(seen: Seen) -> Vec3 {
    Vec3 { x: seen.a, y: seen.b, z: seen.c }
}

/// A point of the world in the space of the camera.
pub open spec fn in_camera<P, J, M>(
    g: Arith,
    h: spec_fn(Sight<P, J, M>) -> Seen,
    mean: Vec3,
    u: ProjectUniforms<P, J>,
) -> Vec3 {
    let rotation = Mat3 { c0: u.vm0, c1: u.vm1, c2: u.vm2 };
    vec_sum(g, first_three(h(Sight::Turned(rotation, mean))), u.vm3)
}

/// Take a point of the world to the space of the camera.
pub fn world_to_cam<
    P: Copy,
    J: Copy,
    M: Copy,
    F: Fn(Op) -> Single,
    L: Fn(Sight<P, J, M>) -> Seen,
>(
    f: &F,
    sight: &L,
    mean: Vec3,
    u: &ProjectUniforms<P, J>,
) -> (r: Vec3)
    requires
        total(*f),
        answers(*sight),
    ensures
        forall|g: Arith, h: spec_fn(Sight<P, J, M>) -> Seen|
            #![trigger computes(*f, g), sees(*sight, h)]
            computes(*f, g) && sees(*sight, h) ==> r == in_camera(g, h, mean, *u),
{
    let turned: Seen = sight(Sight::Turned(u.view_rotation(), mean));
    let turned: Vec3 = Vec3 { x: turned.a, y: turned.b, z: turned.c };
    turned.plus(f, u.view_translation())
}

/// The mean of splat `i` in the space of the camera.
pub fn read_mean_viewspace<
    P: Copy,
    J: Copy,
    M: Copy,
    F: Fn(Op) -> Single,
    L: Fn(Sight<P, J, M>) -> Seen,
>(
    f: &F,
    sight: &L,
    transforms: &Vec<Single>,
    i: u32,
    u: &ProjectUniforms<P, J>,
) -> (r: Vec3)
    requires
        total(*f),
        answers(*sight),
        (i + 1) * TRANSFORM_LANES <= transforms@.len(),
    ensures
        forall|g: Arith, h: spec_fn(Sight<P, J, M>) -> Seen|
            #![trigger computes(*f, g), sees(*sight, h)]
            computes(*f, g) && sees(*sight, h) ==> r == in_camera(
                g,
                h,
                mean_at(transforms@, i as int),
                *u,
            ),
{
    let mean: Vec3 = read_mean(transforms, i);
    world_to_cam(f, sight, mean, u)
}

/// A covariance scaled down so that no entry is too large.
pub open spec fn limited(g: Arith, c: Sym2) -> Sym2 {
    let largest = g(Op::LargestEntry(c));
    let k = if single(MAX_COVARIANCE).below(largest) {
        g(Op::Div(single(MAX_COVARIANCE), largest))
    } else {
        single(ONE)
    };
    Sym2 { c00: g(Op::Mul(c.c00, k)), c01: g(Op::Mul(c.c01, k)), c11: g(Op::Mul(c.c11, k)) }
}

/// Scale a covariance down so that its determinant stays in range.
pub fn limit_cov2d<F: Fn(Op) -> Single>(f: &F, c: Sym2) -> (r: Sym2)
    requires
        total(*f),
    ensures
        forall|g: Arith| #[trigger] computes(*f, g) ==> r == limited(g, c),
{
    let largest: Single = f(Op::LargestEntry(c));
    let k: Single = if largest.gt(single(MAX_COVARIANCE)) {
        f(Op::Div(single(MAX_COVARIANCE), largest))
    } else {
        single(ONE)
    };
    Sym2 { c00: f(Op::Mul(c.c00, k)), c01: f(Op::Mul(c.c01, k)), c11: f(Op::Mul(c.c11, k)) }
}

/// The covariance of a splat in the image, with no entry too large.
pub open spec fn image_covariance<P, J, M>(
    g: Arith,
    h: spec_fn(Sight<P, J, M>) -> Seen,
    scale: Vec3,
    quat: Quat,
    mean: Vec3,
    u: ProjectUniforms<P, J>,
    model: M,
) -> Sym2 {
    let camera = Mat3 { c0: u.vm0, c1: u.vm1, c2: u.vm2 };
    let raw = h(
        Sight::Covariance {
            camera,
            quat,
            scale,
            mean,
            limits: u.jacobian_clamp_limits,
            pinhole: u.pinhole_params,
            model,
        },
    );
    limited(g, Sym2 { c00: raw.a, c01: raw.b, c11: raw.c })
}

/// The covariance in the image of a splat with the given scales, rotation and
/// mean in the space of the camera.
pub fn calc_cov2d<
    P: Copy,
    J: Copy,
    M: Copy,
    F: Fn(Op) -> Single,
    L: Fn(Sight<P, J, M>) -> Seen,
>(
    f: &F,
    sight: &L,
    scale: Vec3,
    quat: Quat,
    mean_c: Vec3,
    u: &ProjectUniforms<P, J>,
    model: M,
) -> (r: Sym2)
    requires
        total(*f),
        answers(*sight),
    ensures
        forall|g: Arith, h: spec_fn(Sight<P, J, M>) -> Seen|
            #![trigger computes(*f, g), sees(*sight, h)]
            computes(*f, g) && sees(*sight, h) ==> r == image_covariance(
                g,
                h,
                scale,
                quat,
                mean_c,
                *u,
                model,
            ),
{
    let raw: Seen = sight(
        Sight::Covariance {
            camera: u.view_rotation(),
            quat,
            scale,
            mean: mean_c,
            limits: u.jacobian_clamp_limits,
            pinhole: u.pinhole_params,
            model,
        },
    );
    limit_cov2d(f, Sym2 { c00: raw.a, c01: raw.b, c11: raw.c })
}

/// A covariance with blur.
pub open spec fn blurred(g: Arith, c: Sym2, mip: bool) -> Sym2 {
    let blur = single(
        if mip {
            MIP_BLUR
        } else {
            BLUR
        },
    );
    Sym2 { c00: g(Op::Add(c.c00, blur)), c01: c.c01, c11: g(Op::Add(c.c11, blur)) }
}

/// What the opacity is multiplied with so that blur does not brighten a splat.
pub open spec fn compensation(g: Arith, c: Sym2, mip: bool) -> Single {
    if mip {
        let raw = g(Op::Determinant(c));
        let held = if single(ZERO).below(raw) {
            raw
        } else {
            single(ZERO)
        };
        g(Op::Sqrt(g(Op::Div(held, g(Op::Determinant(blurred(g, c, mip)))))))
    } else {
        single(ONE)
    }
}

/// Blur a covariance, and tell what the opacity is to be multiplied with.
pub fn compensate_cov2d<F: Fn(Op) -> Single>(f: &F, c: Sym2, mip_splatting: bool) -> (r: (
    Sym2,
    Single,
))
    requires
        total(*f),
    ensures
        forall|g: Arith| #[trigger]
            computes(*f, g) ==> r == (
                blurred(g, c, mip_splatting),
                compensation(g, c, mip_splatting),
            ),
{
    let blur: Single = if mip_splatting {
        single(MIP_BLUR)
    } else {
        single(BLUR)
    };
    let out: Sym2 = Sym2 {
        c00: f(Op::Add(c.c00, blur)),
        c01: c.c01,
        c11: f(Op::Add(c.c11, blur)),
    };
    if !mip_splatting {
        return (out, single(ONE));
    }
    let raw: Single = f(Op::Determinant(c));
    let held: Single = if raw.gt(single(ZERO)) {
        raw
    } else {
        single(ZERO)
    };
    let whole: Single = f(Op::Determinant(out));
    let ratio: Single = f(Op::Div(held, whole));
    (out, f(Op::Sqrt(ratio)))
}

/// The splat `i` in the world.
pub open spec fn gaussian_at(g: Arith, transforms: Seq<Single>, i: int) -> Gaussian {
    Gaussian {
        mean: mean_at(transforms, i),
        scale: scale_at(g, transforms, i),
        quat: quat_at(transforms, i),
    }
}

/// How the camera sees a splat whose coefficients begin at `first`.
pub open spec fn look_of<P, J, M>(
    g: Arith,
    h: spec_fn(Sight<P, J, M>) -> Seen,
    k: spec_fn(Seq<Single>, int, Vec3) -> Vec3,
    gaussian: Gaussian,
    coeffs: Seq<Single>,
    first: int,
    u: ProjectUniforms<P, J>,
    model: M,
) -> Look {
    let mean = in_camera(g, h, gaussian.mean, u);
    let unit = h(Sight::UnitQuat(gaussian.quat));
    let quat = Quat { x: unit.a, y: unit.b, z: unit.c, w: unit.d };
    let place = h(Sight::Projected { point: mean, pinhole: u.pinhole_params, model });
    let from = first_three(h(Sight::Unit(vec_difference(g, gaussian.mean, u.camera))));
    Look {
        mean,
        covariance: image_covariance(g, h, gaussian.scale, quat, mean, u, model),
        x: place.a,
        y: place.b,
        color: k(coeffs, first, from),
    }
}

/// See how the camera sees a splat whose coefficients begin at `first`.
pub fn look_at<
    P: Copy,
    J: Copy,
    M: Copy,
    F: Fn(Op) -> Single,
    L: Fn(Sight<P, J, M>) -> Seen,
    C: Fn(&Vec<Single>, usize, Vec3) -> Vec3,
>(
    f: &F,
    sight: &L,
    color: &C,
    gaussian: Gaussian,
    coeffs: &Vec<Single>,
    first: usize,
    u: &ProjectUniforms<P, J>,
    model: M,
) -> (r: Look)
    requires
        total(*f),
        answers(*sight),
        paints(*color),
    ensures
        forall|
            g: Arith,
            h: spec_fn(Sight<P, J, M>) -> Seen,
            k: spec_fn(Seq<Single>, int, Vec3) -> Vec3,
        |
            #![trigger computes(*f, g), sees(*sight, h), colors(*color, k)]
            computes(*f, g) && sees(*sight, h) && colors(*color, k) ==> r == look_of(
                g,
                h,
                k,
                gaussian,
                coeffs@,
                first as int,
                *u,
                model,
            ),
{
    let unit: Seen = sight(Sight::UnitQuat(gaussian.quat));
    let quat: Quat = Quat { x: unit.a, y: unit.b, z: unit.c, w: unit.d };
    let mean: Vec3 = world_to_cam(f, sight, gaussian.mean, u);
    let covariance: Sym2 = calc_cov2d(f, sight, gaussian.scale, quat, mean, u, model);
    let place: Seen = sight(Sight::Projected { point: mean, pinhole: u.pinhole_params, model });
    let way: Vec3 = gaussian.mean.minus(f, u.camera_pos());
    let from: Seen = sight(Sight::Unit(way));
    let from: Vec3 = Vec3 { x: from.a, y: from.b, z: from.c };
    Look { mean, covariance, x: place.a, y: place.b, color: color(coeffs, first, from) }
}

/// A colour channel: coefficients are centred on one half.
pub open spec fn shown_channel(g: Arith, raw: Single) -> Single {
    scrubbed(g(Op::Add(raw, single(HALF))))
}

/// The splat in the image that the camera's look gives.
pub open spec fn projected_splat(g: Arith, look: Look, raw_opacity: Single, mip: bool) -> Splat {
    let cov = blurred(g, look.covariance, mip);
    Splat {
        xy_x: look.x,
        xy_y: look.y,
        conic_x: g(Op::Inverse00(cov)),
        conic_y: g(Op::Inverse01(cov)),
        conic_z: g(Op::Inverse11(cov)),
        color_a: g(Op::Mul(g(Op::Sigmoid(raw_opacity)), compensation(g, look.covariance, mip))),
        color_r: shown_channel(g, look.color.x),
        color_g: shown_channel(g, look.color.y),
        color_b: shown_channel(g, look.color.z),
        depth: look.mean.z,
    }
}

/// The splat in the image that the camera's look gives.
pub fn project_splat<F: Fn(Op) -> Single>(f: &F, look: Look, raw_opacity: Single, mip: bool) -> (r:
    Splat)
    requires
        total(*f),
    ensures
        forall|g: Arith| #[trigger]
            computes(*f, g) ==> r == projected_splat(g, look, raw_opacity, mip),
{
    let (cov, compensation): (Sym2, Single) = compensate_cov2d(f, look.covariance, mip);
    let opacity: Single = f(Op::Sigmoid(raw_opacity));
    let red: Single = f(Op::Add(look.color.x, single(HALF)));
    let green: Single = f(Op::Add(look.color.y, single(HALF)));
    let blue: Single = f(Op::Add(look.color.z, single(HALF)));
    Splat {
        xy_x: look.x,
        xy_y: look.y,
        conic_x: f(Op::Inverse00(cov)),
        conic_y: f(Op::Inverse01(cov)),
        conic_z: f(Op::Inverse11(cov)),
        color_a: f(Op::Mul(opacity, compensation)),
        color_r: scrub_color(red),
        color_g: scrub_color(green),
        color_b: scrub_color(blue),
        depth: look.mean.z,
    }
}

/// What projecting reads.
pub struct ProjectInput {
    pub transforms: Vec<Single>,
    pub coeffs: Vec<Single>,
    /// Coefficients of a splat, of three channels each.
    pub coeff_count: usize,
    pub raw_opacities: Vec<Single>,
    /// The visible splats among all splats.
    pub global_from_compact_gid: Vec<u32>,
}

impl ProjectInput {
    /// All that splat `i` needs is there.
    pub open spec fn holds(self, i: int) -> bool {
        &&& (i + 1) * TRANSFORM_LANES <= self.transforms@.len()
        &&& (i + 1) * (self.coeff_count * 3) <= self.coeffs@.len()
        &&& i < self.raw_opacities@.len()
    }

    /// All visible splats are there.
    pub open spec fn wf(self, num_visible: u32) -> bool {
        &&& num_visible <= self.global_from_compact_gid@.len()
        &&& forall|c: int|
            0 <= c < num_visible ==> self.holds(
                #[trigger] self.global_from_compact_gid@[c] as int,
            )
    }

    /// The visible splat `compact_gid` in the image.
    pub open spec fn projected<P, J, M>(
        self,
        g: Arith,
        h: spec_fn(Sight<P, J, M>) -> Seen,
        k: spec_fn(Seq<Single>, int, Vec3) -> Vec3,
        u: ProjectUniforms<P, J>,
        model: M,
        mip: bool,
        compact_gid: int,
    ) -> Splat {
        let i = self.global_from_compact_gid@[compact_gid] as int;
        projected_splat(
            g,
            look_of(
                g,
                h,
                k,
                gaussian_at(g, self.transforms@, i),
                self.coeffs@,
                i * (self.coeff_count * 3),
                u,
                model,
            ),
            self.raw_opacities@[i],
            mip,
        )
    }
}

/// Project the visible splat `compact_gid` and store it. Numbers beyond the
/// visible splats do nothing.
pub fn project_visible_kernel<
    P: Copy,
    J: Copy,
    M: Copy,
    F: Fn(Op) -> Single,
    L: Fn(Sight<P, J, M>) -> Seen,
    C: Fn(&Vec<Single>, usize, Vec3) -> Vec3,
>(
    f: &F,
    sight: &L,
    color: &C,
    input: &ProjectInput,
    projected: &mut Vec<Single>,
    u: &ProjectUniforms<P, J>,
    compact_gid: u32,
    mip_splatting: bool,
    model: M,
)
    requires
        total(*f),
        answers(*sight),
        paints(*color),
        input.wf(u.num_visible),
        u.num_visible * PROJECTED_LANES <= old(projected)@.len(),
    ensures
        final(projected)@.len() == old(projected)@.len(),
        compact_gid >= u.num_visible ==> final(projected)@ == old(projected)@,
        forall|n: int|
            0 <= n < old(projected)@.len() && !(compact_gid * PROJECTED_LANES <= n < (compact_gid
                + 1) * PROJECTED_LANES) ==> #[trigger] final(projected)@[n] == old(projected)@[n],
        compact_gid < u.num_visible ==> forall|
            g: Arith,
            h: spec_fn(Sight<P, J, M>) -> Seen,
            k: spec_fn(Seq<Single>, int, Vec3) -> Vec3,
        |
            #![trigger computes(*f, g), sees(*sight, h), colors(*color, k)]
            computes(*f, g) && sees(*sight, h) && colors(*color, k) ==> final(projected)@.subrange(
                compact_gid * PROJECTED_LANES,
                (compact_gid + 1) * PROJECTED_LANES,
            ) == lanes_of(input.projected(g, h, k, *u, model, mip_splatting, compact_gid as int)),
{
    if compact_gid >= u.num_visible {
        return ;
    }
    let i: u32 = input.global_from_compact_gid[compact_gid as usize];
    assert(input.holds(i as int));
    let gaussian: Gaussian = Gaussian {
        mean: read_mean(&input.transforms, i),
        scale: read_scale(f, &input.transforms, i),
        quat: read_quat_unorm(&input.transforms, i),
    };
    proof {
        let row = input.coeff_count * 3;
        assert(input.coeffs@.len() == input.coeffs.len());
        assert((i + 1) * row == i * row + row) by (nonlinear_arith);
        assert(row <= (i + 1) * row) by (nonlinear_arith)
            requires
                0 <= row,
                0 <= i,
        ;
        assert(0 <= i * row) by (nonlinear_arith)
            requires
                0 <= row,
                0 <= i,
        ;
    }
    let first: usize = i as usize * (input.coeff_count * 3);
    let seen: Look = look_at(f, sight, color, gaussian, &input.coeffs, first, u, model);
    let splat: Splat = project_splat(f, seen, input.raw_opacities[i as usize], mip_splatting);
    write_projected_splat(projected, compact_gid, splat);
    assert(projected@.subrange(
        compact_gid * PROJECTED_LANES,
        (compact_gid + 1) * PROJECTED_LANES,
    ) =~= lanes_of(splat));
}

} // verus!
