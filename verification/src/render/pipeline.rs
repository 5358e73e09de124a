//! Rendering splats, and what is handed to the graphics card for it.

use crate::arith::{computes, total, Arith, Op, Vec3};
use crate::render::aux::{CountError, RenderAux, RenderAuxInner, RenderOutput};
use crate::render::mode::{RasterPass, SplatRenderMode, TextureMode};
use crate::render::splats::{scaled_lane, Splats, TRANSFORM_LANES};
use crate::single::Single;
use vstd::prelude::*;

verus! {

/// Numbers in rows of equal width.
#[derive(Debug)]
pub struct Rows {
    pub values: Vec<Single>,
    pub width: usize,
}

/// What a render is asked for. `K` is a camera and `A` holds the parameters of
/// the splats.
pub struct RenderCall<K, A> {
    pub camera: K,
    pub img_w: u32,
    pub img_h: u32,
    pub transforms: A,
    pub sh_coeffs: A,
    pub raw_opacities: A,
    pub render_mode: SplatRenderMode,
    pub background: Vec3,
    pub pass: RasterPass,
}

/// The kind of the numbers of a tensor.
#[derive(Clone, Copy, Debug, PartialEq, Eq, Structural)]
pub enum DType {
    F32,
    U32,
}

/// A render of splats with their scales multiplied asks for these parameters.
pub open spec fn asks_for<K, F: Fn(Op) -> Single>(
    call: RenderCall<K, Rows>,
    f: F,
    splats: Splats,
    splat_scale: Option<Single>,
    texture_mode: TextureMode,
) -> bool {
    &&& call.transforms.width == TRANSFORM_LANES
    &&& call.transforms.values@.len() == splats.transforms@.len()
    &&& forall|g: Arith, i: int|
        #![trigger computes(f, g), call.transforms.values@[i]]
        computes(f, g) && 0 <= i < splats.transforms@.len() ==> call.transforms.values@[i]
            == scaled_lane(g, splats.transforms@[i], i % TRANSFORM_LANES as int, splat_scale)
    &&& call.sh_coeffs.values@ == splats.sh_coeffs@
    &&& call.sh_coeffs.width == splats.coeff_count * 3
    &&& call.raw_opacities.values@ == splats.raw_opacities@
    &&& call.raw_opacities.width == 1
    &&& call.render_mode == if splats.render_mip {
        SplatRenderMode::Mip
    } else {
        SplatRenderMode::Default
    }
    &&& call.pass == if texture_mode == TextureMode::Float {
        RasterPass::Backward
    } else {
        RasterPass::Forward
    }
}

/// The image and what is told besides are those of the render.
pub open spec fn is_told<T, I, P, L>(
    image: T,
    aux: RenderAux<T, I>,
    out: RenderOutput<T, I, P, L>,
) -> bool {
    &&& image == out.out_img
    &&& aux == (RenderAux {
        num_visible: out.aux.num_visible,
        num_intersections: out.aux.num_intersections,
        visible: out.aux.visible,
        max_radius: out.aux.max_radius,
        tile_offsets: out.aux.tile_offsets,
        img_w: out.aux.img_w,
        img_h: out.aux.img_h,
        depth_img: out.depth_img,
    })
}

/// Hand on what a render gave, unless its counts cannot be.
pub fn tell<T, I, P, L>(out: RenderOutput<T, I, P, L>) -> (r: Result<
    (T, RenderAux<T, I>),
    CountError,
>)
    ensures
        match out.flaw() {
            Some(error) => r == Err::<(T, RenderAux<T, I>), CountError>(error),
            None => r matches Ok((image, aux)) && is_told(image, aux, out),
        },
{
    match out.validate_counts() {
        Ok(_) => {},
        Err(e) => {
            return Err(e);
        },
    }
    let aux: RenderAux<T, I> = RenderAux {
        num_visible: out.aux.num_visible,
        num_intersections: out.aux.num_intersections,
        visible: out.aux.visible,
        max_radius: out.aux.max_radius,
        tile_offsets: out.aux.tile_offsets,
        img_w: out.aux.img_w,
        img_h: out.aux.img_h,
        depth_img: out.depth_img,
    };
    Ok((out.out_img, aux))
}

/// Render splats, each scaled by `splat_scale` where there is one. `render` does
/// the work.
pub fn render_splats<
    F: Fn(Op) -> Single,
    K,
    T,
    I,
    P,
    L,
    R: Fn(RenderCall<K, Rows>) -> RenderOutput<T, I, P, L>,
>(
    f: &F,
    render: &R,
    splats: Splats,
    camera: K,
    img_size: (u32, u32),
    background: Vec3,
    splat_scale: Option<Single>,
    texture_mode: TextureMode,
) -> (r: Result<(T, RenderAux<T, I>), CountError>)
    requires
        total(*f),
        splats.coeff_count * 3 <= usize::MAX,
        forall|call: RenderCall<K, Rows>| #[trigger] call_requires(*render, (call,)),
    ensures
        exists|call: RenderCall<K, Rows>, out: RenderOutput<T, I, P, L>| #[trigger]
            call_ensures(*render, (call,), out) && {
                &&& asks_for(call, *f, splats, splat_scale, texture_mode)
                &&& call.camera == camera
                &&& (call.img_w, call.img_h) == img_size
                &&& call.background == background
                &&& match out.flaw() {
                    Some(error) => r == Err::<(T, RenderAux<T, I>), CountError>(error),
                    None => r matches Ok((image, aux)) && is_told(image, aux, out),
                }
            },
{
    let transforms: Vec<Single> = splats.scaled_transforms(f, splat_scale);
    let width: usize = splats.coeff_count * 3;
    let call: RenderCall<K, Rows> = RenderCall {
        camera,
        img_w: img_size.0,
        img_h: img_size.1,
        transforms: Rows { values: transforms, width: TRANSFORM_LANES },
        sh_coeffs: Rows { values: splats.sh_coeffs, width },
        raw_opacities: Rows { values: splats.raw_opacities, width: 1 },
        render_mode: SplatRenderMode::for_mip(splats.render_mip),
        background,
        pass: RasterPass::for_texture(texture_mode),
    };
    let ghost asked = call;
    let out: RenderOutput<T, I, P, L> = render(call);
    assert(call_ensures(*render, (asked,), out));
    tell(out)
}

/// The outputs of a render are bound into a stream of operations: each stands
/// for the tensor of the same name, with its kind of numbers.
pub open spec fn is_bound<
    T,
    I,
    B,
    J,
    P,
    L,
    W: Fn(B, DType) -> T,
    V: Fn(J, DType) -> I,
>(r: RenderOutput<T, I, P, L>, out: RenderOutput<B, J, P, L>, bind_float: W, bind_int: V) -> bool {
    &&& call_ensures(bind_float, (out.out_img, DType::F32), r.out_img)
    &&& call_ensures(bind_float, (out.depth_img, DType::F32), r.depth_img)
    &&& call_ensures(bind_float, (out.aux.visible, DType::F32), r.aux.visible)
    &&& call_ensures(bind_float, (out.aux.max_radius, DType::F32), r.aux.max_radius)
    &&& call_ensures(bind_float, (out.projected_splats, DType::F32), r.projected_splats)
    &&& call_ensures(bind_int, (out.aux.tile_offsets, DType::U32), r.aux.tile_offsets)
    &&& call_ensures(
        bind_int,
        (out.compact_gid_from_isect, DType::U32),
        r.compact_gid_from_isect,
    )
    &&& call_ensures(
        bind_int,
        (out.global_from_compact_gid, DType::U32),
        r.global_from_compact_gid,
    )
    &&& r.aux.num_visible == out.aux.num_visible
    &&& r.aux.num_intersections == out.aux.num_intersections
    &&& r.aux.img_w == out.aux.img_w
    &&& r.aux.img_h == out.aux.img_h
    &&& r.project_uniforms == out.project_uniforms
}

/// Render inside of a stream of operations: the parameters are resolved to
/// buffers, rendered, and the outputs bound back into the stream.
pub fn render<
    K,
    T,
    I,
    B,
    J,
    P,
    L,
    S: Fn(T) -> B,
    R: Fn(RenderCall<K, B>) -> RenderOutput<B, J, P, L>,
    W: Fn(B, DType) -> T,
    V: Fn(J, DType) -> I,
>(call: RenderCall<K, T>, resolve: &S, run: &R, bind_float: &W, bind_int: &V) -> (r: RenderOutput<
    T,
    I,
    P,
    L,
>)
    requires
        forall|t: T| #[trigger] call_requires(*resolve, (t,)),
        forall|c: RenderCall<K, B>| #[trigger] call_requires(*run, (c,)),
        forall|b: B, kind: DType| #[trigger] call_requires(*bind_float, (b, kind)),
        forall|b: J, kind: DType| #[trigger] call_requires(*bind_int, (b, kind)),
    ensures
        exists|base: RenderCall<K, B>, out: RenderOutput<B, J, P, L>| #[trigger]
            call_ensures(*run, (base,), out) && {
                &&& call_ensures(*resolve, (call.transforms,), base.transforms)
                &&& call_ensures(*resolve, (call.sh_coeffs,), base.sh_coeffs)
                &&& call_ensures(*resolve, (call.raw_opacities,), base.raw_opacities)
                &&& base.camera == call.camera
                &&& base.img_w == call.img_w
                &&& base.img_h == call.img_h
                &&& base.render_mode == call.render_mode
                &&& base.background == call.background
                &&& base.pass == call.pass
                &&& is_bound(r, out, *bind_float, *bind_int)
            },
{
    let transforms: B = resolve(call.transforms);
    let sh_coeffs: B = resolve(call.sh_coeffs);
    let raw_opacities: B = resolve(call.raw_opacities);
    let base: RenderCall<K, B> = RenderCall {
        camera: call.camera,
        img_w: call.img_w,
        img_h: call.img_h,
        transforms,
        sh_coeffs,
        raw_opacities,
        render_mode: call.render_mode,
        background: call.background,
        pass: call.pass,
    };
    let ghost asked = base;
    let out: RenderOutput<B, J, P, L> = run(base);
    let ghost given = out;
    assert(call_ensures(*run, (asked,), given));
    let out_img: T = bind_float(out.out_img, DType::F32);
    let depth_img: T = bind_float(out.depth_img, DType::F32);
    let visible: T = bind_float(out.aux.visible, DType::F32);
    let max_radius: T = bind_float(out.aux.max_radius, DType::F32);
    let projected_splats: T = bind_float(out.projected_splats, DType::F32);
    let tile_offsets: I = bind_int(out.aux.tile_offsets, DType::U32);
    let compact_gid_from_isect: I = bind_int(out.compact_gid_from_isect, DType::U32);
    let global_from_compact_gid: I = bind_int(out.global_from_compact_gid, DType::U32);
    RenderOutput {
        out_img,
        depth_img,
        aux: RenderAuxInner {
            num_visible: out.aux.num_visible,
            num_intersections: out.aux.num_intersections,
            visible,
            max_radius,
            tile_offsets,
            img_w: out.aux.img_w,
            img_h: out.aux.img_h,
        },
        projected_splats,
        compact_gid_from_isect,
        project_uniforms: out.project_uniforms,
        global_from_compact_gid,
    }
}

} // verus!
