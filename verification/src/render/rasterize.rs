//! Drawing splats into a pixel, front to back.

use crate::arith::{computes, total, Arith, Op, Sym2, HALF, ONE, ZERO};
use crate::render::mode::RasterPass;
use crate::render::tiles::{clamped, TWO};
use crate::single::{single, Single};
use vstd::prelude::*;

verus! {

/// Number of singles that a projected splat takes up.
pub const PROJECTED_LANES: u32 = 10;

/// Splats fainter than this, 1/255, are cut off.
pub const ALPHA_CUTOFF_MID: u32 = 0x3b80_8081;

/// Width, 1e-3, of the band in which the smooth cutoff fades a splat in.
pub const ALPHA_CUTOFF_BAND: u32 = 0x3a83_126f;

/// The largest opacity, 0.999.
pub const MAX_ALPHA: u32 = 0x3f7f_be77;

/// A pixel that lets through no more than this, 1e-4, is finished.
pub const OPAQUE_BELOW: u32 = 0x38d1_b717;

/// Depth of a pixel without splats, 1e30.
pub const FAR_DEPTH: u32 = 0x7149_f2ca;

/// 255 as a single.
pub const BYTE_SCALE: u32 = 0x437f_0000;

pub const THREE: u32 = 0x4040_0000;

pub const SIX: u32 = 0x40c0_0000;

/// A splat as the rasterizer sees it.
#[derive(Clone, Copy, Debug, PartialEq, Eq, Structural)]
pub struct Splat {
    pub xy_x: Single,
    pub xy_y: Single,
    pub conic_x: Single,
    pub conic_y: Single,
    pub conic_z: Single,
    pub color_a: Single,
    pub color_r: Single,
    pub color_g: Single,
    pub color_b: Single,
    /// Distance in front of the camera.
    pub depth: Single,
}

/// Size and background of the image.
#[derive(Clone, Copy, Debug, PartialEq, Eq, Structural)]
pub struct RasterizeUniforms {
    /// Number of tiles in a row.
    pub tile_bw: u32,
    pub img_w: u32,
    pub img_h: u32,
    pub bg_r: Single,
    pub bg_g: Single,
    pub bg_b: Single,
}

/// What a pixel has gathered.
#[derive(Clone, Copy, Debug, PartialEq, Eq, Structural)]
pub struct Pixel {
    /// Share of the light from behind that still comes through.
    pub t_acc: Single,
    pub r: Single,
    pub g: Single,
    pub b: Single,
    /// Nothing further changes the pixel.
    pub done: bool,
    /// One past the last intersection that added to the pixel.
    pub last_useful: u32,
    /// Depth of the splat at which less than half of the light came through.
    pub depth: Single,
    /// Depth of the last splat that added to the pixel.
    pub last_depth: Single,
    pub depth_set: bool,
}

/// Lane `k` of splat `i`.
pub open spec fn lane(projected: Seq<Single>, i: int, k: int) -> Single {
    projected[i * PROJECTED_LANES + k]
}

pub open spec fn splat_at(projected: Seq<Single>, i: int) -> Splat {
    Splat {
        xy_x: lane(projected, i, 0),
        xy_y: lane(projected, i, 1),
        conic_x: lane(projected, i, 2),
        conic_y: lane(projected, i, 3),
        conic_z: lane(projected, i, 4),
        color_a: lane(projected, i, 5),
        color_r: lane(projected, i, 6),
        color_g: lane(projected, i, 7),
        color_b: lane(projected, i, 8),
        depth: lane(projected, i, 9),
    }
}

/// The lanes of a splat in order.
pub open spec fn lanes_of(splat: Splat) -> Seq<Single> {
    seq![
        splat.xy_x,
        splat.xy_y,
        splat.conic_x,
        splat.conic_y,
        splat.conic_z,
        splat.color_a,
        splat.color_r,
        splat.color_g,
        splat.color_b,
        splat.depth,
    ]
}

impl Splat {
    /// A splat without extent or colour.
    pub fn zero() -> (r: Splat)
        ensures
            lanes_of(r) == Seq::new(PROJECTED_LANES as nat, |k: int| single(ZERO)),
    {
        let zero: Single = single(ZERO);
        let r: Splat = Splat {
            xy_x: zero,
            xy_y: zero,
            conic_x: zero,
            conic_y: zero,
            conic_z: zero,
            color_a: zero,
            color_r: zero,
            color_g: zero,
            color_b: zero,
            depth: zero,
        };
        assert(lanes_of(r) =~= Seq::new(PROJECTED_LANES as nat, |k: int| single(ZERO)));
        r
    }
}

/// Read centre, conic and opacity of splat `idx`.
pub fn read_main_splat(projected: &Vec<Single>, idx: u32) -> (r: (Single, Single, Sym2, Single))
    requires
        (idx + 1) * PROJECTED_LANES <= projected@.len(),
    ensures
        ({
            let s = splat_at(projected@, idx as int);
            r == (
                s.xy_x,
                s.xy_y,
                Sym2 { c00: s.conic_x, c01: s.conic_y, c11: s.conic_z },
                s.color_a,
            )
        }),
{
    assert(projected@.len() == projected.len());
    let b: usize = idx as usize * 10;
    (
        projected[b],
        projected[b + 1],
        Sym2 { c00: projected[b + 2], c01: projected[b + 3], c11: projected[b + 4] },
        projected[b + 5],
    )
}

/// Read splat `idx`.
pub fn read_projected_splat(projected: &Vec<Single>, idx: u32) -> (r: Splat)
    requires
        (idx + 1) * PROJECTED_LANES <= projected@.len(),
    ensures
        r == splat_at(projected@, idx as int),
{
    assert(projected@.len() == projected.len());
    let b: usize = idx as usize * 10;
    Splat {
        xy_x: projected[b],
        xy_y: projected[b + 1],
        conic_x: projected[b + 2],
        conic_y: projected[b + 3],
        conic_z: projected[b + 4],
        color_a: projected[b + 5],
        color_r: projected[b + 6],
        color_g: projected[b + 7],
        color_b: projected[b + 8],
        depth: projected[b + 9],
    }
}

/// Write splat `idx`.
pub fn write_projected_splat(projected: &mut Vec<Single>, idx: u32, splat: Splat)
    requires
        (idx + 1) * PROJECTED_LANES <= old(projected)@.len(),
    ensures
        final(projected)@.len() == old(projected)@.len(),
        forall|i: int|
            0 <= i < old(projected)@.len() ==> #[trigger] final(projected)@[i] == if idx
                * PROJECTED_LANES <= i < (idx + 1) * PROJECTED_LANES {
                lanes_of(splat)[i - idx * PROJECTED_LANES]
            } else {
                old(projected)@[i]
            },
{
    assert(projected@.len() == projected.len());
    let b: usize = idx as usize * 10;
    projected.set(b, splat.xy_x);
    projected.set(b + 1, splat.xy_y);
    projected.set(b + 2, splat.conic_x);
    projected.set(b + 3, splat.conic_y);
    projected.set(b + 4, splat.conic_z);
    projected.set(b + 5, splat.color_a);
    projected.set(b + 6, splat.color_r);
    projected.set(b + 7, splat.color_g);
    projected.set(b + 8, splat.color_b);
    projected.set(b + 9, splat.depth);
}

/// Where the smooth cutoff begins.
pub open spec fn cutoff_low(g: Arith) -> Single {
    g(Op::Sub(
        single(ALPHA_CUTOFF_MID),
        g(Op::Mul(single(HALF), single(ALPHA_CUTOFF_BAND))),
    ))
}

/// Where the smooth cutoff ends.
pub open spec fn cutoff_high(g: Arith) -> Single {
    g(Op::Add(
        single(ALPHA_CUTOFF_MID),
        g(Op::Mul(single(HALF), single(ALPHA_CUTOFF_BAND))),
    ))
}

/// The weight that the smooth cutoff gives to an opacity: a smoothstep from
/// zero to one over the band.
pub open spec fn smooth_weight(g: Arith, alpha: Single) -> Single {
    let t = clamped(
        g(Op::Div(g(Op::Sub(alpha, cutoff_low(g))), single(ALPHA_CUTOFF_BAND))),
        single(ZERO),
        single(ONE),
    );
    g(Op::Mul(
        g(Op::Mul(t, t)),
        g(Op::Sub(single(THREE), g(Op::Mul(single(TWO), t)))),
    ))
}

/// The slope of [`smooth_weight`].
pub open spec fn smooth_slope(g: Arith, alpha: Single) -> Single {
    if cutoff_low(g).below(alpha) && alpha.below(cutoff_high(g)) {
        let t = g(Op::Div(g(Op::Sub(alpha, cutoff_low(g))), single(ALPHA_CUTOFF_BAND)));
        let linear = g(Op::Mul(single(SIX), t));
        g(Op::Div(g(Op::Sub(linear, g(Op::Mul(linear, t)))), single(ALPHA_CUTOFF_BAND)))
    } else {
        single(ZERO)
    }
}

pub fn alpha_cutoff_weight<F: Fn(Op) -> Single>(f: &F, alpha: Single) -> (r: Single)
    requires
        total(*f),
    ensures
        forall|g: Arith| #[trigger] computes(*f, g) ==> r == smooth_weight(g, alpha),
{
    let band: Single = single(ALPHA_CUTOFF_BAND);
    let half_band: Single = f(Op::Mul(single(HALF), band));
    let low: Single = f(Op::Sub(single(ALPHA_CUTOFF_MID), half_band));
    let above: Single = f(Op::Sub(alpha, low));
    let raw: Single = f(Op::Div(above, band));
    let raised: Single = if raw.gt(single(ZERO)) {
        raw
    } else {
        single(ZERO)
    };
    let t: Single = if raised.lt(single(ONE)) {
        raised
    } else {
        single(ONE)
    };
    let squared: Single = f(Op::Mul(t, t));
    let twice: Single = f(Op::Mul(single(TWO), t));
    let rest: Single = f(Op::Sub(single(THREE), twice));
    f(Op::Mul(squared, rest))
}

pub fn alpha_cutoff_weight_deriv<F: Fn(Op) -> Single>(f: &F, alpha: Single) -> (r: Single)
    requires
        total(*f),
    ensures
        forall|g: Arith| #[trigger] computes(*f, g) ==> r == smooth_slope(g, alpha),
{
    let band: Single = single(ALPHA_CUTOFF_BAND);
    let half_band: Single = f(Op::Mul(single(HALF), band));
    let low: Single = f(Op::Sub(single(ALPHA_CUTOFF_MID), half_band));
    let high: Single = f(Op::Add(single(ALPHA_CUTOFF_MID), half_band));
    if alpha.gt(low) && alpha.lt(high) {
        let above: Single = f(Op::Sub(alpha, low));
        let t: Single = f(Op::Div(above, band));
        let linear: Single = f(Op::Mul(single(SIX), t));
        let quadratic: Single = f(Op::Mul(linear, t));
        let slope: Single = f(Op::Sub(linear, quadratic));
        f(Op::Div(slope, band))
    } else {
        single(ZERO)
    }
}

/// A pixel before any splat has been drawn.
pub open spec fn blank(range_lo: u32, inside: bool) -> Pixel {
    Pixel {
        t_acc: single(ONE),
        r: single(ZERO),
        g: single(ZERO),
        b: single(ZERO),
        done: !inside,
        last_useful: range_lo,
        depth: single(FAR_DEPTH),
        last_depth: single(FAR_DEPTH),
        depth_set: false,
    }
}

/// The exponent of a splat at a pixel centre.
pub open spec fn sigma_of(g: Arith, splat: Splat, x: Single, y: Single) -> Single {
    g(
        Op::Sigma {
            x,
            y,
            conic: Sym2 { c00: splat.conic_x, c01: splat.conic_y, c11: splat.conic_z },
            center_x: splat.xy_x,
            center_y: splat.xy_y,
        },
    )
}

/// The opacity of a splat at a pixel centre.
pub open spec fn alpha_of(g: Arith, splat: Splat, x: Single, y: Single) -> Single {
    let raw = g(Op::Mul(splat.color_a, g(Op::Exp(sigma_of(g, splat, x, y).negated()))));
    if single(MAX_ALPHA).below(raw) {
        single(MAX_ALPHA)
    } else {
        raw
    }
}

/// The weight that the cutoff gives to an opacity.
pub open spec fn cutoff_weight(g: Arith, alpha: Single, smooth: bool) -> Single {
    if smooth {
        smooth_weight(g, alpha)
    } else if single(ALPHA_CUTOFF_MID).at_most(alpha) {
        single(ONE)
    } else {
        single(ZERO)
    }
}

/// The splat is seen at the pixel centre.
pub open spec fn seen(g: Arith, splat: Splat, x: Single, y: Single, smooth: bool) -> bool {
    &&& single(ZERO).at_most(sigma_of(g, splat, x, y))
    &&& single(ZERO).below(cutoff_weight(g, alpha_of(g, splat, x, y), smooth))
}

/// The opacity that counts, after the cutoff.
pub open spec fn effective_alpha(
    g: Arith,
    splat: Splat,
    x: Single,
    y: Single,
    smooth: bool,
) -> Single {
    let alpha = alpha_of(g, splat, x, y);
    g(Op::Mul(alpha, cutoff_weight(g, alpha, smooth)))
}

/// What still comes through a pixel behind the splat.
pub open spec fn light_behind(
    g: Arith,
    pixel: Pixel,
    splat: Splat,
    x: Single,
    y: Single,
    smooth: bool,
) -> Single {
    g(Op::Mul(
        pixel.t_acc,
        g(Op::Sub(single(ONE), effective_alpha(g, splat, x, y, smooth))),
    ))
}

/// The splat adds to the pixel: the pixel is not finished, the splat is seen,
/// and it does not make the pixel opaque.
pub open spec fn adds(
    g: Arith,
    pixel: Pixel,
    splat: Splat,
    x: Single,
    y: Single,
    smooth: bool,
) -> bool {
    &&& !pixel.done
    &&& seen(g, splat, x, y, smooth)
    &&& !light_behind(g, pixel, splat, x, y, smooth).at_most(single(OPAQUE_BELOW))
}

/// A colour channel with a visible splat added; negative colours count as none.
pub open spec fn tinted(g: Arith, sum: Single, color: Single, visibility: Single) -> Single {
    let light = if single(ZERO).below(color) {
        color
    } else {
        single(ZERO)
    };
    g(Op::Add(sum, g(Op::Mul(light, visibility))))
}

/// The pixel after one more splat, the intersection with number `isect`.
pub open spec fn drawn(
    g: Arith,
    pixel: Pixel,
    splat: Splat,
    isect: int,
    x: Single,
    y: Single,
    smooth: bool,
) -> Pixel {
    if pixel.done || !seen(g, splat, x, y, smooth) {
        pixel
    } else {
        let next = light_behind(g, pixel, splat, x, y, smooth);
        if next.at_most(single(OPAQUE_BELOW)) {
            Pixel { done: true, ..pixel }
        } else {
            let visibility = g(Op::Mul(
                effective_alpha(g, splat, x, y, smooth),
                pixel.t_acc,
            ));
            let crosses = !pixel.depth_set && next.below(single(HALF));
            Pixel {
                t_acc: next,
                r: tinted(g, pixel.r, splat.color_r, visibility),
                g: tinted(g, pixel.g, splat.color_g, visibility),
                b: tinted(g, pixel.b, splat.color_b, visibility),
                last_useful: (isect + 1) as u32,
                depth: if crosses {
                    splat.depth
                } else {
                    pixel.depth
                },
                last_depth: splat.depth,
                depth_set: pixel.depth_set || crosses,
                ..pixel
            }
        }
    }
}

/// The splats of a frame: which splat each intersection is with, and the
/// projected splats.
#[derive(Debug)]
pub struct SplatTable {
    /// For each intersection, in front-to-back order within a tile, the splat.
    pub compact_gid_from_isect: Vec<u32>,
    /// For each splat, its number before culling.
    pub global_from_compact_gid: Vec<u32>,
    /// [`PROJECTED_LANES`] singles for each splat.
    pub projected: Vec<Single>,
}

impl SplatTable {
    pub open spec fn splat(self, isect: int) -> Splat {
        splat_at(self.projected@, self.compact_gid_from_isect@[isect] as int)
    }

    pub open spec fn global(self, isect: int) -> u32 {
        self.global_from_compact_gid@[self.compact_gid_from_isect@[isect] as int]
    }

    /// The intersections `lo..hi` refer to splats that the table holds and
    /// that have a place among `count` splats.
    pub open spec fn covers(self, lo: int, hi: int, count: int) -> bool {
        &&& hi <= self.compact_gid_from_isect@.len()
        &&& forall|i: int|
            lo <= i < hi ==> {
                let gid = #[trigger] self.compact_gid_from_isect@[i];
                &&& (gid + 1) * PROJECTED_LANES <= self.projected@.len()
                &&& gid < self.global_from_compact_gid@.len()
                &&& self.global_from_compact_gid@[gid as int] < count
            }
    }

    /// The pixel after the intersections `lo..hi`.
    pub open spec fn composed(
        self,
        g: Arith,
        x: Single,
        y: Single,
        smooth: bool,
        inside: bool,
        lo: int,
        hi: int,
    ) -> Pixel
        decreases hi - lo,
    {
        if hi <= lo {
            blank(lo as u32, inside)
        } else {
            drawn(
                g,
                self.composed(g, x, y, smooth, inside, lo, hi - 1),
                self.splat(hi - 1),
                hi - 1,
                x,
                y,
                smooth,
            )
        }
    }

    /// Intersection `i` adds to the pixel.
    pub open spec fn marks(
        self,
        g: Arith,
        x: Single,
        y: Single,
        smooth: bool,
        inside: bool,
        lo: int,
        i: int,
    ) -> bool {
        adds(g, self.composed(g, x, y, smooth, inside, lo, i), self.splat(i), x, y, smooth)
    }

    /// Some intersection in `lo..hi` with splat `v` adds to the pixel.
    pub open spec fn marked(
        self,
        g: Arith,
        x: Single,
        y: Single,
        smooth: bool,
        inside: bool,
        lo: int,
        hi: int,
        v: int,
    ) -> bool {
        exists|i: int|
            lo <= i < hi && #[trigger] self.marks(g, x, y, smooth, inside, lo, i) && self.global(i)
                == v
    }
}

/// Draw one splat into a pixel. Tells whether it added to the pixel.
fn draw_splat<F: Fn(Op) -> Single>(
    f: &F,
    pixel: &mut Pixel,
    splat: Splat,
    isect: u32,
    x: Single,
    y: Single,
    smooth: bool,
) -> (r: bool)
    requires
        total(*f),
        !old(pixel).done,
        isect < u32::MAX,
    ensures
        forall|g: Arith| #[trigger]
            computes(*f, g) ==> *final(pixel) == drawn(
                g,
                *old(pixel),
                splat,
                isect as int,
                x,
                y,
                smooth,
            ) && r == adds(g, *old(pixel), splat, x, y, smooth),
{
    let conic: Sym2 = Sym2 { c00: splat.conic_x, c01: splat.conic_y, c11: splat.conic_z };
    let sigma: Single = f(
        Op::Sigma { x, y, conic, center_x: splat.xy_x, center_y: splat.xy_y },
    );
    let falloff: Single = f(Op::Exp(sigma.neg()));
    let raw: Single = f(Op::Mul(splat.color_a, falloff));
    let alpha: Single = if single(MAX_ALPHA).lt(raw) {
        single(MAX_ALPHA)
    } else {
        raw
    };
    let weight: Single = if smooth {
        alpha_cutoff_weight(f, alpha)
    } else if alpha.ge(single(ALPHA_CUTOFF_MID)) {
        single(ONE)
    } else {
        single(ZERO)
    };
    if !(sigma.ge(single(ZERO)) && weight.gt(single(ZERO))) {
        return false;
    }
    let effective: Single = f(Op::Mul(alpha, weight));
    let rest: Single = f(Op::Sub(single(ONE), effective));
    let next: Single = f(Op::Mul(pixel.t_acc, rest));
    if next.le(single(OPAQUE_BELOW)) {
        pixel.done = true;
        return false;
    }
    let visibility: Single = f(Op::Mul(effective, pixel.t_acc));
    pixel.r = tint(f, pixel.r, splat.color_r, visibility);
    pixel.g = tint(f, pixel.g, splat.color_g, visibility);
    pixel.b = tint(f, pixel.b, splat.color_b, visibility);
    // The first splat behind which less than half of the light comes through is
    // the surface.
    pixel.last_depth = splat.depth;
    if !pixel.depth_set && next.lt(single(HALF)) {
        pixel.depth = splat.depth;
        pixel.depth_set = true;
    }
    pixel.t_acc = next;
    pixel.last_useful = isect + 1;
    true
}

fn tint<F: Fn(Op) -> Single>(f: &F, sum: Single, color: Single, visibility: Single) -> (r: Single)
    requires
        total(*f),
    ensures
        forall|g: Arith| #[trigger] computes(*f, g) ==> r == tinted(g, sum, color, visibility),
{
    let light: Single = if color.gt(single(ZERO)) {
        color
    } else {
        single(ZERO)
    };
    let part: Single = f(Op::Mul(light, visibility));
    f(Op::Add(sum, part))
}

impl SplatTable {
    /// Draw the intersections `lo..hi` into a pixel, and mark the splats that
    /// add to it.
    pub fn compose_pixel<F: Fn(Op) -> Single>(
        &self,
        f: &F,
        x: Single,
        y: Single,
        pass: RasterPass,
        inside: bool,
        lo: u32,
        hi: u32,
        visible: &mut Vec<Single>,
    ) -> (r: Pixel)
        requires
            total(*f),
            self.covers(lo as int, hi as int, old(visible)@.len() as int),
        ensures
            final(visible)@.len() == old(visible)@.len(),
            forall|g: Arith| #[trigger]
                computes(*f, g) ==> {
                    let smooth = pass == RasterPass::BackwardSmoothCutoff;
                    &&& r == self.composed(g, x, y, smooth, inside, lo as int, hi as int)
                    &&& forall|v: int|
                        0 <= v < old(visible)@.len() ==> #[trigger] final(visible)@[v] == if pass
                            != RasterPass::Forward && self.marked(
                            g,
                            x,
                            y,
                            smooth,
                            inside,
                            lo as int,
                            hi as int,
                            v,
                        ) {
                            single(ONE)
                        } else {
                            old(visible)@[v]
                        }
                },
    {
        let smooth: bool = pass.smooth_cutoff();
        let keep: bool = pass.bwd_info();
        let mut pixel: Pixel = Pixel {
            t_acc: single(ONE),
            r: single(ZERO),
            g: single(ZERO),
            b: single(ZERO),
            done: !inside,
            last_useful: lo,
            depth: single(FAR_DEPTH),
            last_depth: single(FAR_DEPTH),
            depth_set: false,
        };
        let ghost before = visible@;
        let mut i: u32 = lo;
        while i < hi && !pixel.done
            invariant
                total(*f),
                lo <= i,
                lo <= hi ==> i <= hi,
                lo > hi ==> i == lo,
                smooth == (pass == RasterPass::BackwardSmoothCutoff),
                keep == (pass != RasterPass::Forward),
                visible@.len() == before.len(),
                self.covers(lo as int, hi as int, before.len() as int),
                forall|g: Arith| #[trigger]
                    computes(*f, g) ==> pixel == self.composed(
                        g,
                        x,
                        y,
                        smooth,
                        inside,
                        lo as int,
                        i as int,
                    ),
                forall|g: Arith, v: int|
                    #![trigger computes(*f, g), visible@[v]]
                    computes(*f, g) && 0 <= v < before.len() ==> visible@[v] == if keep
                        && self.marked(g, x, y, smooth, inside, lo as int, i as int, v) {
                        single(ONE)
                    } else {
                        before[v]
                    },
            decreases hi - i,
        {
            let ghost shown = visible@;
            let ghost drawn_before = pixel;
            let gid: u32 = self.compact_gid_from_isect[i as usize];
            let splat: Splat = read_projected_splat(&self.projected, gid);
            let added: bool = draw_splat(f, &mut pixel, splat, i, x, y, smooth);
            let global: u32 = self.global_from_compact_gid[gid as usize];
            if added && keep {
                visible.set(global as usize, single(ONE));
            }
            proof {
                assert forall|g: Arith, v: int|
                    #![trigger computes(*f, g), visible@[v]]
                    computes(*f, g) && 0 <= v < before.len() implies visible@[v] == if keep
                    && self.marked(g, x, y, smooth, inside, lo as int, i + 1, v) {
                    single(ONE)
                } else {
                    before[v]
                } by {
                    assert(shown[v] == if keep && self.marked(
                        g,
                        x,
                        y,
                        smooth,
                        inside,
                        lo as int,
                        i as int,
                        v,
                    ) {
                        single(ONE)
                    } else {
                        before[v]
                    });
                    assert(self.marks(g, x, y, smooth, inside, lo as int, i as int) == added);
                    if self.marked(g, x, y, smooth, inside, lo as int, i as int, v) {
                        let k = choose|k: int|
                            lo <= k < i && #[trigger] self.marks(
                                g,
                                x,
                                y,
                                smooth,
                                inside,
                                lo as int,
                                k,
                            ) && self.global(k) == v;
                        assert(self.marks(g, x, y, smooth, inside, lo as int, k));
                        assert(self.marked(g, x, y, smooth, inside, lo as int, i + 1, v));
                    }
                    if self.marked(g, x, y, smooth, inside, lo as int, i + 1, v) && !self.marked(
                        g,
                        x,
                        y,
                        smooth,
                        inside,
                        lo as int,
                        i as int,
                        v,
                    ) {
                        let k = choose|k: int|
                            lo <= k < i + 1 && #[trigger] self.marks(
                                g,
                                x,
                                y,
                                smooth,
                                inside,
                                lo as int,
                                k,
                            ) && self.global(k) == v;
                        assert(k == i);
                    }
                }
            }
            i = i + 1;
        }
        proof {
            assert forall|g: Arith| #[trigger] computes(*f, g) implies pixel == self.composed(
                g,
                x,
                y,
                smooth,
                inside,
                lo as int,
                hi as int,
            ) && forall|v: int|
                0 <= v < before.len() ==> #[trigger] visible@[v] == if keep && self.marked(
                    g,
                    x,
                    y,
                    smooth,
                    inside,
                    lo as int,
                    hi as int,
                    v,
                ) {
                    single(ONE)
                } else {
                    before[v]
                } by {
                if i < hi {
                    self.lemma_finished(g, x, y, smooth, inside, lo as int, i as int, hi as int);
                }
                assert forall|v: int| 0 <= v < before.len() implies #[trigger] visible@[v] == if keep
                    && self.marked(g, x, y, smooth, inside, lo as int, hi as int, v) {
                    single(ONE)
                } else {
                    before[v]
                } by {
                    assert(visible@[v] == if keep && self.marked(
                        g,
                        x,
                        y,
                        smooth,
                        inside,
                        lo as int,
                        i as int,
                        v,
                    ) {
                        single(ONE)
                    } else {
                        before[v]
                    });
                    if lo <= hi {
                        self.lemma_marked_within(
                            g,
                            x,
                            y,
                            smooth,
                            inside,
                            lo as int,
                            i as int,
                            hi as int,
                            v,
                        );
                    }
                }
            }
        }
        pixel
    }

    /// A finished pixel stays as it is.
    proof fn lemma_finished(
        self,
        g: Arith,
        x: Single,
        y: Single,
        smooth: bool,
        inside: bool,
        lo: int,
        mid: int,
        hi: int,
    )
        requires
            lo <= mid <= hi,
            self.composed(g, x, y, smooth, inside, lo, mid).done,
        ensures
            self.composed(g, x, y, smooth, inside, lo, hi) == self.composed(
                g,
                x,
                y,
                smooth,
                inside,
                lo,
                mid,
            ),
        decreases hi - mid,
    {
        if mid < hi {
            self.lemma_finished(g, x, y, smooth, inside, lo, mid, hi - 1);
        }
    }

    /// No intersection marks a splat once the pixel is finished.
    proof fn lemma_marked_within(
        self,
        g: Arith,
        x: Single,
        y: Single,
        smooth: bool,
        inside: bool,
        lo: int,
        mid: int,
        hi: int,
        v: int,
    )
        requires
            lo <= mid <= hi,
            mid < hi ==> self.composed(g, x, y, smooth, inside, lo, mid).done,
        ensures
            self.marked(g, x, y, smooth, inside, lo, hi, v) == self.marked(
                g,
                x,
                y,
                smooth,
                inside,
                lo,
                mid,
                v,
            ),
    {
        if self.marked(g, x, y, smooth, inside, lo, hi, v) {
            let k = choose|k: int|
                lo <= k < hi && #[trigger] self.marks(g, x, y, smooth, inside, lo, k)
                    && self.global(k) == v;
            if mid <= k {
                self.lemma_finished(g, x, y, smooth, inside, lo, mid, k);
            }
            assert(self.marks(g, x, y, smooth, inside, lo, k));
        }
        if self.marked(g, x, y, smooth, inside, lo, mid, v) {
            let k = choose|k: int|
                lo <= k < mid && #[trigger] self.marks(g, x, y, smooth, inside, lo, k)
                    && self.global(k) == v;
            assert(self.marks(g, x, y, smooth, inside, lo, k));
        }
    }
}

} // verus!
