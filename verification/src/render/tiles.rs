//! The tiles of an image: which pixels they hold, and which splats reach them.

use crate::arith::{computes, greater, lesser, total, Arith, Op, Sym2, ONE, ZERO};
use crate::single::{single, Single};
use vstd::prelude::*;

verus! {

/// Edge length of a tile in pixels.
pub const TILE_WIDTH: u32 = 16;

/// Number of pixels of a tile.
pub const TILE_SIZE: u32 = 256;

/// [`TILE_WIDTH`] as a single.
pub const TILE_WIDTH_BITS: u32 = 0x4180_0000;

pub const TWO: u32 = 0x4000_0000;

pub const MINUS_ONE: u32 = 0xbf80_0000;

/// A rectangle of pixels.
#[derive(Clone, Copy, Debug, PartialEq, Eq, Structural)]
pub struct PixelRect {
    pub min_x: Single,
    pub min_y: Single,
    pub max_x: Single,
    pub max_y: Single,
}

/// A rectangle of tiles; the far edges are exclusive.
#[derive(Clone, Copy, Debug, PartialEq, Eq, Structural)]
pub struct TileBbox {
    pub min_x: u32,
    pub min_y: u32,
    pub max_x: u32,
    pub max_y: u32,
}

/// The bits at even places, moved together: bit `2k` becomes bit `k`.
pub open spec fn even_bits(v: u32) -> u32 {
    let a = v & 0x5555_5555;
    let b = (a | (a >> 1u32)) & 0x3333_3333;
    let c = (b | (b >> 2u32)) & 0x0f0f_0f0f;
    let d = (c | (c >> 4u32)) & 0x00ff_00ff;
    (d | (d >> 8u32)) & 0x0000_ffff
}

/// Move the bits at even places together.
pub fn compact_bits_16(v: u32) -> (r: u32)
    ensures
        r == even_bits(v),
        forall|k: u32| k < 16 ==> #[trigger] ((r >> k) & 1) == (v >> ((2 * k) as u32)) & 1,
        r < 0x1_0000,
{
    let mut x: u32 = v & 0x5555_5555;
    x = (x | (x >> 1u32)) & 0x3333_3333;
    x = (x | (x >> 2u32)) & 0x0f0f_0f0f;
    x = (x | (x >> 4u32)) & 0x00ff_00ff;
    x = (x | (x >> 8u32)) & 0x0000_ffff;
    proof {
        lemma_even_bits(v);
    }
    x
}

/// What [`even_bits`] does, bit by bit.
pub proof fn lemma_even_bits(v: u32)
    ensures
        forall|k: u32|
            k < 16 ==> #[trigger] ((even_bits(v) >> k) & 1) == (v >> ((2 * k) as u32)) & 1,
        even_bits(v) < 0x1_0000,
{
    let a = v & 0x5555_5555;
    let b = (a | (a >> 1u32)) & 0x3333_3333;
    let c = (b | (b >> 2u32)) & 0x0f0f_0f0f;
    let d = (c | (c >> 4u32)) & 0x00ff_00ff;
    let e = (d | (d >> 8u32)) & 0x0000_ffff;
    assert forall|k: u32| k < 16 implies #[trigger] ((e >> k) & 1) == (v >> ((2 * k) as u32))
        & 1 by {
        assert((e >> k) & 1 == (v >> ((2 * k) as u32)) & 1) by (bit_vector)
            requires
                k < 16,
                a == v & 0x5555_5555,
                b == (a | (a >> 1u32)) & 0x3333_3333,
                c == (b | (b >> 2u32)) & 0x0f0f_0f0f,
                d == (c | (c >> 4u32)) & 0x00ff_00ff,
                e == (d | (d >> 8u32)) & 0x0000_ffff,
        ;
    }
    assert(e < 0x1_0000) by (bit_vector)
        requires
            e == (d | (d >> 8u32)) & 0x0000_ffff,
    ;
}

/// Column and row, within a tile, of the pixel with the given place in Morton
/// order.
pub open spec fn within_tile(place: u32) -> (u32, u32) {
    (even_bits(place), even_bits(place >> 1u32))
}

/// Column and row of a pixel that is counted tile by tile and, in a tile, in
/// Morton order.
pub open spec fn pixel_of(id: u32, tiles_per_row: u32) -> (int, int) {
    let tile = id / TILE_SIZE;
    let (x, y) = within_tile((id % TILE_SIZE) as u32);
    (
        (tile % tiles_per_row) * TILE_WIDTH + x,
        (tile / tiles_per_row) * TILE_WIDTH + y,
    )
}

/// Places of a tile lie in the tile.
pub proof fn lemma_within_tile(place: u32)
    requires
        place < TILE_SIZE,
    ensures
        within_tile(place).0 < TILE_WIDTH,
        within_tile(place).1 < TILE_WIDTH,
{
    assert(place < 256 ==> even_bits(place) < 16 && even_bits(place >> 1u32) < 16) by (bit_vector);
}

/// Find the pixel that is counted tile by tile and, in a tile, in Morton order.
pub fn map_1d_to_2d(id: u32, tiles_per_row: u32) -> (r: (u32, u32))
    requires
        tiles_per_row > 0,
    ensures
        (r.0 as int, r.1 as int) == pixel_of(id, tiles_per_row),
        r.0 as int / TILE_WIDTH as int == (id / TILE_SIZE) % tiles_per_row,
        r.1 as int / TILE_WIDTH as int == (id / TILE_SIZE) / tiles_per_row,
{
    let tile: u32 = id / TILE_SIZE;
    let place: u32 = id % TILE_SIZE;
    let tile_x: u32 = tile % tiles_per_row;
    let tile_y: u32 = tile / tiles_per_row;
    let x: u32 = compact_bits_16(place);
    let y: u32 = compact_bits_16(place >> 1u32);
    proof {
        lemma_within_tile(place);
        assert(tile_y <= tile && tile_x <= tile) by (nonlinear_arith)
            requires
                tile_x == tile % tiles_per_row,
                tile_y == tile / tiles_per_row,
                tiles_per_row > 0,
        ;
    }
    (tile_x * TILE_WIDTH + x, tile_y * TILE_WIDTH + y)
}

pub open spec fn rect_of(g: Arith, tx: u32, ty: u32) -> PixelRect {
    let min_x = g(Op::FromInt((tx * TILE_WIDTH) as i64));
    let min_y = g(Op::FromInt((ty * TILE_WIDTH) as i64));
    PixelRect {
        min_x,
        min_y,
        max_x: g(Op::Add(min_x, single(TILE_WIDTH_BITS))),
        max_y: g(Op::Add(min_y, single(TILE_WIDTH_BITS))),
    }
}

/// The pixels of a tile.
pub fn tile_rect<F: Fn(Op) -> Single>(f: &F, tx: u32, ty: u32) -> (r: PixelRect)
    requires
        total(*f),
        tx < 0x1000_0000,
        ty < 0x1000_0000,
    ensures
        forall|g: Arith| #[trigger] computes(*f, g) ==> r == rect_of(g, tx, ty),
{
    let min_x: Single = f(Op::FromInt((tx * TILE_WIDTH) as i64));
    let min_y: Single = f(Op::FromInt((ty * TILE_WIDTH) as i64));
    let width: Single = single(TILE_WIDTH_BITS);
    PixelRect { min_x, min_y, max_x: f(Op::Add(min_x, width)), max_y: f(Op::Add(min_y, width)) }
}

/// A number held between two bounds that are in order.
pub open spec fn clamped(a: Single, low: Single, high: Single) -> Single {
    lesser(greater(a, low), high)
}

fn clamp(a: Single, low: Single, high: Single) -> (r: Single)
    ensures
        r == clamped(a, low, high),
{
    let above: Single = if a.gt(low) {
        a
    } else {
        low
    };
    if above.lt(high) {
        above
    } else {
        high
    }
}

/// How far a splat reaches from its centre, given its conic and the exponent at
/// which it is cut off; minus one along both axes where the conic is degenerate.
pub open spec fn bbox_extent(g: Arith, conic: Sym2, power_threshold: Single) -> (Single, Single) {
    let det = g(Op::Sub(
        g(Op::Mul(conic.c00, conic.c11)),
        g(Op::Mul(conic.c01, conic.c01)),
    ));
    if det.at_most(single(ZERO)) {
        (single(MINUS_ONE), single(MINUS_ONE))
    } else {
        let inverse = g(Op::Div(single(ONE), det));
        let twice = g(Op::Mul(single(TWO), power_threshold));
        (
            g(Op::Sqrt(g(Op::Mul(g(Op::Mul(twice, conic.c11)), inverse)))),
            g(Op::Sqrt(g(Op::Mul(g(Op::Mul(twice, conic.c00)), inverse)))),
        )
    }
}

/// How far a splat reaches from its centre.
pub fn compute_bbox_extent<F: Fn(Op) -> Single>(f: &F, conic: Sym2, power_threshold: Single) -> (r:
    (Single, Single))
    requires
        total(*f),
    ensures
        forall|g: Arith| #[trigger] computes(*f, g) ==> r == bbox_extent(g, conic, power_threshold),
{
    let diagonal: Single = f(Op::Mul(conic.c00, conic.c11));
    let off: Single = f(Op::Mul(conic.c01, conic.c01));
    let det: Single = f(Op::Sub(diagonal, off));
    if det.le(single(ZERO)) {
        return (single(MINUS_ONE), single(MINUS_ONE));
    }
    let inverse: Single = f(Op::Div(single(ONE), det));
    let twice: Single = f(Op::Mul(single(TWO), power_threshold));
    let x: Single = f(Op::Mul(twice, conic.c11));
    let x: Single = f(Op::Mul(x, inverse));
    let y: Single = f(Op::Mul(twice, conic.c00));
    let y: Single = f(Op::Mul(y, inverse));
    (f(Op::Sqrt(x)), f(Op::Sqrt(y)))
}

/// First tile along an axis that an interval touches.
pub open spec fn first_tile(g: Arith, center: Single, extent: Single, count: u32) -> int {
    clamped(g(Op::Sub(center, extent)), single(ZERO), g(Op::FromInt(count as i64))).truncated(
        0,
        u32::MAX as int,
    )
}

/// One past the last tile along an axis that an interval touches.
pub open spec fn end_tile(g: Arith, center: Single, extent: Single, count: u32) -> int {
    clamped(
        g(Op::Add(g(Op::Add(center, extent)), single(ONE))),
        single(ZERO),
        g(Op::FromInt(count as i64)),
    ).truncated(0, u32::MAX as int)
}

pub open spec fn bbox_of(
    g: Arith,
    cx: Single,
    cy: Single,
    dx: Single,
    dy: Single,
    bw: u32,
    bh: u32,
) -> TileBbox {
    TileBbox {
        min_x: first_tile(g, cx, dx, bw) as u32,
        min_y: first_tile(g, cy, dy, bh) as u32,
        max_x: end_tile(g, cx, dx, bw) as u32,
        max_y: end_tile(g, cy, dy, bh) as u32,
    }
}

/// A centre with an extent, held to a grid of `bw` by `bh` cells.
pub fn get_bbox<F: Fn(Op) -> Single>(
    f: &F,
    cx: Single,
    cy: Single,
    dx: Single,
    dy: Single,
    bw: u32,
    bh: u32,
) -> (r: TileBbox)
    requires
        total(*f),
    ensures
        forall|g: Arith| #[trigger] computes(*f, g) ==> r == bbox_of(g, cx, cy, dx, dy, bw, bh),
{
    let zero: Single = single(ZERO);
    let width: Single = f(Op::FromInt(bw as i64));
    let height: Single = f(Op::FromInt(bh as i64));
    let left: Single = f(Op::Sub(cx, dx));
    let top: Single = f(Op::Sub(cy, dy));
    let right: Single = f(Op::Add(cx, dx));
    let right: Single = f(Op::Add(right, single(ONE)));
    let bottom: Single = f(Op::Add(cy, dy));
    let bottom: Single = f(Op::Add(bottom, single(ONE)));
    TileBbox {
        min_x: clamp(left, zero, width).truncate(0, 0xffff_ffff) as u32,
        min_y: clamp(top, zero, height).truncate(0, 0xffff_ffff) as u32,
        max_x: clamp(right, zero, width).truncate(0, 0xffff_ffff) as u32,
        max_y: clamp(bottom, zero, height).truncate(0, 0xffff_ffff) as u32,
    }
}

/// The tiles that a splat, given in pixels, may touch.
pub fn get_tile_bbox<F: Fn(Op) -> Single>(
    f: &F,
    pix_cx: Single,
    pix_cy: Single,
    pix_ex: Single,
    pix_ey: Single,
    tile_bw: u32,
    tile_bh: u32,
) -> (r: TileBbox)
    requires
        total(*f),
    ensures
        forall|g: Arith| #[trigger]
            computes(*f, g) ==> {
                let tw = single(TILE_WIDTH_BITS);
                r == bbox_of(
                    g,
                    g(Op::Div(pix_cx, tw)),
                    g(Op::Div(pix_cy, tw)),
                    g(Op::Div(pix_ex, tw)),
                    g(Op::Div(pix_ey, tw)),
                    tile_bw,
                    tile_bh,
                )
            },
{
    let tw: Single = single(TILE_WIDTH_BITS);
    let cx: Single = f(Op::Div(pix_cx, tw));
    let cy: Single = f(Op::Div(pix_cy, tw));
    let ex: Single = f(Op::Div(pix_ex, tw));
    let ey: Single = f(Op::Div(pix_ey, tw));
    get_bbox(f, cx, cy, ex, ey, tile_bw, tile_bh)
}

/// How far along the edge of a tile, as a fraction held to the edge, the splat
/// is strongest. `edge` is the signed length of the edge.
pub open spec fn along_edge(
    g: Arith,
    edge: Single,
    first: Single,
    second: Single,
    own: Single,
    diff_x: Single,
    diff_y: Single,
) -> Single {
    let numerator = g(Op::Add(
        g(Op::Mul(g(Op::Mul(edge, first)), diff_x)),
        g(Op::Mul(g(Op::Mul(edge, second)), diff_y)),
    ));
    let denominator = g(Op::Mul(g(Op::Mul(edge, own)), edge));
    clamped(g(Op::Div(numerator, denominator)), single(ZERO), single(ONE))
}

/// A splat reaches into a rectangle: its centre lies in it, or its exponent at
/// the strongest point of the nearest edges stays within the threshold.
pub open spec fn reaches(
    g: Arith,
    rect: PixelRect,
    mx: Single,
    my: Single,
    conic: Sym2,
    power_threshold: Single,
) -> bool {
    let left = mx.below(rect.min_x);
    let above = my.below(rect.min_y);
    let in_x = !left && !rect.max_x.below(mx);
    let in_y = !above && !rect.max_y.below(my);
    if in_x && in_y {
        true
    } else {
        let corner_x = if left {
            rect.min_x
        } else {
            rect.max_x
        };
        let corner_y = if above {
            rect.min_y
        } else {
            rect.max_y
        };
        let width = g(Op::Sub(rect.max_x, rect.min_x));
        let height = g(Op::Sub(rect.max_y, rect.min_y));
        let dx = if left {
            width
        } else {
            width.negated()
        };
        let dy = if above {
            height
        } else {
            height.negated()
        };
        let diff_x = g(Op::Sub(mx, corner_x));
        let diff_y = g(Op::Sub(my, corner_y));
        let tx = if in_y {
            single(ZERO)
        } else {
            along_edge(g, dx, conic.c00, conic.c01, conic.c00, diff_x, diff_y)
        };
        let ty = if in_x {
            single(ZERO)
        } else {
            along_edge(g, dy, conic.c01, conic.c11, conic.c11, diff_x, diff_y)
        };
        let sigma = g(
            Op::Sigma {
                x: g(Op::Add(corner_x, g(Op::Mul(tx, dx)))),
                y: g(Op::Add(corner_y, g(Op::Mul(ty, dy)))),
                conic,
                center_x: mx,
                center_y: my,
            },
        );
        sigma.at_most(power_threshold)
    }
}

fn edge_fraction<F: Fn(Op) -> Single>(
    f: &F,
    edge: Single,
    first: Single,
    second: Single,
    own: Single,
    diff_x: Single,
    diff_y: Single,
) -> (r: Single)
    requires
        total(*f),
    ensures
        forall|g: Arith| #[trigger]
            computes(*f, g) ==> r == along_edge(g, edge, first, second, own, diff_x, diff_y),
{
    let a: Single = f(Op::Mul(edge, first));
    let a: Single = f(Op::Mul(a, diff_x));
    let b: Single = f(Op::Mul(edge, second));
    let b: Single = f(Op::Mul(b, diff_y));
    let numerator: Single = f(Op::Add(a, b));
    let c: Single = f(Op::Mul(edge, own));
    let denominator: Single = f(Op::Mul(c, edge));
    let quotient: Single = f(Op::Div(numerator, denominator));
    clamp(quotient, single(ZERO), single(ONE))
}

/// Conservative test whether a splat reaches into a rectangle.
pub fn will_primitive_contribute<F: Fn(Op) -> Single>(
    f: &F,
    rect: PixelRect,
    mx: Single,
    my: Single,
    conic: Sym2,
    power_threshold: Single,
) -> (r: bool)
    requires
        total(*f),
    ensures
        forall|g: Arith| #[trigger]
            computes(*f, g) ==> r == reaches(g, rect, mx, my, conic, power_threshold),
{
    let left: bool = mx.lt(rect.min_x);
    let above: bool = my.lt(rect.min_y);
    let in_x: bool = !left && !mx.gt(rect.max_x);
    let in_y: bool = !above && !my.gt(rect.max_y);
    if in_x && in_y {
        return true;
    }
    let corner_x: Single = if left {
        rect.min_x
    } else {
        rect.max_x
    };
    let corner_y: Single = if above {
        rect.min_y
    } else {
        rect.max_y
    };
    let width: Single = f(Op::Sub(rect.max_x, rect.min_x));
    let height: Single = f(Op::Sub(rect.max_y, rect.min_y));
    let dx: Single = if left {
        width
    } else {
        width.neg()
    };
    let dy: Single = if above {
        height
    } else {
        height.neg()
    };
    let diff_x: Single = f(Op::Sub(mx, corner_x));
    let diff_y: Single = f(Op::Sub(my, corner_y));
    let tx: Single = if in_y {
        single(ZERO)
    } else {
        edge_fraction(f, dx, conic.c00, conic.c01, conic.c00, diff_x, diff_y)
    };
    let ty: Single = if in_x {
        single(ZERO)
    } else {
        edge_fraction(f, dy, conic.c01, conic.c11, conic.c11, diff_x, diff_y)
    };
    let way_x: Single = f(Op::Mul(tx, dx));
    let way_y: Single = f(Op::Mul(ty, dy));
    let x: Single = f(Op::Add(corner_x, way_x));
    let y: Single = f(Op::Add(corner_y, way_y));
    let sigma: Single = f(Op::Sigma { x, y, conic, center_x: mx, center_y: my });
    sigma.le(power_threshold)
}

/// The number of tiles among the first `n` of a box, row by row, that a splat
/// reaches into.
pub open spec fn tiles_reached(
    g: Arith,
    bb: TileBbox,
    mx: Single,
    my: Single,
    conic: Sym2,
    power_threshold: Single,
    n: nat,
) -> nat
    decreases n,
{
    if n == 0 {
        0
    } else {
        let i = (n - 1) as int;
        let width = bb.max_x - bb.min_x;
        let tx = (i % width + bb.min_x) as u32;
        let ty = (i / width + bb.min_y) as u32;
        let before = tiles_reached(g, bb, mx, my, conic, power_threshold, (n - 1) as nat);
        if reaches(g, rect_of(g, tx, ty), mx, my, conic, power_threshold) {
            before + 1
        } else {
            before
        }
    }
}

/// The number of tiles of a box.
pub open spec fn tile_count(bb: TileBbox) -> int {
    (bb.max_y - bb.min_y) * (bb.max_x - bb.min_x)
}

/// Count the tiles of a box that a splat reaches into.
pub fn count_contributing_tiles<F: Fn(Op) -> Single>(
    f: &F,
    bb: TileBbox,
    mx: Single,
    my: Single,
    conic: Sym2,
    power_threshold: Single,
) -> (r: u32)
    requires
        total(*f),
        bb.min_x <= bb.max_x < 0x1000_0000,
        bb.min_y <= bb.max_y < 0x1000_0000,
        tile_count(bb) <= u32::MAX,
    ensures
        r <= tile_count(bb),
        forall|g: Arith| #[trigger]
            computes(*f, g) ==> r == tiles_reached(
                g,
                bb,
                mx,
                my,
                conic,
                power_threshold,
                tile_count(bb) as nat,
            ),
{
    let width: u32 = bb.max_x - bb.min_x;
    let height: u32 = bb.max_y - bb.min_y;
    let count: u32 = height * width;
    let mut hit: u32 = 0;
    let mut i: u32 = 0;
    while i < count
        invariant
            total(*f),
            i <= count,
            hit <= i,
            width == bb.max_x - bb.min_x,
            height == bb.max_y - bb.min_y,
            count == height * width,
            bb.min_x <= bb.max_x < 0x1000_0000,
            bb.min_y <= bb.max_y < 0x1000_0000,
            forall|g: Arith| #[trigger]
                computes(*f, g) ==> hit == tiles_reached(
                    g,
                    bb,
                    mx,
                    my,
                    conic,
                    power_threshold,
                    i as nat,
                ),
        decreases count - i,
    {
        proof {
            assert(width > 0 && i / width < height) by (nonlinear_arith)
                requires
                    i < count,
                    count == height * width,
            ;
        }
        let tx: u32 = i % width + bb.min_x;
        let ty: u32 = i / width + bb.min_y;
        let rect: PixelRect = tile_rect(f, tx, ty);
        if will_primitive_contribute(f, rect, mx, my, conic, power_threshold) {
            hit = hit + 1;
        }
        i = i + 1;
    }
    hit
}

} // verus!
