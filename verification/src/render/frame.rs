//! Drawing an image, tile by tile.

use crate::arith::{computes, total, Arith, Op, HALF, ONE, ZERO};
use crate::render::mode::RasterPass;
use crate::render::rasterize::{Pixel, RasterizeUniforms, SplatTable, BYTE_SCALE};
use crate::render::tiles::{clamped, even_bits, map_1d_to_2d, pixel_of, TILE_SIZE};
use crate::single::{single, Single};
use vstd::prelude::*;

verus! {

/// An image: packed colours or four singles for each pixel, and depths.
#[derive(Debug)]
pub struct Frame {
    pub packed: Vec<u32>,
    pub float: Vec<Single>,
    pub depth: Vec<Single>,
}

/// The coordinate of the centre of a pixel.
pub open spec fn center_of(g: Arith, index: int) -> Single {
    g(Op::Add(g(Op::FromInt(index as i64)), single(HALF)))
}

/// A colour channel once the background shows through.
pub open spec fn over_background(g: Arith, sum: Single, t_acc: Single, bg: Single) -> Single {
    g(Op::Add(sum, g(Op::Mul(t_acc, bg))))
}

/// A channel as a byte.
pub open spec fn channel_byte(g: Arith, value: Single) -> int {
    clamped(
        g(Op::Mul(value, single(BYTE_SCALE))),
        single(ZERO),
        single(BYTE_SCALE),
    ).truncated(0, 255)
}

impl Pixel {
    pub open spec fn final_r(self, g: Arith, u: RasterizeUniforms) -> Single {
        over_background(g, self.r, self.t_acc, u.bg_r)
    }

    pub open spec fn final_g(self, g: Arith, u: RasterizeUniforms) -> Single {
        over_background(g, self.g, self.t_acc, u.bg_g)
    }

    pub open spec fn final_b(self, g: Arith, u: RasterizeUniforms) -> Single {
        over_background(g, self.b, self.t_acc, u.bg_b)
    }

    pub open spec fn final_a(self, g: Arith) -> Single {
        g(Op::Sub(single(ONE), self.t_acc))
    }

    /// Red, green, blue and opacity, from the low byte up.
    pub open spec fn packed(self, g: Arith, u: RasterizeUniforms) -> u32 {
        (channel_byte(g, self.final_r(g, u)) + channel_byte(g, self.final_g(g, u)) * 0x100
            + channel_byte(g, self.final_b(g, u)) * 0x1_0000 + channel_byte(g, self.final_a(g))
            * 0x100_0000) as u32
    }

    /// The depth shown: that of the surface or, where the light never fell
    /// below one half, that of the last splat.
    pub open spec fn shown_depth(self) -> Single {
        if self.depth_set {
            self.depth
        } else {
            self.last_depth
        }
    }
}

/// Column and row of the pixel at a place of a tile.
pub open spec fn pixel_at(u: RasterizeUniforms, tile: u32, place: int) -> (int, int) {
    pixel_of((tile * TILE_SIZE + place) as u32, u.tile_bw)
}

/// The pixel at a place of a tile lies in the image.
pub open spec fn in_image(u: RasterizeUniforms, tile: u32, place: int) -> bool {
    let (x, y) = pixel_at(u, tile, place);
    x < u.img_w && y < u.img_h
}

/// Index, in the image, of the pixel at a place of a tile.
pub open spec fn index_at(u: RasterizeUniforms, tile: u32, place: int) -> int {
    let (x, y) = pixel_at(u, tile, place);
    x + y * u.img_w
}

/// Some pixel of the tile that lies in the image has index `i`.
pub open spec fn in_tile(u: RasterizeUniforms, tile: u32, i: int) -> bool {
    exists|place: int|
        0 <= place < TILE_SIZE && in_image(u, tile, place) && #[trigger] index_at(u, tile, place)
            == i
}

impl SplatTable {
    /// What the pixel at a place of a tile has gathered from `lo..hi`.
    pub open spec fn gathered(
        self,
        g: Arith,
        u: RasterizeUniforms,
        pass: RasterPass,
        tile: u32,
        place: int,
        lo: int,
        hi: int,
    ) -> Pixel {
        let (x, y) = pixel_at(u, tile, place);
        self.composed(
            g,
            center_of(g, x),
            center_of(g, y),
            pass == RasterPass::BackwardSmoothCutoff,
            in_image(u, tile, place),
            lo,
            hi,
        )
    }

    /// One of the first `n` pixels of the tile marks splat `v` as visible.
    pub open spec fn marked_in_tile(
        self,
        g: Arith,
        u: RasterizeUniforms,
        pass: RasterPass,
        tile: u32,
        lo: int,
        hi: int,
        v: int,
        n: int,
    ) -> bool {
        exists|place: int|
            0 <= place < n && #[trigger] self.marked_at(g, u, pass, tile, lo, hi, v, place)
    }

    /// The pixel at a place of the tile marks splat `v` as visible.
    pub open spec fn marked_at(
        self,
        g: Arith,
        u: RasterizeUniforms,
        pass: RasterPass,
        tile: u32,
        lo: int,
        hi: int,
        v: int,
        place: int,
    ) -> bool {
        let (x, y) = pixel_at(u, tile, place);
        self.marked(
            g,
            center_of(g, x),
            center_of(g, y),
            pass == RasterPass::BackwardSmoothCutoff,
            in_image(u, tile, place),
            lo,
            hi,
            v,
        )
    }

    /// One past the last intersection that any of the first `n` pixels of a
    /// tile used.
    pub open spec fn farthest(
        self,
        g: Arith,
        u: RasterizeUniforms,
        pass: RasterPass,
        tile: u32,
        lo: int,
        hi: int,
        n: nat,
    ) -> int
        decreases n,
    {
        if n == 0 {
            lo
        } else {
            let before = self.farthest(g, u, pass, tile, lo, hi, (n - 1) as nat);
            let here = self.gathered(g, u, pass, tile, n - 1, lo, hi).last_useful as int;
            if here > before {
                here
            } else {
                before
            }
        }
    }
}

/// Different places of a tile are different pixels of the image.
pub proof fn lemma_places_differ(u: RasterizeUniforms, tile: u32, a: int, b: int)
    requires
        u.tile_bw > 0,
        tile < 0x100_0000,
        0 <= a < TILE_SIZE,
        0 <= b < TILE_SIZE,
        in_image(u, tile, a),
        in_image(u, tile, b),
        index_at(u, tile, a) == index_at(u, tile, b),
    ensures
        a == b,
{
    let (ax, ay) = pixel_at(u, tile, a);
    let (bx, by) = pixel_at(u, tile, b);
    let w = u.img_w as int;
    assert(ax == bx && ay == by) by (nonlinear_arith)
        requires
            ax + ay * w == bx + by * w,
            0 <= ax < w,
            0 <= bx < w,
    ;
    let p = a as u32;
    let q = b as u32;
    let id_a = (tile * TILE_SIZE + a) as u32;
    let id_b = (tile * TILE_SIZE + b) as u32;
    assert(id_a / TILE_SIZE == tile && id_a % TILE_SIZE == p);
    assert(id_b / TILE_SIZE == tile && id_b % TILE_SIZE == q);
    assert(even_bits(p) == even_bits(q));
    assert(even_bits(p >> 1u32) == even_bits(
        q >> 1u32,
    ));
    lemma_morton_injective(p, q);
}

/// The Morton order of a tile visits no pixel twice.
pub proof fn lemma_morton_injective(p: u32, q: u32)
    by (bit_vector)
    requires
        p < 256,
        q < 256,
        even_bits(p) == even_bits(q),
        even_bits(p >> 1u32) == even_bits(q >> 1u32),
    ensures
        p == q,
{
}

/// The parts of an image that a pass writes have the size of the image.
pub open spec fn fits(frame: Frame, u: RasterizeUniforms, pass: RasterPass) -> bool {
    &&& frame.depth@.len() == u.img_w * u.img_h
    &&& pass == RasterPass::Forward ==> frame.packed@.len() == u.img_w * u.img_h
    &&& pass != RasterPass::Forward ==> frame.float@.len() == u.img_w * u.img_h * 4
}

fn byte_of<F: Fn(Op) -> Single>(f: &F, value: Single) -> (r: u32)
    requires
        total(*f),
    ensures
        r <= 255,
        forall|g: Arith| #[trigger] computes(*f, g) ==> r == channel_byte(g, value),
{
    let scaled: Single = f(Op::Mul(value, single(BYTE_SCALE)));
    let raised: Single = if scaled.gt(single(ZERO)) {
        scaled
    } else {
        single(ZERO)
    };
    let held: Single = if raised.lt(single(BYTE_SCALE)) {
        raised
    } else {
        single(BYTE_SCALE)
    };
    held.truncate(0, 255) as u32
}

fn blend<F: Fn(Op) -> Single>(f: &F, sum: Single, t_acc: Single, bg: Single) -> (r: Single)
    requires
        total(*f),
    ensures
        forall|g: Arith| #[trigger] computes(*f, g) ==> r == over_background(g, sum, t_acc, bg),
{
    let through: Single = f(Op::Mul(t_acc, bg));
    f(Op::Add(sum, through))
}

/// Write a finished pixel into the image.
fn store_pixel<F: Fn(Op) -> Single>(
    f: &F,
    frame: &mut Frame,
    u: &RasterizeUniforms,
    pass: RasterPass,
    at: usize,
    pixel: Pixel,
)
    requires
        total(*f),
        fits(*old(frame), *u, pass),
        at < u.img_w * u.img_h,
        u.img_w * u.img_h * 4 <= usize::MAX,
    ensures
        fits(*final(frame), *u, pass),
        final(frame).depth@ == old(frame).depth@.update(at as int, pixel.shown_depth()),
        forall|i: int|
            0 <= i < u.img_w * u.img_h && i != at ==> #[trigger] shows_same(
                *final(frame),
                *old(frame),
                pass,
                i,
            ),
        forall|g: Arith| #[trigger]
            computes(*f, g) ==> {
                &&& pass == RasterPass::Forward ==> final(frame).packed@
                    == old(frame).packed@.update(at as int, pixel.packed(g, *u))
                    && final(frame).float@ == old(frame).float@
                &&& pass != RasterPass::Forward ==> final(frame).packed@ == old(frame).packed@
                    && final(frame).float@ == old(frame).float@.update(
                    at * 4,
                    pixel.final_r(g, *u),
                ).update(at * 4 + 1, pixel.final_g(g, *u)).update(
                    at * 4 + 2,
                    pixel.final_b(g, *u),
                ).update(at * 4 + 3, pixel.final_a(g))
            },
{
    let r: Single = blend(f, pixel.r, pixel.t_acc, u.bg_r);
    let g: Single = blend(f, pixel.g, pixel.t_acc, u.bg_g);
    let b: Single = blend(f, pixel.b, pixel.t_acc, u.bg_b);
    let a: Single = f(Op::Sub(single(ONE), pixel.t_acc));
    let depth: Single = if pixel.depth_set {
        pixel.depth
    } else {
        pixel.last_depth
    };
    frame.depth.set(at, depth);
    if pass.bwd_info() {
        frame.float.set(at * 4, r);
        frame.float.set(at * 4 + 1, g);
        frame.float.set(at * 4 + 2, b);
        frame.float.set(at * 4 + 3, a);
    } else {
        let r: u32 = byte_of(f, r);
        let g: u32 = byte_of(f, g);
        let b: u32 = byte_of(f, b);
        let a: u32 = byte_of(f, a);
        frame.packed.set(at, r + g * 0x100 + b * 0x1_0000 + a * 0x100_0000);
    }
}

/// What the image shows of the pixel with index `i` when it has gathered
/// `pixel`.
pub open spec fn shows(
    frame: Frame,
    g: Arith,
    u: RasterizeUniforms,
    pass: RasterPass,
    i: int,
    pixel: Pixel,
) -> bool {
    &&& frame.depth@[i] == pixel.shown_depth()
    &&& pass == RasterPass::Forward ==> frame.packed@[i] == pixel.packed(g, u)
    &&& pass != RasterPass::Forward ==> {
        &&& frame.float@[i * 4] == pixel.final_r(g, u)
        &&& frame.float@[i * 4 + 1] == pixel.final_g(g, u)
        &&& frame.float@[i * 4 + 2] == pixel.final_b(g, u)
        &&& frame.float@[i * 4 + 3] == pixel.final_a(g)
    }
}

/// Two images show the same at index `i`.
pub open spec fn shows_same(a: Frame, b: Frame, pass: RasterPass, i: int) -> bool {
    &&& a.depth@[i] == b.depth@[i]
    &&& pass == RasterPass::Forward ==> a.packed@[i] == b.packed@[i]
    &&& pass != RasterPass::Forward ==> {
        &&& a.float@[i * 4] == b.float@[i * 4]
        &&& a.float@[i * 4 + 1] == b.float@[i * 4 + 1]
        &&& a.float@[i * 4 + 2] == b.float@[i * 4 + 2]
        &&& a.float@[i * 4 + 3] == b.float@[i * 4 + 3]
    }
}

impl SplatTable {
    /// Draw one tile of the image. A pass that keeps backward information marks
    /// the splats that are visible and cuts the range of the tile to the
    /// intersections that some pixel used.
    pub fn rasterize_kernel<F: Fn(Op) -> Single>(
        &self,
        f: &F,
        tile: u32,
        tile_offsets: &mut Vec<u32>,
        frame: &mut Frame,
        visible: &mut Vec<Single>,
        u: &RasterizeUniforms,
        pass: RasterPass,
    )
        requires
            total(*f),
            u.tile_bw > 0,
            tile < 0x100_0000,
            tile * 2 + 1 < old(tile_offsets)@.len(),
            self.covers(
                old(tile_offsets)@[tile * 2] as int,
                old(tile_offsets)@[tile * 2 + 1] as int,
                old(visible)@.len() as int,
            ),
            fits(*old(frame), *u, pass),
            u.img_w * u.img_h * 4 <= u32::MAX,
        ensures
            fits(*final(frame), *u, pass),
            final(visible)@.len() == old(visible)@.len(),
            final(tile_offsets)@.len() == old(tile_offsets)@.len(),
            forall|g: Arith| #[trigger]
                computes(*f, g) ==> {
                    let lo = old(tile_offsets)@[tile * 2] as int;
                    let hi = old(tile_offsets)@[tile * 2 + 1] as int;
                    &&& forall|place: int|
                        0 <= place < TILE_SIZE && in_image(*u, tile, place) ==> shows(
                            *final(frame),
                            g,
                            *u,
                            pass,
                            #[trigger] index_at(*u, tile, place),
                            self.gathered(g, *u, pass, tile, place, lo, hi),
                        )
                    &&& forall|i: int|
                        0 <= i < u.img_w * u.img_h && !in_tile(*u, tile, i) ==> #[trigger]
                        shows_same(*final(frame), *old(frame), pass, i)
                    &&& forall|v: int|
                        0 <= v < old(visible)@.len() ==> #[trigger] final(visible)@[v] == if pass
                            != RasterPass::Forward && self.marked_in_tile(
                            g,
                            *u,
                            pass,
                            tile,
                            lo,
                            hi,
                            v,
                            TILE_SIZE as int,
                        ) {
                            single(ONE)
                        } else {
                            old(visible)@[v]
                        }
                    &&& final(tile_offsets)@ == if pass != RasterPass::Forward {
                        old(tile_offsets)@.update(
                            tile * 2 + 1,
                            self.farthest(g, *u, pass, tile, lo, hi, TILE_SIZE as nat) as u32,
                        )
                    } else {
                        old(tile_offsets)@
                    }
                },
    {
        let lo: u32 = tile_offsets[tile as usize * 2];
        let hi: u32 = tile_offsets[tile as usize * 2 + 1];
        let ghost first_frame = *frame;
        let ghost first_visible = visible@;
        let mut farthest: u32 = lo;
        let mut place: u32 = 0;
        while place < TILE_SIZE
            invariant
                total(*f),
                u.tile_bw > 0,
                tile < 0x100_0000,
                place <= TILE_SIZE,
                self.covers(lo as int, hi as int, first_visible.len() as int),
                fits(*frame, *u, pass),
                fits(first_frame, *u, pass),
                u.img_w * u.img_h * 4 <= u32::MAX,
                visible@.len() == first_visible.len(),
                forall|g: Arith| #[trigger]
                    computes(*f, g) ==> farthest == self.farthest(
                        g,
                        *u,
                        pass,
                        tile,
                        lo as int,
                        hi as int,
                        place as nat,
                    ),
                forall|g: Arith, p: int|
                    #![trigger computes(*f, g), index_at(*u, tile, p)]
                    computes(*f, g) && 0 <= p < place && in_image(*u, tile, p) ==> shows(
                        *frame,
                        g,
                        *u,
                        pass,
                        index_at(*u, tile, p),
                        self.gathered(g, *u, pass, tile, p, lo as int, hi as int),
                    ),
                forall|i: int|
                    0 <= i < u.img_w * u.img_h && !in_tile(*u, tile, i) ==> #[trigger] shows_same(
                        *frame,
                        first_frame,
                        pass,
                        i,
                    ),
                forall|g: Arith, v: int|
                    #![trigger computes(*f, g), visible@[v]]
                    computes(*f, g) && 0 <= v < first_visible.len() ==> visible@[v] == if pass
                        != RasterPass::Forward && self.marked_in_tile(
                        g,
                        *u,
                        pass,
                        tile,
                        lo as int,
                        hi as int,
                        v,
                        place as int,
                    ) {
                        single(ONE)
                    } else {
                        first_visible[v]
                    },
            decreases TILE_SIZE - place,
        {
            let ghost shown = visible@;
            let ghost frame_before = *frame;
            let (x, y): (u32, u32) = map_1d_to_2d(tile * TILE_SIZE + place, u.tile_bw);
            let inside: bool = x < u.img_w && y < u.img_h;
            let column: Single = f(Op::FromInt(x as i64));
            let row: Single = f(Op::FromInt(y as i64));
            let cx: Single = f(Op::Add(column, single(HALF)));
            let cy: Single = f(Op::Add(row, single(HALF)));
            let pixel: Pixel = self.compose_pixel(f, cx, cy, pass, inside, lo, hi, visible);
            assert(inside == in_image(*u, tile, place as int));
            assert forall|g: Arith| #[trigger] computes(*f, g) implies pixel == self.gathered(
                g,
                *u,
                pass,
                tile,
                place as int,
                lo as int,
                hi as int,
            ) by {}
            proof {
                self.lemma_marks_grow(f, u, pass, tile, lo, hi, place, first_visible, shown, visible@);
            }
            if inside {
                assert(x + y * u.img_w < u.img_w * u.img_h) by (nonlinear_arith)
                    requires
                        x < u.img_w,
                        y < u.img_h,
                ;
                assert(y * u.img_w <= u32::MAX) by (nonlinear_arith)
                    requires
                        x + y * u.img_w < u.img_w * u.img_h,
                        u.img_w * u.img_h * 4 <= u32::MAX,
                        x >= 0,
                ;
                let at: usize = (x + y * u.img_w) as usize;
                store_pixel(f, frame, u, pass, at, pixel);
                proof {
                    assert(at == index_at(*u, tile, place as int));
                    assert forall|g: Arith, p: int|
                        #![trigger computes(*f, g), index_at(*u, tile, p)]
                        computes(*f, g) && 0 <= p < place + 1 && in_image(
                            *u,
                            tile,
                            p,
                        ) implies shows(
                        *frame,
                        g,
                        *u,
                        pass,
                        index_at(*u, tile, p),
                        self.gathered(g, *u, pass, tile, p, lo as int, hi as int),
                    ) by {
                        if p != place {
                            if index_at(*u, tile, p) == at {
                                lemma_places_differ(*u, tile, p, place as int);
                            }
                            lemma_index_in_image(*u, tile, p);
                        }
                    }
                    assert forall|i: int|
                        0 <= i < u.img_w * u.img_h && !in_tile(*u, tile, i) implies #[trigger]
                    shows_same(*frame, first_frame, pass, i) by {
                        assert(shows_same(frame_before, first_frame, pass, i));
                        assert(i != at);
                        assert(shows_same(*frame, frame_before, pass, i));
                    }
                }
            }
            if pixel.last_useful > farthest {
                farthest = pixel.last_useful;
            }
            place = place + 1;
        }
        if pass.bwd_info() {
            tile_offsets.set(tile as usize * 2 + 1, farthest);
        }
    }

    /// After one more pixel the marks are those of one more pixel.
    proof fn lemma_marks_grow<F: Fn(Op) -> Single>(
        self,
        f: &F,
        u: &RasterizeUniforms,
        pass: RasterPass,
        tile: u32,
        lo: u32,
        hi: u32,
        place: u32,
        first: Seq<Single>,
        before: Seq<Single>,
        after: Seq<Single>,
    )
        requires
            before.len() == first.len(),
            after.len() == first.len(),
            forall|g: Arith, v: int|
                #![trigger computes(*f, g), before[v]]
                computes(*f, g) && 0 <= v < first.len() ==> before[v] == if pass
                    != RasterPass::Forward && self.marked_in_tile(
                    g,
                    *u,
                    pass,
                    tile,
                    lo as int,
                    hi as int,
                    v,
                    place as int,
                ) {
                    single(ONE)
                } else {
                    first[v]
                },
            forall|g: Arith| #[trigger]
                computes(*f, g) ==> forall|v: int|
                    0 <= v < first.len() ==> #[trigger] after[v] == if pass != RasterPass::Forward
                        && self.marked_at(
                        g,
                        *u,
                        pass,
                        tile,
                        lo as int,
                        hi as int,
                        v,
                        place as int,
                    ) {
                        single(ONE)
                    } else {
                        before[v]
                    },
        ensures
            forall|g: Arith, v: int|
                #![trigger computes(*f, g), after[v]]
                computes(*f, g) && 0 <= v < first.len() ==> after[v] == if pass
                    != RasterPass::Forward && self.marked_in_tile(
                    g,
                    *u,
                    pass,
                    tile,
                    lo as int,
                    hi as int,
                    v,
                    place + 1,
                ) {
                    single(ONE)
                } else {
                    first[v]
                },
    {
        assert forall|g: Arith, v: int|
            #![trigger computes(*f, g), after[v]]
            computes(*f, g) && 0 <= v < first.len() implies after[v] == if pass
            != RasterPass::Forward && self.marked_in_tile(
            g,
            *u,
            pass,
            tile,
            lo as int,
            hi as int,
            v,
            place + 1,
        ) {
            single(ONE)
        } else {
            first[v]
        } by {
            let l = lo as int;
            let h = hi as int;
            let p = place as int;
            assert(before[v] == if pass != RasterPass::Forward && self.marked_in_tile(
                g,
                *u,
                pass,
                tile,
                l,
                h,
                v,
                p,
            ) {
                single(ONE)
            } else {
                first[v]
            });
            if self.marked_in_tile(g, *u, pass, tile, l, h, v, p) {
                let k = choose|k: int|
                    0 <= k < p && #[trigger] self.marked_at(g, *u, pass, tile, l, h, v, k);
                assert(self.marked_at(g, *u, pass, tile, l, h, v, k));
            }
            if self.marked_in_tile(g, *u, pass, tile, l, h, v, p + 1) {
                let k = choose|k: int|
                    0 <= k < p + 1 && #[trigger] self.marked_at(g, *u, pass, tile, l, h, v, k);
                if k < p {
                    assert(self.marked_in_tile(g, *u, pass, tile, l, h, v, p));
                }
            }
        }
    }
}

/// A pixel of the image has an index of the image.
pub proof fn lemma_index_in_image(u: RasterizeUniforms, tile: u32, place: int)
    requires
        u.tile_bw > 0,
        tile < 0x100_0000,
        0 <= place < TILE_SIZE,
        in_image(u, tile, place),
    ensures
        0 <= index_at(u, tile, place) < u.img_w * u.img_h,
{
    let (x, y) = pixel_at(u, tile, place);
    let w = u.img_w as int;
    let h = u.img_h as int;
    assert(0 <= x + y * w < w * h) by (nonlinear_arith)
        requires
            0 <= x < w,
            0 <= y < h,
    ;
}

} // verus!
