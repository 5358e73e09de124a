//! What holds of tiles, splats and pixels at all times.

use crate::arith::{Arith, ONE};
use crate::render::frame::{in_image, index_at, lemma_places_differ, pixel_at};
use crate::render::rasterize::{
    lanes_of, splat_at, Pixel, RasterizeUniforms, Splat, SplatTable, FAR_DEPTH, OPAQUE_BELOW,
    PROJECTED_LANES,
};
use crate::render::splats::{scrubbed, Splats, MAX_COLOR, MIN_COLOR};
use crate::render::tiles::{even_bits, lemma_within_tile, within_tile, TILE_SIZE, TILE_WIDTH};
use crate::single::{single, Single};
use vstd::prelude::*;

verus! {

/// The place, in Morton order, of a column and row of a tile.
pub open spec fn place_in_tile(x: u32, y: u32) -> u32 {
    (x & 1) | ((y & 1) << 1u32) | ((x & 2) << 1u32) | ((y & 2) << 2u32) | ((x & 4) << 2u32) | ((y
        & 4) << 3u32) | ((x & 8) << 3u32) | ((y & 8) << 4u32)
}

/// Morton order visits every pixel of a tile exactly once.
pub proof fn law_morton_order_covers_tile(x: u32, y: u32, place: u32)
    requires
        x < TILE_WIDTH,
        y < TILE_WIDTH,
        place < TILE_SIZE,
    ensures
        place_in_tile(x, y) < TILE_SIZE,
        within_tile(place_in_tile(x, y)) == (x, y),
        within_tile(place) == (x, y) ==> place == place_in_tile(x, y),
{
    let p = place_in_tile(x, y);
    assert(x < 16 && y < 16 ==> {
        &&& place_in_tile(x, y) < 256
        &&& even_bits(place_in_tile(x, y)) == x
        &&& even_bits(place_in_tile(x, y) >> 1u32) == y
    }) by (bit_vector);
    if within_tile(place) == (x, y) {
        crate::render::frame::lemma_morton_injective(place, p);
    }
}

/// The pixels of a tile lie in the tile: dividing their coordinates by the
/// width of a tile gives back the tile.
pub proof fn law_pixels_lie_in_their_tile(u: RasterizeUniforms, tile: u32, place: int)
    requires
        u.tile_bw > 0,
        tile < 0x100_0000,
        0 <= place < TILE_SIZE,
    ensures
        ({
            let (x, y) = pixel_at(u, tile, place);
            x / TILE_WIDTH as int + y / TILE_WIDTH as int * u.tile_bw == tile
        }),
{
    let id = (tile * TILE_SIZE + place) as u32;
    assert(id / TILE_SIZE == tile && id % TILE_SIZE == place);
    lemma_within_tile(place as u32);
    let bw = u.tile_bw as int;
    assert((tile as int) % bw + (tile as int) / bw * bw == tile) by {
        vstd::arithmetic::div_mod::lemma_fundamental_div_mod(tile as int, bw);
        assert(bw * ((tile as int) / bw) == (tile as int) / bw * bw) by (nonlinear_arith);
    }
    let (x, y) = pixel_at(u, tile, place);
    assert(x / TILE_WIDTH as int == (tile as int) % bw);
    assert(y / TILE_WIDTH as int == (tile as int) / bw);
}

/// Two tiles never draw the same pixel.
pub proof fn law_tiles_are_disjoint(u: RasterizeUniforms, a: u32, b: u32, p: int, q: int)
    requires
        u.tile_bw > 0,
        a < 0x100_0000,
        b < 0x100_0000,
        0 <= p < TILE_SIZE,
        0 <= q < TILE_SIZE,
        in_image(u, a, p),
        in_image(u, b, q),
        index_at(u, a, p) == index_at(u, b, q),
    ensures
        a == b,
        p == q,
{
    let (ax, ay) = pixel_at(u, a, p);
    let (bx, by) = pixel_at(u, b, q);
    let w = u.img_w as int;
    assert(ax == bx && ay == by) by (nonlinear_arith)
        requires
            ax + ay * w == bx + by * w,
            0 <= ax < w,
            0 <= bx < w,
    ;
    law_pixels_lie_in_their_tile(u, a, p);
    law_pixels_lie_in_their_tile(u, b, q);
    lemma_places_differ(u, a, p, q);
}

/// A splat that has been written reads back as it was, and the others are
/// untouched.
pub proof fn law_splat_reads_back(
    before: Seq<Single>,
    after: Seq<Single>,
    idx: int,
    other: int,
    splat: Splat,
)
    requires
        0 <= idx,
        0 <= other,
        other != idx,
        (idx + 1) * PROJECTED_LANES <= before.len(),
        (other + 1) * PROJECTED_LANES <= before.len(),
        after.len() == before.len(),
        forall|i: int|
            0 <= i < before.len() ==> #[trigger] after[i] == if idx * PROJECTED_LANES <= i < (idx
                + 1) * PROJECTED_LANES {
                lanes_of(splat)[i - idx * PROJECTED_LANES]
            } else {
                before[i]
            },
    ensures
        splat_at(after, idx) == splat,
        splat_at(after, other) == splat_at(before, other),
{
}

/// A pixel without splats shows the background and the farthest depth.
pub proof fn law_empty_range_leaves_pixel_blank(
    table: SplatTable,
    g: Arith,
    x: Single,
    y: Single,
    smooth: bool,
    lo: int,
)
    ensures
        table.composed(g, x, y, smooth, true, lo, lo).t_acc == single(ONE),
        table.composed(g, x, y, smooth, true, lo, lo).shown_depth() == single(FAR_DEPTH),
{
}

/// A pixel outside of the image gathers nothing.
pub proof fn law_outside_pixel_gathers_nothing(
    table: SplatTable,
    g: Arith,
    x: Single,
    y: Single,
    smooth: bool,
    lo: int,
    hi: int,
)
    requires
        lo <= hi,
    ensures
        table.composed(g, x, y, smooth, false, lo, hi) == crate::render::rasterize::blank(
            lo as u32,
            false,
        ),
    decreases hi - lo,
{
    if lo < hi {
        law_outside_pixel_gathers_nothing(table, g, x, y, smooth, lo, hi - 1);
    }
}

/// The light that comes through a pixel never falls to the level at which the
/// pixel counts as opaque: the splat that would take it there is left out.
pub proof fn law_pixel_stays_above_opaque(
    table: SplatTable,
    g: Arith,
    x: Single,
    y: Single,
    smooth: bool,
    inside: bool,
    lo: int,
    hi: int,
)
    ensures
        !table.composed(g, x, y, smooth, inside, lo, hi).t_acc.at_most(single(OPAQUE_BELOW)),
    decreases hi - lo,
{
    if lo < hi {
        law_pixel_stays_above_opaque(table, g, x, y, smooth, inside, lo, hi - 1);
    }
}

/// The last useful intersection of a pixel lies in its range.
pub proof fn law_last_useful_in_range(
    table: SplatTable,
    g: Arith,
    x: Single,
    y: Single,
    smooth: bool,
    inside: bool,
    lo: int,
    hi: int,
)
    requires
        0 <= lo <= hi <= u32::MAX,
    ensures
        lo <= table.composed(g, x, y, smooth, inside, lo, hi).last_useful <= hi,
    decreases hi - lo,
{
    if lo < hi {
        law_last_useful_in_range(table, g, x, y, smooth, inside, lo, hi - 1);
    }
}

/// Cutting the range of a tile to one past the last useful intersection
/// changes no colour and no depth.
pub proof fn law_cut_range_draws_the_same(
    table: SplatTable,
    g: Arith,
    x: Single,
    y: Single,
    smooth: bool,
    inside: bool,
    lo: int,
    cut: int,
    hi: int,
)
    requires
        0 <= lo <= cut <= hi <= u32::MAX,
        table.composed(g, x, y, smooth, inside, lo, hi).last_useful <= cut,
    ensures
        same_light(
            table.composed(g, x, y, smooth, inside, lo, cut),
            table.composed(g, x, y, smooth, inside, lo, hi),
        ),
    decreases hi - cut,
{
    if cut < hi {
        let before = table.composed(g, x, y, smooth, inside, lo, hi - 1);
        law_last_useful_in_range(table, g, x, y, smooth, inside, lo, hi - 1);
        law_cut_range_draws_the_same(table, g, x, y, smooth, inside, lo, cut, hi - 1);
    }
}

/// Two pixels have gathered the same.
pub open spec fn same_light(a: Pixel, b: Pixel) -> bool {
    &&& a.t_acc == b.t_acc
    &&& a.r == b.r
    &&& a.g == b.g
    &&& a.b == b.b
    &&& a.shown_depth() == b.shown_depth()
    &&& a.last_useful == b.last_useful
}

/// A scrubbed colour is a number between -100 and 100; one that was in that
/// range is kept.
pub proof fn law_scrubbed_color_in_range(color: Single)
    ensures
        single(MIN_COLOR).at_most(scrubbed(color)),
        scrubbed(color).at_most(single(MAX_COLOR)),
        single(MIN_COLOR).below(color) && color.below(single(MAX_COLOR)) ==> scrubbed(color)
            == color,
{
}

/// Giving splats a number of coefficients that they have already changes
/// nothing, so doing it twice is as doing it once.
pub proof fn law_resizing_twice_is_resizing_once(
    before: Splats,
    once: Splats,
    twice: Splats,
    n_coeffs: usize,
)
    requires
        once.resized(before, n_coeffs),
        twice.resized(once, n_coeffs),
    ensures
        twice.transforms@ == once.transforms@,
        twice.sh_coeffs@ == once.sh_coeffs@,
        twice.coeff_count == once.coeff_count,
        twice.raw_opacities@ == once.raw_opacities@,
        twice.render_mip == once.render_mip,
{
    let row = n_coeffs * 3;
    let count = once.count();
    assert(twice.sh_coeffs@.len() == count * row);
    assert forall|j: int| 0 <= j < count * row implies twice.sh_coeffs@[j]
        == once.sh_coeffs@[j] by {
        assert(row > 0) by (nonlinear_arith)
            requires
                0 <= j < count * row,
                row >= 0,
        ;
        let i = j / row;
        let rest = j % row;
        vstd::arithmetic::div_mod::lemma_fundamental_div_mod(j, row);
        vstd::arithmetic::div_mod::lemma_mod_bound(j, row);
        assert(0 <= i < count) by (nonlinear_arith)
            requires
                0 <= j < count * row,
                j == row * i + rest,
                0 <= rest < row,
        ;
        let k = rest / 3;
        let c = rest % 3;
        assert(i * row + k * 3 + c == j) by (nonlinear_arith)
            requires
                j == row * i + rest,
                rest == k * 3 + c,
        ;
        assert(twice.coeff(i, k, c) == once.coeff(i, k, c));
    }
    assert(twice.sh_coeffs@ =~= once.sh_coeffs@);
}

/// Giving splats a degree twice is as giving it once, where the number of
/// coefficients for the degree is always the same.
pub proof fn law_degree_given_twice_is_given_once<C: Fn(u32) -> u32>(
    before: Splats,
    once: Splats,
    twice: Splats,
    sh_degree: u32,
    coeffs_for_degree: C,
)
    requires
        once.with_degree(before, sh_degree, coeffs_for_degree),
        twice.with_degree(once, sh_degree, coeffs_for_degree),
        forall|n: u32, m: u32| #[trigger]
            call_ensures(coeffs_for_degree, (sh_degree,), n) && #[trigger] call_ensures(
                coeffs_for_degree,
                (sh_degree,),
                m,
            ) ==> n == m,
    ensures
        twice.transforms@ == once.transforms@,
        twice.sh_coeffs@ == once.sh_coeffs@,
        twice.coeff_count == once.coeff_count,
        twice.raw_opacities@ == once.raw_opacities@,
        twice.render_mip == once.render_mip,
{
    let n = choose|n: u32| #[trigger]
        call_ensures(coeffs_for_degree, (sh_degree,), n) && once.resized(before, n as usize);
    let m = choose|m: u32| #[trigger]
        call_ensures(coeffs_for_degree, (sh_degree,), m) && twice.resized(once, m as usize);
    assert(n == m);
    law_resizing_twice_is_resizing_once(before, once, twice, n as usize);
}

/// The degree that splats were given is the one that is read back, where the
/// number of coefficients for a degree tells the degree.
pub proof fn law_degree_is_read_back<C: Fn(u32) -> u32, D: Fn(u32) -> u32>(
    before: Splats,
    after: Splats,
    sh_degree: u32,
    coeffs_for_degree: C,
    degree_from_coeffs: D,
    read: u32,
)
    requires
        after.with_degree(before, sh_degree, coeffs_for_degree),
        call_ensures(degree_from_coeffs, (after.coeff_count as u32,), read),
        forall|n: u32, degree: u32|
            call_ensures(coeffs_for_degree, (sh_degree,), n) && #[trigger] call_ensures(
                degree_from_coeffs,
                (n,),
                degree,
            ) ==> degree == sh_degree,
    ensures
        read == sh_degree,
{
    let n = choose|n: u32| #[trigger]
        call_ensures(coeffs_for_degree, (sh_degree,), n) && after.resized(before, n as usize);
    assert(after.coeff_count as u32 == n);
}

} // verus!
