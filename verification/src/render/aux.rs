//! What comes out of a render besides the image.

use crate::render::project::ProjectUniforms;
use crate::render::tiles::TILE_WIDTH;
use crate::text::{decimal, push_decimal};
use vstd::prelude::*;
use vstd::string::StringExecFns;

verus! {

/// What a render tells of the splats. `T` holds numbers with a fraction and `I`
/// whole numbers.
#[derive(Debug)]
pub struct RenderAuxInner<T, I> {
    /// Splats that the camera sees.
    pub num_visible: u32,
    /// Pairs of a splat and a tile that it reaches into.
    pub num_intersections: u32,
    /// For each splat, whether a pixel shows it.
    pub visible: T,
    /// For each splat, its largest radius in the image.
    pub max_radius: T,
    /// For each tile, the ends of its range of intersections.
    pub tile_offsets: I,
    pub img_w: u32,
    pub img_h: u32,
}

/// All that a render gives. `P` and `L` are what the model of the camera goes by.
#[derive(Debug)]
pub struct RenderOutput<T, I, P, L> {
    pub out_img: T,
    /// For each pixel, how far the surface there is from the camera.
    pub depth_img: T,
    pub aux: RenderAuxInner<T, I>,
    pub projected_splats: T,
    pub compact_gid_from_isect: I,
    pub project_uniforms: ProjectUniforms<P, L>,
    pub global_from_compact_gid: I,
}

/// What a render tells of the splats and of the pixels.
#[derive(Debug)]
pub struct RenderAux<T, I> {
    pub num_visible: u32,
    pub num_intersections: u32,
    pub visible: T,
    pub max_radius: T,
    pub tile_offsets: I,
    pub img_w: u32,
    pub img_h: u32,
    pub depth_img: T,
}

/// A count that cannot be.
#[derive(Clone, Copy, Debug, PartialEq, Eq, Structural)]
pub enum CountError {
    /// More splats are visible than there are.
    Visible { num_visible: u32, total_splats: u32 },
    /// There are more intersections than visible splats and tiles allow.
    Intersections { num_intersections: u32, most: u64 },
}

impl<T, I, P, L> RenderOutput<T, I, P, L> {
    /// The largest number of intersections.
    pub open spec fn most_intersections(self) -> int {
        self.aux.num_visible * self.project_uniforms.tile_bw * self.project_uniforms.tile_bh
    }

    /// The count that cannot be, if there is one.
    pub open spec fn flaw(self) -> Option<CountError> {
        let num_visible = self.aux.num_visible;
        let num_intersections = self.aux.num_intersections;
        let total_splats = self.project_uniforms.total_splats;
        if num_visible > total_splats {
            Some(CountError::Visible { num_visible, total_splats })
        } else if num_intersections > self.most_intersections() {
            Some(
                CountError::Intersections {
                    num_intersections,
                    most: self.most_intersections() as u64,
                },
            )
        } else {
            None
        }
    }

    /// Check the counts against each other.
    pub fn validate_counts(&self) -> (r: Result<(), CountError>)
        ensures
            r == match self.flaw() {
                Some(error) => Err::<(), CountError>(error),
                None => Ok(()),
            },
    {
        let num_visible: u32 = self.aux.num_visible;
        let total_splats: u32 = self.project_uniforms.total_splats;
        if num_visible > total_splats {
            return Err(CountError::Visible { num_visible, total_splats });
        }
        let tiles_x: u32 = self.project_uniforms.tile_bw;
        let tiles_y: u32 = self.project_uniforms.tile_bh;
        assert(num_visible * tiles_x <= 0xffff_ffff * 0xffff_ffff) by (nonlinear_arith)
            requires
                num_visible <= 0xffff_ffff,
                tiles_x <= 0xffff_ffff,
        ;
        let per_row: u128 = num_visible as u128 * tiles_x as u128;
        assert(per_row * tiles_y <= 0xffff_ffff * 0xffff_ffff * 0xffff_ffff) by (nonlinear_arith)
            requires
                0 <= per_row <= 0xffff_ffff * 0xffff_ffff,
                tiles_y <= 0xffff_ffff,
        ;
        let most: u128 = per_row * tiles_y as u128;
        if self.aux.num_intersections as u128 > most {
            return Err(
                CountError::Intersections {
                    num_intersections: self.aux.num_intersections,
                    most: most as u64,
                },
            );
        }
        Ok(())
    }
}

impl CountError {
    /// The text shown for a count that cannot be.
    pub open spec fn text(self) -> Seq<char> {
        match self {
            CountError::Visible { num_visible, total_splats } => "num_visible ("@ + decimal(
                num_visible as nat,
            ) + ") > total_splats ("@ + decimal(total_splats as nat) + ")"@,
            CountError::Intersections { num_intersections, most } => "num_intersections ("@
                + decimal(num_intersections as nat) + ") > max possible "@ + decimal(most as nat),
        }
    }

    pub fn message(&self) -> (r: String)
        ensures
            r@ == self.text(),
    {
        match self {
            CountError::Visible { num_visible, total_splats } => {
                let mut out: String = String::from_str("num_visible (");
                push_decimal(&mut out, *num_visible as u64);
                out.append(") > total_splats (");
                push_decimal(&mut out, *total_splats as u64);
                out.append(")");
                out
            },
            CountError::Intersections { num_intersections, most } => {
                let mut out: String = String::from_str("num_intersections (");
                push_decimal(&mut out, *num_intersections as u64);
                out.append(") > max possible ");
                push_decimal(&mut out, *most);
                out
            },
        }
    }
}

/// Number of intersections in each tile, row by row.
#[derive(Debug)]
pub struct TileDepth {
    pub rows: u32,
    pub columns: u32,
    pub depths: Vec<u32>,
}

/// Number of tiles that cover a number of pixels.
pub open spec fn tiles_over(pixels: u32) -> int {
    (pixels + TILE_WIDTH - 1) / TILE_WIDTH as int
}

fn count_tiles(pixels: u32) -> (r: u32)
    ensures
        r == tiles_over(pixels),
{
    if pixels % TILE_WIDTH == 0 {
        pixels / TILE_WIDTH
    } else {
        pixels / TILE_WIDTH + 1
    }
}

impl<T> RenderAux<T, Vec<u32>> {
    /// There are the ends of a range for every tile, and no range ends before it
    /// begins.
    pub open spec fn wf(self) -> bool {
        let tiles = tiles_over(self.img_w) * tiles_over(self.img_h);
        &&& self.tile_offsets@.len() == tiles * 2
        &&& forall|t: int|
            0 <= t < tiles ==> #[trigger] self.tile_offsets@[t * 2] <= self.tile_offsets@[t * 2 + 1]
    }

    /// The depth of each tile: how many intersections its range holds.
    pub fn calc_tile_depth(&self) -> (r: TileDepth)
        requires
            self.wf(),
        ensures
            r.rows == tiles_over(self.img_h),
            r.columns == tiles_over(self.img_w),
            r.depths@.len() == r.rows * r.columns,
            forall|t: int|
                0 <= t < r.depths@.len() ==> #[trigger] r.depths@[t] == self.tile_offsets@[t * 2
                    + 1] - self.tile_offsets@[t * 2],
    {
        let rows: u32 = count_tiles(self.img_h);
        let columns: u32 = count_tiles(self.img_w);
        let count: usize = self.tile_offsets.len() / 2;
        assert(tiles_over(self.img_w) * tiles_over(self.img_h) == rows * columns)
            by (nonlinear_arith)
            requires
                rows == tiles_over(self.img_h),
                columns == tiles_over(self.img_w),
        ;
        let mut depths: Vec<u32> = Vec::new();
        let mut t: usize = 0;
        while t < count
            invariant
                t <= count,
                count * 2 == self.tile_offsets@.len(),
                count == tiles_over(self.img_w) * tiles_over(self.img_h),
                self.wf(),
                depths@.len() == t,
                forall|k: int|
                    0 <= k < t ==> #[trigger] depths@[k] == self.tile_offsets@[k * 2 + 1]
                        - self.tile_offsets@[k * 2],
            decreases count - t,
        {
            assert(self.tile_offsets@.len() == self.tile_offsets.len());
            assert(self.tile_offsets@[t * 2] <= self.tile_offsets@[t * 2 + 1]);
            depths.push(self.tile_offsets[t * 2 + 1] - self.tile_offsets[t * 2]);
            t = t + 1;
        }
        TileDepth { rows, columns, depths }
    }
}

} // verus!
