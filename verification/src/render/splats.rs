//! The parameters of Gaussian splats.

use crate::arith::{computes, total, Arith, Op, ONE, ZERO};
use crate::render::mode::SplatRenderMode;
use crate::render::tiles::clamped;
use crate::single::{single, Single, INFINITY_BITS};
use vstd::prelude::*;

verus! {

/// Singles in the transform of a splat: its mean, its rotation and the
/// logarithms of its scales.
pub const TRANSFORM_LANES: usize = 10;

/// First lane of the rotation, and of the scales.
pub const ROTATION_LANE: usize = 3;

pub const SCALE_LANE: usize = 7;

/// Largest colour that a splat keeps, 100, and smallest, -100.
pub const MAX_COLOR: u32 = 0x42c8_0000;

pub const MIN_COLOR: u32 = 0xc2c8_0000;

/// The parameters of a set of splats.
#[derive(Debug)]
pub struct Splats {
    /// [`TRANSFORM_LANES`] singles for each splat.
    pub transforms: Vec<Single>,
    /// Three singles for each coefficient of each splat.
    pub sh_coeffs: Vec<Single>,
    /// Coefficients of a splat.
    pub coeff_count: usize,
    pub raw_opacities: Vec<Single>,
    pub render_mip: bool,
}

impl Splats {
    /// Number of splats.
    pub open spec fn count(self) -> int {
        self.transforms@.len() as int / TRANSFORM_LANES as int
    }

    /// All parameters are there for the same number of splats.
    pub open spec fn wf(self) -> bool {
        &&& self.transforms@.len() == self.count() * TRANSFORM_LANES
        &&& self.raw_opacities@.len() == self.count()
        &&& self.sh_coeffs@.len() == self.count() * (self.coeff_count * 3)
    }

    /// Lane `k` of the transform of splat `i`.
    pub open spec fn lane(self, i: int, k: int) -> Single {
        self.transforms@[i * TRANSFORM_LANES + k]
    }

    /// Channel `c` of coefficient `k` of splat `i`.
    pub open spec fn coeff(self, i: int, k: int, c: int) -> Single {
        self.sh_coeffs@[i * (self.coeff_count * 3) + k * 3 + c]
    }

    /// The splats are those before with `n_coeffs` coefficients each: those that
    /// there were stay, missing ones are zero, the others are gone.
    pub open spec fn resized(self, before: Splats, n_coeffs: usize) -> bool {
        &&& self.wf()
        &&& self.count() == before.count()
        &&& self.transforms@ == before.transforms@
        &&& self.raw_opacities@ == before.raw_opacities@
        &&& self.render_mip == before.render_mip
        &&& self.coeff_count == n_coeffs
        &&& forall|i: int, k: int, c: int|
            0 <= i < before.count() && 0 <= k < n_coeffs && 0 <= c < 3 ==> #[trigger] self.coeff(
                i,
                k,
                c,
            ) == if k < before.coeff_count {
                before.coeff(i, k, c)
            } else {
                single(ZERO)
            }
    }

    /// The splats are those before with as many coefficients as the function tells
    /// for the degree.
    pub open spec fn with_degree<C: Fn(u32) -> u32>(
        self,
        before: Splats,
        sh_degree: u32,
        coeffs_for_degree: C,
    ) -> bool {
        exists|n: u32| #[trigger]
            call_ensures(coeffs_for_degree, (sh_degree,), n) && self.resized(before, n as usize)
    }

    /// There is room for `n_coeffs` coefficients of each splat.
    pub open spec fn fits(self, n_coeffs: int) -> bool {
        n_coeffs * 3 <= usize::MAX && self.count() * (n_coeffs * 3) <= usize::MAX
    }

    /// The lanes `from..to` of all splats, splat by splat.
    pub open spec fn lanes(self, from: int, to: int) -> Seq<Single> {
        Seq::new(
            (self.count() * (to - from)) as nat,
            |j: int| self.lane(j / (to - from), from + j % (to - from)),
        )
    }
}

/// The data for a set of splats have lengths that fit each other.
pub open spec fn raw_fits(pos: int, rot: int, scale: int, coeffs: int, opac: int) -> bool {
    let n = pos / 3;
    &&& n > 0
    &&& pos == n * 3
    &&& rot == n * 4
    &&& scale == n * 3
    &&& opac == n
    &&& coeffs == n * (coeffs / n / 3 * 3)
}

impl Splats {
    /// Put a set of splats together from the data of each parameter.
    pub fn from_raw(
        pos_data: Vec<Single>,
        rot_data: Vec<Single>,
        scale_data: Vec<Single>,
        coeffs_data: Vec<Single>,
        opac_data: Vec<Single>,
        mode: SplatRenderMode,
    ) -> (r: Splats)
        requires
            raw_fits(
                pos_data@.len() as int,
                rot_data@.len() as int,
                scale_data@.len() as int,
                coeffs_data@.len() as int,
                opac_data@.len() as int,
            ),
            pos_data@.len() + rot_data@.len() + scale_data@.len() <= usize::MAX,
        ensures
            r.wf(),
            r.count() == pos_data@.len() as int / 3,
            r.lanes(0, ROTATION_LANE as int) == pos_data@,
            r.lanes(ROTATION_LANE as int, SCALE_LANE as int) == rot_data@,
            r.lanes(SCALE_LANE as int, TRANSFORM_LANES as int) == scale_data@,
            r.sh_coeffs@ == coeffs_data@,
            r.raw_opacities@ == opac_data@,
            r.render_mip == (mode == SplatRenderMode::Mip),
    {
        let n: usize = pos_data.len() / 3;
        let coeff_count: usize = coeffs_data.len() / n / 3;
        Splats::from_tensor_data(
            pos_data,
            rot_data,
            scale_data,
            coeffs_data,
            coeff_count,
            opac_data,
            mode,
        )
    }

    /// Put a set of splats together: the transform of a splat is its mean, its
    /// rotation and the logarithms of its scales, one after the other.
    pub fn from_tensor_data(
        means: Vec<Single>,
        rotation: Vec<Single>,
        log_scales: Vec<Single>,
        sh_coeffs: Vec<Single>,
        coeff_count: usize,
        raw_opacity: Vec<Single>,
        mode: SplatRenderMode,
    ) -> (r: Splats)
        requires
            means@.len() == means@.len() as int / 3 * 3,
            rotation@.len() == means@.len() as int / 3 * 4,
            log_scales@.len() == means@.len() as int / 3 * 3,
            means@.len() + rotation@.len() + log_scales@.len() <= usize::MAX,
        ensures
            r.count() == means@.len() as int / 3,
            r.transforms@.len() == r.count() * TRANSFORM_LANES,
            r.lanes(0, ROTATION_LANE as int) == means@,
            r.lanes(ROTATION_LANE as int, SCALE_LANE as int) == rotation@,
            r.lanes(SCALE_LANE as int, TRANSFORM_LANES as int) == log_scales@,
            r.sh_coeffs@ == sh_coeffs@,
            r.coeff_count == coeff_count,
            r.raw_opacities@ == raw_opacity@,
            r.render_mip == (mode == SplatRenderMode::Mip),
    {
        let n: usize = means.len() / 3;
        let mut transforms: Vec<Single> = Vec::new();
        let mut i: usize = 0;
        while i < n
            invariant
                i <= n,
                means@.len() == n * 3,
                rotation@.len() == n * 4,
                log_scales@.len() == n * 3,
                n * 10 <= usize::MAX,
                transforms@.len() == i * 10,
                forall|j: int, k: int|
                    0 <= j < i && 0 <= k < 10 ==> #[trigger] transforms@[j * 10 + k] == if k < 3 {
                        means@[j * 3 + k]
                    } else if k < 7 {
                        rotation@[j * 4 + k - 3]
                    } else {
                        log_scales@[j * 3 + k - 7]
                    },
            decreases n - i,
        {
            let ghost before = transforms@;
            transforms.push(means[i * 3]);
            transforms.push(means[i * 3 + 1]);
            transforms.push(means[i * 3 + 2]);
            transforms.push(rotation[i * 4]);
            transforms.push(rotation[i * 4 + 1]);
            transforms.push(rotation[i * 4 + 2]);
            transforms.push(rotation[i * 4 + 3]);
            transforms.push(log_scales[i * 3]);
            transforms.push(log_scales[i * 3 + 1]);
            transforms.push(log_scales[i * 3 + 2]);
            proof {
                assert forall|j: int, k: int| 0 <= j < i + 1 && 0 <= k < 10 implies #[trigger]
                transforms@[j * 10 + k] == if k < 3 {
                    means@[j * 3 + k]
                } else if k < 7 {
                    rotation@[j * 4 + k - 3]
                } else {
                    log_scales@[j * 3 + k - 7]
                } by {
                    if j < i {
                        assert(transforms@[j * 10 + k] == before[j * 10 + k]);
                    }
                }
            }
            i = i + 1;
        }
        let r: Splats = Splats {
            transforms,
            sh_coeffs,
            coeff_count,
            raw_opacities: raw_opacity,
            render_mip: matches!(mode, SplatRenderMode::Mip),
        };
        proof {
            assert(r.count() == n);
            let pos = r.lanes(0, 3);
            let rot = r.lanes(3, 7);
            let scale = r.lanes(7, 10);
            assert forall|j: int| 0 <= j < pos.len() implies pos[j] == means@[j] by {
                assert(transforms@[(j / 3) * 10 + j % 3] == means@[(j / 3) * 3 + j % 3]);
            }
            assert forall|j: int| 0 <= j < rot.len() implies rot[j] == rotation@[j] by {
                let k = 3 + j % 4;
                assert(transforms@[(j / 4) * 10 + k] == rotation@[(j / 4) * 4 + k - 3]);
            }
            assert forall|j: int| 0 <= j < scale.len() implies scale[j] == log_scales@[j] by {
                let k = 7 + j % 3;
                assert(transforms@[(j / 3) * 10 + k] == log_scales@[(j / 3) * 3 + k - 7]);
            }
            assert(pos =~= means@);
            assert(rot =~= rotation@);
            assert(scale =~= log_scales@);
        }
        r
    }

    fn copy_lanes(&self, from: usize, to: usize) -> (r: Vec<Single>)
        requires
            self.wf(),
            from < to <= TRANSFORM_LANES,
        ensures
            r@ == self.lanes(from as int, to as int),
    {
        let n: usize = self.transforms.len() / TRANSFORM_LANES;
        let width: usize = to - from;
        let mut out: Vec<Single> = Vec::new();
        let mut i: usize = 0;
        while i < n
            invariant
                i <= n,
                self.wf(),
                n == self.count(),
                n * 10 <= usize::MAX,
                from < to <= TRANSFORM_LANES,
                width == to - from,
                out@.len() == i * width,
                forall|j: int|
                    0 <= j < out@.len() ==> #[trigger] out@[j] == self.lane(
                        j / (to - from),
                        from + j % (to - from),
                    ),
            decreases n - i,
        {
            let mut k: usize = 0;
            while k < width
                invariant
                    k <= width,
                    i < n,
                    self.wf(),
                    n == self.count(),
                    n * 10 <= usize::MAX,
                    from < to <= TRANSFORM_LANES,
                    width == to - from,
                    out@.len() == i * width + k,
                    forall|j: int|
                        0 <= j < out@.len() ==> #[trigger] out@[j] == self.lane(
                            j / (to - from),
                            from + j % (to - from),
                        ),
                decreases width - k,
            {
                proof {
                    let j = i * width + k;
                    assert(j / (width as int) == i && j % (width as int) == k) by {
                        vstd::arithmetic::div_mod::lemma_fundamental_div_mod_converse(
                            j,
                            width as int,
                            i as int,
                            k as int,
                        );
                    }
                }
                out.push(self.transforms[i * TRANSFORM_LANES + from + k]);
                k = k + 1;
            }
            assert((i + 1) * width == i * width + width) by (nonlinear_arith);
            i = i + 1;
        }
        assert(n * width == self.count() * (to - from));
        out
    }

    /// Positions of the splats.
    pub fn means(&self) -> (r: Vec<Single>)
        requires
            self.wf(),
        ensures
            r@ == self.lanes(0, ROTATION_LANE as int),
    {
        self.copy_lanes(0, ROTATION_LANE)
    }

    /// Rotations of the splats as quaternions.
    pub fn rotations(&self) -> (r: Vec<Single>)
        requires
            self.wf(),
        ensures
            r@ == self.lanes(ROTATION_LANE as int, SCALE_LANE as int),
    {
        self.copy_lanes(ROTATION_LANE, SCALE_LANE)
    }

    /// Logarithms of the scales of the splats.
    pub fn log_scales(&self) -> (r: Vec<Single>)
        requires
            self.wf(),
        ensures
            r@ == self.lanes(SCALE_LANE as int, TRANSFORM_LANES as int),
    {
        self.copy_lanes(SCALE_LANE, TRANSFORM_LANES)
    }

    /// Scales of the splats.
    pub fn scales<F: Fn(Op) -> Single>(&self, f: &F) -> (r: Vec<Single>)
        requires
            total(*f),
            self.wf(),
        ensures
            forall|g: Arith| #[trigger]
                computes(*f, g) ==> r@ == self.lanes(
                    SCALE_LANE as int,
                    TRANSFORM_LANES as int,
                ).map_values(|s: Single| g(Op::Exp(s))),
    {
        let logs: Vec<Single> = self.log_scales();
        let mut out: Vec<Single> = Vec::new();
        let mut i: usize = 0;
        while i < logs.len()
            invariant
                total(*f),
                i <= logs@.len(),
                out@.len() == i,
                forall|g: Arith, j: int|
                    #![trigger computes(*f, g), out@[j]]
                    computes(*f, g) && 0 <= j < i ==> out@[j] == g(Op::Exp(logs@[j])),
            decreases logs@.len() - i,
        {
            let scale: Single = f(Op::Exp(logs[i]));
            out.push(scale);
            i = i + 1;
        }
        proof {
            assert forall|g: Arith| #[trigger] computes(*f, g) implies out@ == logs@.map_values(
                |s: Single| g(Op::Exp(s)),
            ) by {
                assert(out@ =~= logs@.map_values(|s: Single| g(Op::Exp(s))));
            }
        }
        out
    }

    /// Opacities of the splats.
    pub fn opacities<F: Fn(Op) -> Single>(&self, f: &F) -> (r: Vec<Single>)
        requires
            total(*f),
        ensures
            forall|g: Arith| #[trigger]
                computes(*f, g) ==> r@ == self.raw_opacities@.map_values(
                    |s: Single| g(Op::Sigmoid(s)),
                ),
    {
        let mut out: Vec<Single> = Vec::new();
        let mut i: usize = 0;
        while i < self.raw_opacities.len()
            invariant
                total(*f),
                i <= self.raw_opacities@.len(),
                out@.len() == i,
                forall|g: Arith, j: int|
                    #![trigger computes(*f, g), out@[j]]
                    computes(*f, g) && 0 <= j < i ==> out@[j] == g(
                        Op::Sigmoid(self.raw_opacities@[j]),
                    ),
            decreases self.raw_opacities@.len() - i,
        {
            let opacity: Single = f(Op::Sigmoid(self.raw_opacities[i]));
            out.push(opacity);
            i = i + 1;
        }
        proof {
            assert forall|g: Arith| #[trigger]
                computes(*f, g) implies out@ == self.raw_opacities@.map_values(
                |s: Single| g(Op::Sigmoid(s)),
            ) by {
                assert(out@ =~= self.raw_opacities@.map_values(|s: Single| g(Op::Sigmoid(s))));
            }
        }
        out
    }

    /// The transforms with all splats scaled alike: the logarithm of `scale` is
    /// added to those of the scales. Without one they stay.
    pub fn scaled_transforms<F: Fn(Op) -> Single>(&self, f: &F, scale: Option<Single>) -> (r: Vec<
        Single,
    >)
        requires
            total(*f),
        ensures
            r@.len() == self.transforms@.len(),
            forall|g: Arith, i: int|
                #![trigger computes(*f, g), r@[i]]
                computes(*f, g) && 0 <= i < r@.len() ==> r@[i] == scaled_lane(
                    g,
                    self.transforms@[i],
                    i % TRANSFORM_LANES as int,
                    scale,
                ),
    {
        let shift: Option<Single> = match scale {
            Some(scale) => Some(f(Op::Ln(scale))),
            None => None,
        };
        let mut out: Vec<Single> = Vec::new();
        let mut i: usize = 0;
        while i < self.transforms.len()
            invariant
                total(*f),
                i <= self.transforms@.len(),
                out@.len() == i,
                shift.is_some() == scale.is_some(),
                forall|g: Arith| #[trigger]
                    computes(*f, g) ==> (scale matches Some(s) ==> shift->0 == g(Op::Ln(s))),
                forall|g: Arith, j: int|
                    #![trigger computes(*f, g), out@[j]]
                    computes(*f, g) && 0 <= j < i ==> out@[j] == scaled_lane(
                        g,
                        self.transforms@[j],
                        j % TRANSFORM_LANES as int,
                        scale,
                    ),
            decreases self.transforms@.len() - i,
        {
            let value: Single = self.transforms[i];
            let lane: usize = i % TRANSFORM_LANES;
            let value: Single = match shift {
                Some(shift) => {
                    if lane >= SCALE_LANE {
                        f(Op::Add(value, shift))
                    } else {
                        value
                    }
                },
                None => value,
            };
            out.push(value);
            i = i + 1;
        }
        out
    }

    /// Number of splats.
    pub fn num_splats(&self) -> (r: u32)
        requires
            self.count() <= u32::MAX,
        ensures
            r == self.count(),
    {
        (self.transforms.len() / TRANSFORM_LANES) as u32
    }

    /// The degree of the spherical harmonics. `degree_from_coeffs` tells it by the
    /// number of coefficients.
    pub fn sh_degree<D: Fn(u32) -> u32>(&self, degree_from_coeffs: &D) -> (r: u32)
        requires
            call_requires(*degree_from_coeffs, (self.coeff_count as u32,)),
        ensures
            call_ensures(*degree_from_coeffs, (self.coeff_count as u32,), r),
    {
        degree_from_coeffs(self.coeff_count as u32)
    }

    /// The splats with spherical harmonics of the given degree.
    /// `coeffs_for_degree` tells the number of coefficients by it.
    pub fn with_sh_degree<C: Fn(u32) -> u32>(self, sh_degree: u32, coeffs_for_degree: &C) -> (r:
        Splats)
        requires
            self.wf(),
            call_requires(*coeffs_for_degree, (sh_degree,)),
            forall|n: u32| #[trigger]
                call_ensures(*coeffs_for_degree, (sh_degree,), n) ==> self.fits(n as int),
        ensures
            r.with_degree(self, sh_degree, *coeffs_for_degree),
    {
        let n_coeffs: u32 = coeffs_for_degree(sh_degree);
        self.with_coeff_count(n_coeffs as usize)
    }

    /// The splats with the given number of coefficients each: those that there
    /// are stay, missing ones are zero, the others go.
    pub fn with_coeff_count(self, n_coeffs: usize) -> (r: Splats)
        requires
            self.wf(),
            self.fits(n_coeffs as int),
        ensures
            r.resized(self, n_coeffs),
    {
        let n: usize = self.transforms.len() / TRANSFORM_LANES;
        let old_row: usize = if n == 0 {
            0
        } else {
            self.sh_coeffs.len() / n
        };
        proof {
            if n > 0 {
                vstd::arithmetic::div_mod::lemma_div_multiples_vanish(
                    (self.coeff_count * 3) as int,
                    n as int,
                );
                assert(n * (self.coeff_count * 3) == (self.coeff_count * 3) * n)
                    by (nonlinear_arith);
            }
        }
        let row: usize = n_coeffs * 3;
        let mut sh_coeffs: Vec<Single> = Vec::new();
        let mut i: usize = 0;
        assert(0 * row == 0) by (nonlinear_arith);
        while i < n
            invariant
                i <= n,
                self.wf(),
                n == self.count(),
                n > 0 ==> old_row == self.coeff_count * 3,
                row == n_coeffs * 3,
                n * row <= usize::MAX,
                sh_coeffs@.len() == i * row,
                forall|a: int, j: int|
                    #![trigger sh_coeffs@[a * row + j]]
                    0 <= a < i && 0 <= j < row ==> sh_coeffs@[a * row + j] == if j < old_row {
                        self.sh_coeffs@[a * old_row + j]
                    } else {
                        single(ZERO)
                    },
            decreases n - i,
        {
            let mut j: usize = 0;
            while j < row
                invariant
                    j <= row,
                    i < n,
                    self.wf(),
                    n == self.count(),
                    old_row == self.coeff_count * 3,
                    n * row <= usize::MAX,
                    sh_coeffs@.len() == i * row + j,
                    forall|a: int, k: int|
                        #![trigger sh_coeffs@[a * row + k]]
                        0 <= a < i && 0 <= k < row ==> sh_coeffs@[a * row + k] == if k < old_row {
                            self.sh_coeffs@[a * old_row + k]
                        } else {
                            single(ZERO)
                        },
                    forall|k: int|
                        #![trigger sh_coeffs@[i * row + k]]
                        0 <= k < j ==> sh_coeffs@[i * row + k] == if k < old_row {
                            self.sh_coeffs@[i * old_row + k]
                        } else {
                            single(ZERO)
                        },
                decreases row - j,
            {
                let ghost before = sh_coeffs@;
                if j < old_row {
                    assert(i * old_row + old_row <= n * old_row) by (nonlinear_arith)
                        requires
                            i < n,
                    ;
                    assert(self.sh_coeffs@.len() == self.sh_coeffs.len());
                    sh_coeffs.push(self.sh_coeffs[i * old_row + j]);
                } else {
                    sh_coeffs.push(single(ZERO));
                }
                proof {
                    assert forall|a: int, k: int|
                        #![trigger sh_coeffs@[a * row + k]]
                        0 <= a < i && 0 <= k < row implies sh_coeffs@[a * row + k] == if k
                        < old_row {
                        self.sh_coeffs@[a * old_row + k]
                    } else {
                        single(ZERO)
                    } by {
                        assert(a * row + k < i * row) by (nonlinear_arith)
                            requires
                                0 <= a < i,
                                0 <= k < row,
                        ;
                        assert(0 <= a * row) by (nonlinear_arith)
                            requires
                                0 <= a,
                                0 <= row,
                        ;
                        assert(sh_coeffs@[a * row + k] == before[a * row + k]);
                    }
                    assert forall|k: int|
                        #![trigger sh_coeffs@[i * row + k]]
                        0 <= k < j + 1 implies sh_coeffs@[i * row + k] == if k < old_row {
                        self.sh_coeffs@[i * old_row + k]
                    } else {
                        single(ZERO)
                    } by {
                        if k < j {
                            assert(sh_coeffs@[i * row + k] == before[i * row + k]);
                        }
                    }
                }
                j = j + 1;
            }
            proof {
                assert((i + 1) * row == i * row + row) by (nonlinear_arith);
                assert forall|a: int, k: int|
                    #![trigger sh_coeffs@[a * row + k]]
                    0 <= a < i + 1 && 0 <= k < row implies sh_coeffs@[a * row + k] == if k
                    < old_row {
                    self.sh_coeffs@[a * old_row + k]
                } else {
                    single(ZERO)
                } by {
                    if a == i {
                        assert(sh_coeffs@[i * row + k] == if k < old_row {
                            self.sh_coeffs@[i * old_row + k]
                        } else {
                            single(ZERO)
                        });
                    }
                }
            }
            i = i + 1;
        }
        let r: Splats = Splats {
            transforms: self.transforms,
            sh_coeffs,
            coeff_count: n_coeffs,
            raw_opacities: self.raw_opacities,
            render_mip: self.render_mip,
        };
        proof {
            assert forall|a: int, k: int, c: int|
                0 <= a < self.count() && 0 <= k < n_coeffs && 0 <= c < 3 implies #[trigger] r.coeff(
                a,
                k,
                c,
            ) == if k < self.coeff_count {
                self.coeff(a, k, c)
            } else {
                single(ZERO)
            } by {
                let j = k * 3 + c;
                assert(sh_coeffs@[a * row + j] == if j < old_row {
                    self.sh_coeffs@[a * old_row + j]
                } else {
                    single(ZERO)
                });
            }
        }
        r
    }
}

/// A lane of a transform with all splats scaled alike.
pub open spec fn scaled_lane(g: Arith, value: Single, lane: int, scale: Option<Single>) -> Single {
    match scale {
        Some(scale) => if lane >= SCALE_LANE {
            g(Op::Add(value, g(Op::Ln(scale))))
        } else {
            value
        },
        None => value,
    }
}

/// A colour without NaN or infinity, held to `-100..=100`.
pub open spec fn scrubbed(color: Single) -> Single {
    let finite = if color.magnitude() < INFINITY_BITS {
        color
    } else {
        single(ZERO)
    };
    clamped(finite, single(MIN_COLOR), single(MAX_COLOR))
}

/// Replace a NaN or an infinity by zero and hold the colour to `-100..=100`, so
/// that gradients stay in range.
pub fn scrub_color(color: Single) -> (r: Single)
    ensures
        r == scrubbed(color),
{
    let finite: Single = if color.abs().bits < INFINITY_BITS {
        color
    } else {
        single(ZERO)
    };
    let raised: Single = if finite.gt(single(MIN_COLOR)) {
        finite
    } else {
        single(MIN_COLOR)
    };
    if raised.lt(single(MAX_COLOR)) {
        raised
    } else {
        single(MAX_COLOR)
    }
}

/// The number whose logistic function is `x`.
pub fn inverse_sigmoid<F: Fn(Op) -> Single>(f: &F, x: Single) -> (r: Single)
    requires
        total(*f),
    ensures
        forall|g: Arith| #[trigger]
            computes(*f, g) ==> r == g(Op::Ln(g(Op::Div(x, g(Op::Sub(single(ONE), x)))))),
{
    let rest: Single = f(Op::Sub(single(ONE), x));
    let odds: Single = f(Op::Div(x, rest));
    f(Op::Ln(odds))
}

} // verus!
