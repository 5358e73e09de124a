//! Checking the parameters of splats.

use crate::arith::{computes, total, Arith, Op};
use crate::render::splats::{Splats, SCALE_LANE, TRANSFORM_LANES};
use crate::single::{single, Single};
use vstd::prelude::*;

verus! {

/// The logarithms of scales lie between -10 and 10.
pub const LOG_SCALE_MIN: u32 = 0xc120_0000;

pub const LOG_SCALE_MAX: u32 = 0x4120_0000;

/// Scales lie between 1e-20 and 10000, and reasonable ones between 1e-6 and 100.
pub const SCALE_MIN: u32 = 0x1e3c_e508;

pub const SCALE_MAX: u32 = 0x461c_4000;

pub const FAIR_SCALE_MIN: u32 = 0x3586_37bd;

pub const FAIR_SCALE_MAX: u32 = 0x42c8_0000;

/// Coefficients lie between -5 and 5.
pub const COEFF_MIN: u32 = 0xc0a0_0000;

pub const COEFF_MAX: u32 = 0x40a0_0000;

/// Raw opacities lie between -20 and 20, and opacities between 0 and 1.
pub const RAW_OPACITY_MIN: u32 = 0xc1a0_0000;

pub const RAW_OPACITY_MAX: u32 = 0x41a0_0000;

pub const OPACITY_MIN: u32 = 0;

pub const OPACITY_MAX: u32 = 0x3f80_0000;

/// A lower and an upper bound, where there are any.
#[derive(Clone, Copy, Debug, PartialEq, Eq, Structural)]
pub struct Limits {
    pub min: Option<Single>,
    pub max: Option<Single>,
}

pub open spec fn unlimited() -> Limits {
    Limits { min: None, max: None }
}

pub open spec fn limits(min: u32, max: u32) -> Limits {
    Limits { min: Some(single(min)), max: Some(single(max)) }
}

fn no_limits() -> (r: Limits)
    ensures
        r == unlimited(),
{
    Limits { min: None, max: None }
}

fn within(min: u32, max: u32) -> (r: Limits)
    ensures
        r == limits(min, max),
{
    Limits { min: Some(single(min)), max: Some(single(max)) }
}

/// The function that checks values accepts everything.
pub open spec fn checks<C: Fn(&Vec<Single>, &str, Limits) -> bool>(check: C) -> bool {
    forall|values: &Vec<Single>, name: &str, within: Limits| #[trigger]
        call_requires(check, (values, name, within))
}

/// Whatever `check` finds is what `c` gives.
pub open spec fn finds<C: Fn(&Vec<Single>, &str, Limits) -> bool>(
    check: C,
    c: spec_fn(Seq<Single>, Seq<char>, Limits) -> bool,
) -> bool {
    forall|values: &Vec<Single>, name: &str, within: Limits, r: bool| #[trigger]
        call_ensures(check, (values, name, within), r) ==> r == c(values@, name@, within)
}

impl Splats {
    /// All parameters are within their limits.
    pub open spec fn valid(
        self,
        g: Arith,
        c: spec_fn(Seq<Single>, Seq<char>, Limits) -> bool,
    ) -> bool {
        let logs = self.lanes(SCALE_LANE as int, TRANSFORM_LANES as int);
        let scales = logs.map_values(|s: Single| g(Op::Exp(s)));
        let opacities = self.raw_opacities@.map_values(|s: Single| g(Op::Sigmoid(s)));
        &&& c(self.lanes(0, 3), "means"@, unlimited())
        &&& c(self.lanes(3, 7), "rotations"@, unlimited())
        &&& c(logs, "log_scales"@, limits(LOG_SCALE_MIN, LOG_SCALE_MAX))
        &&& c(scales, "scales"@, limits(SCALE_MIN, SCALE_MAX))
        &&& c(self.sh_coeffs@, "sh_coeffs"@, limits(COEFF_MIN, COEFF_MAX))
        &&& c(self.raw_opacities@, "raw_opacity"@, limits(RAW_OPACITY_MIN, RAW_OPACITY_MAX))
        &&& c(opacities, "opacities"@, limits(OPACITY_MIN, OPACITY_MAX))
        &&& c(scales, "scales"@, limits(FAIR_SCALE_MIN, FAIR_SCALE_MAX))
    }

    /// Check that all parameters are within their limits. `check` tells whether
    /// the values of a parameter are finite and within the given limits.
    pub fn validate_values<F: Fn(Op) -> Single, C: Fn(&Vec<Single>, &str, Limits) -> bool>(
        &self,
        f: &F,
        check: &C,
    ) -> (r: bool)
        requires
            total(*f),
            checks(*check),
            self.wf(),
        ensures
            forall|g: Arith, c: spec_fn(Seq<Single>, Seq<char>, Limits) -> bool|
                #![trigger computes(*f, g), finds(*check, c)]
                computes(*f, g) && finds(*check, c) ==> r == self.valid(g, c),
    {
        let logs: Vec<Single> = self.log_scales();
        let scales: Vec<Single> = self.scales(f);
        let opacities: Vec<Single> = self.opacities(f);
        let means: bool = check(&self.means(), "means", no_limits());
        let rotations: bool = check(&self.rotations(), "rotations", no_limits());
        let log_scales: bool = check(&logs, "log_scales", within(LOG_SCALE_MIN, LOG_SCALE_MAX));
        let any_scales: bool = check(&scales, "scales", within(SCALE_MIN, SCALE_MAX));
        let coeffs: bool = check(&self.sh_coeffs, "sh_coeffs", within(COEFF_MIN, COEFF_MAX));
        let raw: bool = check(
            &self.raw_opacities,
            "raw_opacity",
            within(RAW_OPACITY_MIN, RAW_OPACITY_MAX),
        );
        let shown: bool = check(&opacities, "opacities", within(OPACITY_MIN, OPACITY_MAX));
        let fair: bool = check(&scales, "scales", within(FAIR_SCALE_MIN, FAIR_SCALE_MAX));
        means && rotations && log_scales && any_scales && coeffs && raw && shown && fair
    }
}

} // verus!
