//! How often the viewport is drawn anew while training.

use vstd::prelude::*;

verus! {

/// Controls how often the viewport is drawn anew during training.
#[derive(Clone, Copy, Debug, PartialEq, Eq, Structural)]
pub enum RenderUpdateMode {
    Off,
    Low,
    Live,
}

impl Default for RenderUpdateMode {
    fn default() -> (r: RenderUpdateMode)
        ensures
            r == RenderUpdateMode::Live,
    {
        RenderUpdateMode::Live
    }
}

impl RenderUpdateMode {
    /// Iterations from one drawing to the next, if there is any drawing.
    pub open spec fn interval(self) -> Option<u32> {
        match self {
            RenderUpdateMode::Off => None,
            RenderUpdateMode::Low => Some(100),
            RenderUpdateMode::Live => Some(5),
        }
    }

    /// Place on the slider.
    pub open spec fn index(self) -> int {
        match self {
            RenderUpdateMode::Off => 0,
            RenderUpdateMode::Low => 1,
            RenderUpdateMode::Live => 2,
        }
    }

    /// The number of iterations between drawings, or `None` if drawing is off.
    pub fn update_interval(&self) -> (r: Option<u32>)
        ensures
            r == self.interval(),
    {
        match self {
            RenderUpdateMode::Off => None,
            RenderUpdateMode::Low => Some(100),
            RenderUpdateMode::Live => Some(5),
        }
    }

    pub fn to_index(self) -> (r: usize)
        ensures
            r == self.index(),
    {
        match self {
            RenderUpdateMode::Off => 0,
            RenderUpdateMode::Low => 1,
            RenderUpdateMode::Live => 2,
        }
    }

    /// The mode at a place on the slider; places beyond the end stand for the
    /// last mode.
    pub fn from_index(index: usize) -> (r: RenderUpdateMode)
        ensures
            r.index() == if index < 2 {
                index as int
            } else {
                2
            },
    {
        match index {
            0 => RenderUpdateMode::Off,
            1 => RenderUpdateMode::Low,
            _ => RenderUpdateMode::Live,
        }
    }

    /// The name shown beside the slider.
    pub fn label(&self) -> (r: &'static str)
        ensures
            r@ == match *self {
                RenderUpdateMode::Off => "Off"@,
                RenderUpdateMode::Low => "Low"@,
                RenderUpdateMode::Live => "Live"@,
            },
    {
        match self {
            RenderUpdateMode::Off => "Off",
            RenderUpdateMode::Low => "Low",
            RenderUpdateMode::Live => "Live",
        }
    }
}

} // verus!
