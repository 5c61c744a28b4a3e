//! The settings record the pipeline consumes, and the tagged point-count
//! specification with its validation.

use vstd::prelude::*;
use crate::error::LowPolyError;

verus! {

/// A fraction in `[0, 1]`, kept as a ratio of integers so that resolving a
/// relative point count truncates exactly.
#[derive(Clone, Copy, PartialEq, Eq, Structural, Debug)]
pub struct Frac {
    pub num: u32,
    pub den: u32,
}

impl Frac {
    /// The fraction is well formed: positive denominator, value at most one.
    pub open spec fn wf(self) -> bool {
        0 < self.den && self.num <= self.den
    }

    /// Builds a fraction, rejecting a zero denominator and a value above one.
    pub fn new(num: u32, den: u32) -> (r: Option<Frac>)
        ensures
            r is Some <==> (0 < den && num <= den),
            r is Some ==> r->0 == (Frac { num, den }) && r->0.wf(),
    {
        if 0 < den && num <= den {
            Some(Frac { num, den })
        } else {
            None
        }
    }
}

/// How many points should be kept for triangulation: an absolute count, a
/// fraction of the edge points found, or a fraction of the image pixels.
#[derive(Clone, Copy, PartialEq, Eq, Structural, Debug)]
pub enum PixelUnit {
    /// Use an absolute number of points.
    Absolute(usize),
    /// Use a fraction of the number of edge points.
    Relative(Frac),
    /// Use a fraction of the number of pixels in the image.
    PixelRelative(Frac),
}

impl PixelUnit {
    pub open spec fn wf(self) -> bool {
        match self {
            PixelUnit::Absolute(_) => true,
            PixelUnit::Relative(f) => f.wf(),
            PixelUnit::PixelRelative(f) => f.wf(),
        }
    }
}

/// The settings record of the core pipeline, produced by the surrounding
/// program from whatever interface it offers.
#[derive(Clone, Copy, PartialEq, Eq, Structural, Debug)]
pub struct Options {
    /// An absolute number of points to be picked from the edges.
    pub points: Option<usize>,
    /// A fraction of the number of edge points, `0` meaning none, `1` all.
    pub points_relative: Option<Frac>,
    /// A fraction of the number of pixels in the image.
    pub points_pixel_relative: Option<Frac>,
    /// The minimum distance enforced between picked points.
    pub points_min_distance: u32,
    /// Do not draw antialiased triangle borders.
    pub no_antialiasing: bool,
    /// The seed for the random number generator, if a deterministic shuffle
    /// is wanted.
    pub rng_seed: Option<u128>,
}

impl Options {
    /// The fractional options, where set, are well formed.
    pub open spec fn wf(self) -> bool {
        &&& (self.points_relative is Some ==> self.points_relative->0.wf())
        &&& (self.points_pixel_relative is Some ==> self.points_pixel_relative->0.wf())
    }

    /// Checks the point-count options and returns the single active
    /// interpretation, or an error if more than one is set. With none set,
    /// an absolute count of 10000 is the default.
    pub fn edge_number(&self) -> (r: Result<PixelUnit, LowPolyError>)
        ensures
            r == (match (self.points, self.points_relative, self.points_pixel_relative) {
                (Option::<usize>::None, Option::<Frac>::None, Option::<Frac>::None) => Result::<
                    PixelUnit,
                    LowPolyError,
                >::Ok(PixelUnit::Absolute(10000)),
                (Option::<usize>::Some(abs), Option::<Frac>::None, Option::<Frac>::None) => Result::<
                    PixelUnit,
                    LowPolyError,
                >::Ok(PixelUnit::Absolute(abs)),
                (Option::<usize>::None, Option::<Frac>::Some(rel), Option::<Frac>::None) => Result::<
                    PixelUnit,
                    LowPolyError,
                >::Ok(PixelUnit::Relative(rel)),
                (Option::<usize>::None, Option::<Frac>::None, Option::<Frac>::Some(rel)) => Result::<
                    PixelUnit,
                    LowPolyError,
                >::Ok(PixelUnit::PixelRelative(rel)),
                _ => Result::<PixelUnit, LowPolyError>::Err(LowPolyError::CLIError),
            }),
            self.wf() && r is Ok ==> r->Ok_0.wf(),
    {
        match (self.points, self.points_relative, self.points_pixel_relative) {
            (None, None, None) => Ok(PixelUnit::Absolute(10000)),
            (Some(abs), None, None) => Ok(PixelUnit::Absolute(abs)),
            (None, Some(rel), None) => Ok(PixelUnit::Relative(rel)),
            (None, None, Some(rel)) => Ok(PixelUnit::PixelRelative(rel)),
            _ => Err(LowPolyError::CLIError),
        }
    }
}

} // verus!
