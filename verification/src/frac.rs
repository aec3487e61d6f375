use vstd::prelude::*;

verus! {

/// An exact rational value `num / den` with a positive denominator.
/// Plot geometry is carried in this form; rendering converts it to a
/// floating-point value only at the output boundary.
#[derive(PartialEq, Eq, Structural, Clone, Copy, Debug)]
pub struct Frac {
    pub num: i128,
    pub den: i128,
}

impl Frac {
    pub open spec fn wf(self) -> bool {
        self.den > 0
    }
}

/// A point in 2-D plotting space, both coordinates exact rationals.
#[derive(PartialEq, Eq, Structural, Clone, Copy, Debug)]
pub struct PlotPoint {
    pub x: Frac,
    pub y: Frac,
}

impl PlotPoint {
    pub open spec fn wf(self) -> bool {
        self.x.wf() && self.y.wf()
    }
}

/// A line segment in plotting space.
#[derive(PartialEq, Eq, Structural, Clone, Copy, Debug)]
pub struct PlotLine {
    pub start: PlotPoint,
    pub end: PlotPoint,
}

impl PlotLine {
    pub open spec fn wf(self) -> bool {
        self.start.wf() && self.end.wf()
    }
}

} // verus!
