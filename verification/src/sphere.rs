//! Hemisphere classification shared by the sphere and the two planar charts.

use vstd::prelude::*;

verus! {

/// Which hemisphere, or the shared `R = 0` boundary, a point belongs to.
#[derive(Clone, Copy, Debug, PartialEq, Eq, Structural)]
pub enum Region {
    Positive,
    Negative,
    Boundary,
}

/// A point of region `region` is drawn on the chart of `chart`: boundary
/// points appear on both charts, every other point on the chart of its own
/// sign.
pub open spec fn shown_in(region: Region, chart: Region) -> bool {
    region == Region::Boundary || region == chart
}

pub fn in_chart(region: Region, chart: Region) -> (shown: bool)
    ensures
        shown == shown_in(region, chart),
{
    region == Region::Boundary || region == chart
}

/// A point shows on both planar charts exactly when it lies on the shared
/// boundary, and every point shows on the chart of its own region.
pub proof fn both_charts_exactly_on_boundary(region: Region)
    ensures
        (shown_in(region, Region::Positive) && shown_in(region, Region::Negative)) <==> region
            == Region::Boundary,
        region != Region::Boundary ==> shown_in(region, region),
        shown_in(region, Region::Positive) || shown_in(region, Region::Negative),
{
}

} // verus!
