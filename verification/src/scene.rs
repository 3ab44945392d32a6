//! Selection shared by every view: which sample is fixed, which one the
//! pointer previews, and how the arrow keys step through a trace; and how a
//! trace falls apart into the runs drawn on the sphere and on each chart.

use crate::sphere::{Region, in_chart, shown_in};
use vstd::prelude::*;

verus! {

/// Identifies one sample in one trace of one document.
#[derive(Clone, Copy, Debug, PartialEq, Eq, Hash, Structural)]
pub struct PointRef {
    pub document: usize,
    pub trace: usize,
    pub sample: usize,
}

/// Hover and fixed selection shared by every view.
#[derive(Clone, Copy, Debug, PartialEq, Eq, Structural)]
pub struct SelectionState {
    pub selected: Option<PointRef>,
    pub hovered: Option<PointRef>,
}

impl Default for SelectionState {
    fn default() -> (s: SelectionState)
        ensures
            s.selected is None,
            s.hovered is None,
    {
        SelectionState { selected: None, hovered: None }
    }
}

/// The point the details panel shows: a plotted hover preview wins over a
/// plotted fixed selection; the flag says whether it is the preview.
pub open spec fn shown_point(
    s: SelectionState,
    hovered_plotted: bool,
    selected_plotted: bool,
) -> Option<(PointRef, bool)> {
    if s.hovered is Some && hovered_plotted {
        Some((s.hovered->0, true))
    } else if s.selected is Some && selected_plotted {
        Some((s.selected->0, false))
    } else {
        None
    }
}

impl SelectionState {
    /// `hovered_plotted` and `selected_plotted` say whether the hovered and
    /// the selected reference name a sample that is currently plotted.
    pub fn current(&self, hovered_plotted: bool, selected_plotted: bool) -> (shown: Option<
        (PointRef, bool),
    >)
        ensures
            shown == shown_point(*self, hovered_plotted, selected_plotted),
    {
        if let Some(hovered) = self.hovered {
            if hovered_plotted {
                return Some((hovered, true));
            }
        }
        match self.selected {
            Some(selected) => if selected_plotted {
                Some((selected, false))
            } else {
                None
            },
            None => None,
        }
    }

    /// Fixes the selection on `reference` when it names a plotted sample,
    /// and clears it otherwise. The hover preview is untouched.
    pub fn select(&mut self, reference: Option<PointRef>, plotted: bool)
        ensures
            final(self).selected == (if plotted {
                reference
            } else {
                None
            }),
            final(self).hovered == old(self).hovered,
    {
        self.selected = if plotted {
            reference
        } else {
            None
        };
    }

    /// After the traces are plotted again: a selection whose sample is gone
    /// is dropped, and the hover preview always is.
    pub fn after_replot(&mut self, selected_plotted: bool)
        ensures
            final(self).selected == (if selected_plotted {
                old(self).selected
            } else {
                None
            }),
            final(self).hovered is None,
    {
        if !selected_plotted {
            self.selected = None;
        }
        self.hovered = None;
    }
}

/// Index where an arrow-key step starts: the sample after (or before) the
/// current one, or the first sample when nothing of this trace is selected.
pub open spec fn step_start(current: Option<usize>, forward: bool) -> int {
    match current {
        None => 0,
        Some(c) => if forward {
            c + 1
        } else {
            c - 1
        },
    }
}

/// Walks from `index` in the step direction while inside the trace and
/// returns the first sample that is not a gap.
pub open spec fn step_from(present: Seq<bool>, index: int, forward: bool) -> Option<int>
    decreases (if forward {
        present.len() - index
    } else {
        index + 1
    }),
{
    if !(0 <= index < present.len()) {
        None
    } else if present[index] {
        Some(index)
    } else if forward {
        step_from(present, index + 1, forward)
    } else {
        step_from(present, index - 1, forward)
    }
}

/// Whatever a step returns is a sample of the trace that is not a gap, and
/// every sample it passed over on the way is a gap.
pub proof fn step_lands_on_a_sample(present: Seq<bool>, index: int, forward: bool)
    ensures
        step_from(present, index, forward) matches Some(k) ==> {
            &&& 0 <= k < present.len()
            &&& present[k]
            &&& forward ==> index <= k && forall|j: int| index <= j < k ==> !present[j]
            &&& !forward ==> k <= index && forall|j: int| k < j <= index ==> !present[j]
        },
    decreases (if forward {
        present.len() - index
    } else {
        index + 1
    }),
{
    if 0 <= index < present.len() && !present[index] {
        if forward {
            step_lands_on_a_sample(present, index + 1, forward);
        } else {
            step_lands_on_a_sample(present, index - 1, forward);
        }
    }
}

/// An arrow key moves the selection to the nearest plotted sample strictly
/// after the selected one (forward) or strictly before it (backward), and to
/// the first plotted sample in the step's direction from the start of the
/// trace when nothing of this trace is selected; when there is no such
/// sample the selection stays. The selected sample is one of the trace.
pub proof fn arrow_keys_move_to_the_next_plotted_sample(
    present: Seq<bool>,
    current: Option<usize>,
    forward: bool,
)
    requires
        current matches Some(c) ==> c < present.len(),
    ensures
        ({
            let r = step_from(present, step_start(current, forward), forward);
            let lo: int = match current {
                None => 0,
                Some(c) => if forward {
                    c + 1
                } else {
                    0
                },
            };
            let hi: int = match current {
                None => if forward {
                    present.len() as int
                } else {
                    1
                },
                Some(c) => if forward {
                    present.len() as int
                } else {
                    c as int
                },
            };
            &&& r matches Some(k) ==> lo <= k < hi && k < present.len() && present[k]
            &&& r matches Some(k) ==> forward ==> forall|j: int| lo <= j < k ==> !present[j]
            &&& r matches Some(k) ==> !forward ==> forall|j: int| k < j < hi ==> !present[j]
            &&& r is None ==> forall|j: int| lo <= j < hi && j < present.len() ==> !present[j]
        }),
{
    let start = step_start(current, forward);
    step_lands_on_a_sample(present, start, forward);
    lemma_step_none(present, start, forward);
}

proof fn lemma_step_none(present: Seq<bool>, index: int, forward: bool)
    ensures
        step_from(present, index, forward) is None ==> (if forward {
            0 <= index ==> forall|j: int| index <= j < present.len() ==> !present[j]
        } else {
            index < present.len() ==> forall|j: int| 0 <= j <= index ==> !present[j]
        }),
    decreases (if forward {
        present.len() - index
    } else {
        index + 1
    }),
{
    if 0 <= index < present.len() && !present[index] {
        if forward {
            lemma_step_none(present, index + 1, forward);
        } else {
            lemma_step_none(present, index - 1, forward);
        }
    }
}

/// The sample an arrow key moves the selection to, if any. `present[i]` says
/// whether sample `i` of the followed trace is plotted (not a gap), and
/// `current` is the selected sample when the selection is in that trace.
pub fn step_target(present: &Vec<bool>, current: Option<usize>, forward: bool) -> (target: Option<
    usize,
>)
    ensures
        target matches Some(k) ==> step_from(present@, step_start(current, forward), forward)
            == Some(k as int),
        target is None ==> step_from(present@, step_start(current, forward), forward) is None,
{
    let mut index: usize = match current {
        None => 0,
        Some(c) => if forward {
            if c >= present.len() {
                return None;
            }
            c + 1
        } else {
            if c == 0 {
                return None;
            }
            c - 1
        },
    };
    while index < present.len()
        invariant
            step_from(present@, step_start(current, forward), forward) == step_from(
                present@,
                index as int,
                forward,
            ),
        decreases (if forward {
            present.len() - index
        } else {
            index + 1
        }),
    {
        if present[index] {
            return Some(index);
        }
        if forward {
            index += 1;
        } else {
            if index == 0 {
                assert(step_from(present@, -1, forward) is None);
                assert(step_from(present@, 0, forward) == step_from(present@, -1, forward));
                return None;
            }
            index -= 1;
        }
    }
    None
}

/// Where the frequency slider lands when moved to `index`: that sample when
/// it holds a value, else the nearest sample in the direction of the move
/// (toward lower indices when the move went below the selected sample).
pub open spec fn slider_snap_spec(present: Seq<bool>, selected: Option<usize>, index: usize) -> Option<int> {
    let forward = !(selected is Some && index < selected->0);
    step_from(present, index as int, forward)
}

pub fn slider_snap(present: &Vec<bool>, selected: Option<usize>, index: usize) -> (target: Option<usize>)
    ensures
        target matches Some(k) ==> slider_snap_spec(present@, selected, index) == Some(k as int),
        target is None ==> slider_snap_spec(present@, selected, index) is None,
{
    let forward = !(selected.is_some() && index < selected.unwrap());
    if index < present.len() && present[index] {
        return Some(index);
    }
    if index >= present.len() {
        return None;
    }
    let current = Some(index);
    assert(step_from(present@, index as int, forward) == step_from(
        present@,
        step_start(current, forward),
        forward,
    ));
    step_target(present, current, forward)
}

/// Index of the first document whose primary trace has a frequency axis.
pub open spec fn first_with_axis(primaries: Seq<(usize, bool)>, from: int) -> Option<int>
    decreases primaries.len() - from,
{
    if from < 0 || from >= primaries.len() {
        None
    } else if primaries[from].1 {
        Some(from)
    } else {
        first_with_axis(primaries, from + 1)
    }
}

/// The trace the frequency slider follows: the trace of the selected point
/// when it has a frequency axis, else the primary trace of the first
/// document whose primary trace has one.
pub open spec fn slider_spec(
    selected: Option<(usize, usize)>,
    selected_has_axis: bool,
    primaries: Seq<(usize, bool)>,
) -> Option<(usize, usize)> {
    if selected is Some && selected_has_axis {
        selected
    } else {
        match first_with_axis(primaries, 0) {
            Some(d) => Some((d as usize, primaries[d].0)),
            None => None,
        }
    }
}

/// `selected` is the document and trace of the selected point, with whether
/// that trace has a frequency axis; `primaries[d]` is the primary trace of
/// document `d` and whether it has one.
pub fn slider_target(
    selected: Option<(usize, usize)>,
    selected_has_axis: bool,
    primaries: &Vec<(usize, bool)>,
) -> (target: Option<(usize, usize)>)
    ensures
        target == slider_spec(selected, selected_has_axis, primaries@),
{
    if selected.is_some() && selected_has_axis {
        return selected;
    }
    let mut d: usize = 0;
    while d < primaries.len()
        invariant
            d <= primaries.len(),
            !(selected is Some && selected_has_axis),
            first_with_axis(primaries@, 0) == first_with_axis(primaries@, d as int),
        decreases primaries.len() - d,
    {
        let (trace, has_axis) = primaries[d];
        if has_axis {
            return Some((d, trace));
        }
        d += 1;
    }
    None
}

/// How much grid to draw.
#[derive(Clone, Copy, Debug, PartialEq, Eq, Structural)]
pub enum GridDetail {
    Basic,
    Detailed,
}

impl GridDetail {
    /// The grid a detailed-grid preference asks for.
    pub fn from_preference(detailed: bool) -> (detail: GridDetail)
        ensures
            detail == (if detailed {
                GridDetail::Detailed
            } else {
                GridDetail::Basic
            }),
    {
        if detailed {
            GridDetail::Detailed
        } else {
            GridDetail::Basic
        }
    }
}


// ---------------------------------------------------------------------------
// Chart runs
// ---------------------------------------------------------------------------

/// A vertex of a chart polyline: a sample, or the interpolated crossing of
/// `R = 0` between sample `i` and sample `i + 1`.
#[derive(Clone, Copy, Debug, PartialEq, Eq, Structural)]
pub enum Vertex {
    Sample(usize),
    Crossing(usize),
}

impl Vertex {
    /// The vertex is an interpolated crossing rather than a sample.
    pub fn is_interpolated(self) -> (b: bool)
        ensures
            b == (self is Crossing),
    {
        match self {
            Vertex::Crossing(_) => true,
            Vertex::Sample(_) => false,
        }
    }
}

/// A connected run of vertices inside the chart of one region.
#[derive(Clone, Debug, PartialEq, Eq)]
pub struct ChartRun {
    pub region: Region,
    pub vertices: Vec<Vertex>,
}

impl View for ChartRun {
    type V = (Region, Seq<Vertex>);

    open spec fn view(&self) -> (Region, Seq<Vertex>) {
        (self.region, self.vertices@)
    }
}

/// Sample `i` and sample `i + 1` lie on opposite sides of `R = 0` and the
/// caller found where the trace crosses between them.
pub open spec fn is_crossing(regions: Seq<Option<Region>>, crosses: Seq<bool>, i: int) -> bool {
    &&& 0 <= i
    &&& i + 1 < regions.len()
    &&& regions[i] is Some
    &&& regions[i + 1] is Some
    &&& ((regions[i]->0 == Region::Positive && regions[i + 1]->0 == Region::Negative) || (
    regions[i]->0 == Region::Negative && regions[i + 1]->0 == Region::Positive))
    &&& crosses[i]
}

pub struct RunState {
    pub positive: Seq<Vertex>,
    pub negative: Seq<Vertex>,
    pub runs: Seq<(Region, Seq<Vertex>)>,
    pub crossings: Seq<usize>,
}

/// `runs` with `run` closed as a run of `region`, if it holds anything.
pub open spec fn closed(
    runs: Seq<(Region, Seq<Vertex>)>,
    run: Seq<Vertex>,
    region: Region,
) -> Seq<(Region, Seq<Vertex>)> {
    if run.len() > 0 {
        runs.push((region, run))
    } else {
        runs
    }
}

/// Reads sample `i`: a gap closes both open runs; a sample joins the run of
/// each chart that shows it and closes the other; a crossing to the next
/// sample ends the run on its own side and opens one on the other.
pub open spec fn run_step(
    s: RunState,
    regions: Seq<Option<Region>>,
    crosses: Seq<bool>,
    i: int,
) -> RunState {
    match regions[i] {
        None => RunState {
            positive: Seq::empty(),
            negative: Seq::empty(),
            runs: closed(closed(s.runs, s.positive, Region::Positive), s.negative, Region::Negative),
            crossings: s.crossings,
        },
        Some(r) => {
            let positive = if shown_in(r, Region::Positive) {
                s.positive.push(Vertex::Sample(i as usize))
            } else {
                Seq::empty()
            };
            let runs1 = if shown_in(r, Region::Positive) {
                s.runs
            } else {
                closed(s.runs, s.positive, Region::Positive)
            };
            let negative = if shown_in(r, Region::Negative) {
                s.negative.push(Vertex::Sample(i as usize))
            } else {
                Seq::empty()
            };
            let runs2 = if shown_in(r, Region::Negative) {
                runs1
            } else {
                closed(runs1, s.negative, Region::Negative)
            };
            let v = Vertex::Crossing(i as usize);
            if !is_crossing(regions, crosses, i) {
                RunState { positive, negative, runs: runs2, crossings: s.crossings }
            } else if r == Region::Positive {
                RunState {
                    positive: Seq::empty(),
                    negative: negative.push(v),
                    runs: closed(runs2, positive.push(v), Region::Positive),
                    crossings: s.crossings.push(i as usize),
                }
            } else {
                RunState {
                    positive: positive.push(v),
                    negative: Seq::empty(),
                    runs: closed(runs2, negative.push(v), Region::Negative),
                    crossings: s.crossings.push(i as usize),
                }
            }
        },
    }
}

pub open spec fn run_state(regions: Seq<Option<Region>>, crosses: Seq<bool>, n: nat) -> RunState
    decreases n,
{
    if n == 0 {
        RunState {
            positive: Seq::empty(),
            negative: Seq::empty(),
            runs: Seq::empty(),
            crossings: Seq::empty(),
        }
    } else {
        run_step(run_state(regions, crosses, (n - 1) as nat), regions, crosses, n - 1)
    }
}

/// The runs of a whole trace, and the samples after which it crosses
/// `R = 0`. `regions[i]` is the region of sample `i`, `None` for a gap;
/// `crosses[i]` says whether a crossing between samples `i` and `i + 1`
/// could be placed.
pub open spec fn chart_runs_spec(regions: Seq<Option<Region>>, crosses: Seq<bool>) -> (
    Seq<(Region, Seq<Vertex>)>,
    Seq<usize>,
) {
    let s = run_state(regions, crosses, regions.len());
    (closed(closed(s.runs, s.positive, Region::Positive), s.negative, Region::Negative), s.crossings)
}

fn close_run(runs: &mut Vec<ChartRun>, run: &mut Vec<Vertex>, region: Region)
    ensures
        final(runs)@.map_values(|c: ChartRun| c@) == closed(
            old(runs)@.map_values(|c: ChartRun| c@),
            old(run)@,
            region,
        ),
        final(run)@ == Seq::<Vertex>::empty(),
{
    if run.len() > 0 {
        let mut taken: Vec<Vertex> = Vec::new();
        std::mem::swap(&mut taken, run);
        let ghost before = runs@;
        runs.push(ChartRun { region, vertices: taken });
        assert(runs@.map_values(|c: ChartRun| c@) =~= before.map_values(|c: ChartRun| c@).push(
            (region, taken@),
        ));
    }
}

fn crossing_at(regions: &Vec<Option<Region>>, crosses: &Vec<bool>, i: usize) -> (b: bool)
    requires
        crosses.len() == regions.len(),
        i < regions.len(),
    ensures
        b == is_crossing(regions@, crosses@, i as int),
{
    if i + 1 >= regions.len() || !crosses[i] {
        return false;
    }
    match (regions[i], regions[i + 1]) {
        (Some(Region::Positive), Some(Region::Negative)) => true,
        (Some(Region::Negative), Some(Region::Positive)) => true,
        _ => false,
    }
}

/// Splits a trace into runs that each lie inside one chart: boundary samples
/// join both charts, gaps are never bridged, and a change of sign between
/// two samples adds the crossing vertex to both charts. Returns the runs and
/// the samples after which a crossing lies.
pub fn chart_runs(regions: &Vec<Option<Region>>, crosses: &Vec<bool>) -> (r: (
    Vec<ChartRun>,
    Vec<usize>,
))
    requires
        crosses.len() == regions.len(),
    ensures
        r.0@.map_values(|c: ChartRun| c@) == chart_runs_spec(regions@, crosses@).0,
        r.1@ == chart_runs_spec(regions@, crosses@).1,
{
    let mut positive: Vec<Vertex> = Vec::new();
    let mut negative: Vec<Vertex> = Vec::new();
    let mut runs: Vec<ChartRun> = Vec::new();
    let mut crossings: Vec<usize> = Vec::new();
    let mut i: usize = 0;
    assert(runs@.map_values(|c: ChartRun| c@) =~= Seq::<(Region, Seq<Vertex>)>::empty());
    while i < regions.len()
        invariant
            crosses.len() == regions.len(),
            i <= regions.len(),
            ({
                let s = run_state(regions@, crosses@, i as nat);
                &&& positive@ == s.positive
                &&& negative@ == s.negative
                &&& runs@.map_values(|c: ChartRun| c@) == s.runs
                &&& crossings@ == s.crossings
            }),
        decreases regions.len() - i,
    {
        match regions[i] {
            None => {
                close_run(&mut runs, &mut positive, Region::Positive);
                close_run(&mut runs, &mut negative, Region::Negative);
            },
            Some(r) => {
                if in_chart(r, Region::Positive) {
                    positive.push(Vertex::Sample(i));
                } else {
                    close_run(&mut runs, &mut positive, Region::Positive);
                }
                if in_chart(r, Region::Negative) {
                    negative.push(Vertex::Sample(i));
                } else {
                    close_run(&mut runs, &mut negative, Region::Negative);
                }
                if crossing_at(regions, crosses, i) {
                    let v = Vertex::Crossing(i);
                    crossings.push(i);
                    if r == Region::Positive {
                        positive.push(v);
                        close_run(&mut runs, &mut positive, Region::Positive);
                        negative.push(v);
                    } else {
                        negative.push(v);
                        close_run(&mut runs, &mut negative, Region::Negative);
                        positive.push(v);
                    }
                }
            },
        }
        i += 1;
    }
    close_run(&mut runs, &mut positive, Region::Positive);
    close_run(&mut runs, &mut negative, Region::Negative);
    (runs, crossings)
}


/// Position of a vertex along the trace: sample `i` at `2i`, the crossing
/// after it at `2i + 1`.
pub open spec fn vertex_place(v: Vertex) -> int {
    match v {
        Vertex::Sample(i) => 2 * i,
        Vertex::Crossing(i) => 2 * i + 1,
    }
}

/// `v` belongs in the chart of `chart`.
pub open spec fn vertex_in(
    regions: Seq<Option<Region>>,
    crosses: Seq<bool>,
    chart: Region,
    v: Vertex,
) -> bool {
    match v {
        Vertex::Sample(i) => (i as int) < regions.len() && (regions[i as int] matches Some(r)
            && shown_in(r, chart)),
        Vertex::Crossing(i) => is_crossing(regions, crosses, i as int),
    }
}

/// Every vertex of `run` belongs in the chart, and each follows the one
/// before it by one place or two: no gap is bridged.
pub open spec fn run_ok(
    regions: Seq<Option<Region>>,
    crosses: Seq<bool>,
    chart: Region,
    run: Seq<Vertex>,
) -> bool {
    &&& forall|k: int| 0 <= k < run.len() ==> vertex_in(regions, crosses, chart, #[trigger] run[k])
    &&& forall|k: int, l: int|
        #![trigger run[k], run[l]]
        0 <= k && l == k + 1 && l < run.len() ==> 1 <= vertex_place(run[l]) - vertex_place(run[k])
            <= 2
}

spec fn open_run_ok(
    regions: Seq<Option<Region>>,
    crosses: Seq<bool>,
    chart: Region,
    run: Seq<Vertex>,
    n: nat,
) -> bool {
    &&& run_ok(regions, crosses, chart, run)
    &&& run.len() > 0 ==> n > 0 && 2 * (n - 1) <= vertex_place(run.last()) <= 2 * (n - 1) + 1
}

spec fn runs_ok(regions: Seq<Option<Region>>, crosses: Seq<bool>, runs: Seq<(Region, Seq<Vertex>)>) -> bool {
    forall|j: int|
        0 <= j < runs.len() ==> #[trigger] runs[j].1.len() > 0 && run_ok(
            regions,
            crosses,
            runs[j].0,
            runs[j].1,
        )
}

proof fn lemma_closed_ok(
    regions: Seq<Option<Region>>,
    crosses: Seq<bool>,
    runs: Seq<(Region, Seq<Vertex>)>,
    run: Seq<Vertex>,
    chart: Region,
)
    requires
        runs_ok(regions, crosses, runs),
        run_ok(regions, crosses, chart, run),
    ensures
        runs_ok(regions, crosses, closed(runs, run, chart)),
{
    if run.len() > 0 {
        let out = runs.push((chart, run));
        assert forall|j: int| 0 <= j < out.len() implies #[trigger] out[j].1.len() > 0 && run_ok(
            regions,
            crosses,
            out[j].0,
            out[j].1,
        ) by {
            if j < runs.len() {
                assert(out[j] == runs[j]);
            }
        }
    }
}

proof fn lemma_push_ok(
    regions: Seq<Option<Region>>,
    crosses: Seq<bool>,
    chart: Region,
    run: Seq<Vertex>,
    v: Vertex,
)
    requires
        run_ok(regions, crosses, chart, run),
        vertex_in(regions, crosses, chart, v),
        run.len() > 0 ==> 1 <= vertex_place(v) - vertex_place(run.last()) <= 2,
    ensures
        run_ok(regions, crosses, chart, run.push(v)),
{
    let out = run.push(v);
    assert forall|k: int| 0 <= k < out.len() implies vertex_in(
        regions,
        crosses,
        chart,
        #[trigger] out[k],
    ) by {
        if k < run.len() {
            assert(out[k] == run[k]);
        }
    }
    assert forall|k: int, l: int|
        #![trigger out[k], out[l]]
        0 <= k && l == k + 1 && l < out.len() implies 1 <= vertex_place(out[l]) - vertex_place(
            out[k],
        ) <= 2 by {
        if l < run.len() {
            assert(out[k] == run[k] && out[l] == run[l]);
        } else {
            assert(out[k] == run.last());
        }
    }
}

proof fn lemma_run_state_ok(regions: Seq<Option<Region>>, crosses: Seq<bool>, n: nat)
    requires
        n <= regions.len(),
        crosses.len() == regions.len(),
        regions.len() <= usize::MAX,
    ensures
        ({
            let s = run_state(regions, crosses, n);
            &&& runs_ok(regions, crosses, s.runs)
            &&& open_run_ok(regions, crosses, Region::Positive, s.positive, n)
            &&& open_run_ok(regions, crosses, Region::Negative, s.negative, n)
        }),
    decreases n,
{
    if n > 0 {
        let i = n - 1;
        lemma_run_state_ok(regions, crosses, (n - 1) as nat);
        let s = run_state(regions, crosses, (n - 1) as nat);
        let e: Seq<Vertex> = Seq::empty();
        match regions[i] {
            None => {
                lemma_closed_ok(regions, crosses, s.runs, s.positive, Region::Positive);
                lemma_closed_ok(
                    regions,
                    crosses,
                    closed(s.runs, s.positive, Region::Positive),
                    s.negative,
                    Region::Negative,
                );
            },
            Some(r) => {
                let sample = Vertex::Sample(i as usize);
                assert(vertex_place(sample) == 2 * i);
                let positive = if shown_in(r, Region::Positive) {
                    s.positive.push(sample)
                } else {
                    e
                };
                let runs1 = if shown_in(r, Region::Positive) {
                    s.runs
                } else {
                    closed(s.runs, s.positive, Region::Positive)
                };
                if shown_in(r, Region::Positive) {
                    lemma_push_ok(regions, crosses, Region::Positive, s.positive, sample);
                } else {
                    lemma_closed_ok(regions, crosses, s.runs, s.positive, Region::Positive);
                }
                let negative = if shown_in(r, Region::Negative) {
                    s.negative.push(sample)
                } else {
                    e
                };
                let runs2 = if shown_in(r, Region::Negative) {
                    runs1
                } else {
                    closed(runs1, s.negative, Region::Negative)
                };
                if shown_in(r, Region::Negative) {
                    lemma_push_ok(regions, crosses, Region::Negative, s.negative, sample);
                } else {
                    lemma_closed_ok(regions, crosses, runs1, s.negative, Region::Negative);
                }
                let v = Vertex::Crossing(i as usize);
                if is_crossing(regions, crosses, i) {
                    assert(vertex_place(v) == 2 * i + 1);
                    assert(vertex_in(regions, crosses, Region::Positive, v));
                    assert(vertex_in(regions, crosses, Region::Negative, v));
                    if r == Region::Positive {
                        lemma_push_ok(regions, crosses, Region::Positive, positive, v);
                        lemma_push_ok(regions, crosses, Region::Negative, negative, v);
                        lemma_closed_ok(regions, crosses, runs2, positive.push(v), Region::Positive);
                    } else {
                        lemma_push_ok(regions, crosses, Region::Positive, positive, v);
                        lemma_push_ok(regions, crosses, Region::Negative, negative, v);
                        lemma_closed_ok(regions, crosses, runs2, negative.push(v), Region::Negative);
                    }
                }
            },
        }
    }
}

/// Every run of a trace is non-empty and lies in its own chart: its samples
/// are shown there and its crossings join samples of opposite sign. Inside
/// a run each vertex follows the one before it by one place or two, so a
/// run never bridges a gap.
pub proof fn runs_stay_in_their_chart(regions: Seq<Option<Region>>, crosses: Seq<bool>)
    requires
        crosses.len() == regions.len(),
        regions.len() <= usize::MAX,
    ensures
        ({
            let runs = chart_runs_spec(regions, crosses).0;
            forall|j: int|
                0 <= j < runs.len() ==> #[trigger] runs[j].1.len() > 0 && run_ok(
                    regions,
                    crosses,
                    runs[j].0,
                    runs[j].1,
                )
        }),
{
    lemma_run_state_ok(regions, crosses, regions.len());
    let s = run_state(regions, crosses, regions.len());
    lemma_closed_ok(regions, crosses, s.runs, s.positive, Region::Positive);
    lemma_closed_ok(
        regions,
        crosses,
        closed(s.runs, s.positive, Region::Positive),
        s.negative,
        Region::Negative,
    );
}


proof fn lemma_run_state_crossings(regions: Seq<Option<Region>>, crosses: Seq<bool>, n: nat)
    requires
        n <= regions.len(),
        regions.len() <= usize::MAX,
    ensures
        ({
            let c = run_state(regions, crosses, n).crossings;
            &&& forall|k: int|
                0 <= k < c.len() ==> #[trigger] is_crossing(regions, crosses, c[k] as int) && c[k]
                    < n
            &&& forall|k1: int, k2: int| 0 <= k1 < k2 < c.len() ==> c[k1] < c[k2]
            &&& forall|i: int| 0 <= i < n && #[trigger] is_crossing(regions, crosses, i) ==> c.contains(i as usize)
        }),
    decreases n,
{
    if n > 0 {
        let m = (n - 1) as nat;
        lemma_run_state_crossings(regions, crosses, m);
        let before = run_state(regions, crosses, m).crossings;
        let after = run_state(regions, crosses, n).crossings;
        let i = m as int;
        if is_crossing(regions, crosses, i) {
            assert(after == before.push(i as usize));
            assert forall|k1: int, k2: int| 0 <= k1 < k2 < after.len() implies after[k1] < after[k2] by {
                if k2 < before.len() {
                    assert(after[k1] == before[k1] && after[k2] == before[k2]);
                } else {
                    assert(after[k1] == before[k1]);
                    assert(is_crossing(regions, crosses, before[k1] as int));
                }
            }
            assert forall|j: int| 0 <= j < n && #[trigger] is_crossing(regions, crosses, j) implies after.contains(j as usize) by {
                if j < i {
                    let k = choose|k: int| 0 <= k < before.len() && before[k] == j as usize;
                    assert(after[k] == j as usize);
                } else {
                    assert(after[before.len() as int] == j as usize);
                }
            }
        } else {
            assert(after == before);
        }
    }
}

/// The trace crosses `R = 0` exactly at the recorded places: each recorded
/// index joins two shown samples of opposite sign between which a crossing
/// was found, every such place is recorded, and they are recorded in order.
pub proof fn crossings_join_opposite_signs(regions: Seq<Option<Region>>, crosses: Seq<bool>)
    requires
        crosses.len() == regions.len(),
        regions.len() <= usize::MAX,
    ensures
        ({
            let c = chart_runs_spec(regions, crosses).1;
            &&& forall|k: int| 0 <= k < c.len() ==> #[trigger] is_crossing(regions, crosses, c[k] as int)
            &&& forall|k1: int, k2: int| 0 <= k1 < k2 < c.len() ==> c[k1] < c[k2]
            &&& forall|i: int| #[trigger] is_crossing(regions, crosses, i) ==> c.contains(i as usize)
        }),
{
    lemma_run_state_crossings(regions, crosses, regions.len());
}

/// Some run of `chart` holds `v`.
pub open spec fn placed(runs: Seq<(Region, Seq<Vertex>)>, chart: Region, v: Vertex) -> bool {
    exists|j: int| 0 <= j < runs.len() && runs[j].0 == chart && #[trigger] runs[j].1.contains(v)
}

/// Index of the sample a vertex belongs to or follows.
pub open spec fn vertex_index(v: Vertex) -> int {
    match v {
        Vertex::Sample(i) => i as int,
        Vertex::Crossing(i) => i as int,
    }
}

spec fn open_run(s: RunState, chart: Region) -> Seq<Vertex> {
    if chart == Region::Positive {
        s.positive
    } else {
        s.negative
    }
}

spec fn vertex_kept(
    s: RunState,
    regions: Seq<Option<Region>>,
    crosses: Seq<bool>,
    chart: Region,
    v: Vertex,
) -> bool {
    vertex_in(regions, crosses, chart, v) ==> placed(s.runs, chart, v) || open_run(s, chart).contains(v)
}

proof fn lemma_closed_places(
    runs: Seq<(Region, Seq<Vertex>)>,
    run: Seq<Vertex>,
    chart: Region,
    c: Region,
    v: Vertex,
)
    ensures
        placed(runs, c, v) ==> placed(closed(runs, run, chart), c, v),
        (chart == c && run.contains(v)) ==> placed(closed(runs, run, chart), c, v),
{
    let out = closed(runs, run, chart);
    if placed(runs, c, v) {
        let j = choose|j: int| 0 <= j < runs.len() && runs[j].0 == c && #[trigger] runs[j].1.contains(v);
        if run.len() > 0 {
            assert(out[j] == runs[j]);
        }
        assert(0 <= j < out.len() && out[j].0 == c && out[j].1.contains(v));
    }
    if chart == c && run.contains(v) {
        assert(out[runs.len() as int] == (chart, run));
        assert(out[runs.len() as int].1.contains(v));
    }
}

proof fn lemma_push_contains(run: Seq<Vertex>, x: Vertex, v: Vertex)
    ensures
        run.contains(v) ==> run.push(x).contains(v),
        run.push(v).contains(v),
{
    if run.contains(v) {
        let k = choose|k: int| 0 <= k < run.len() && run[k] == v;
        assert(run.push(x)[k] == v);
    }
    assert(run.push(v)[run.len() as int] == v);
}

proof fn lemma_run_state_covers(regions: Seq<Option<Region>>, crosses: Seq<bool>, n: nat)
    requires
        n <= regions.len(),
        crosses.len() == regions.len(),
        regions.len() <= usize::MAX,
    ensures
        forall|chart: Region, v: Vertex|
            (chart == Region::Positive || chart == Region::Negative) && 0 <= vertex_index(v) < n
                ==> #[trigger] vertex_kept(run_state(regions, crosses, n), regions, crosses, chart, v),
    decreases n,
{
    if n > 0 {
        let i = n - 1;
        lemma_run_state_covers(regions, crosses, (n - 1) as nat);
        let s = run_state(regions, crosses, (n - 1) as nat);
        let t = run_state(regions, crosses, n);
        assert(t == run_step(s, regions, crosses, i));
        assert forall|chart: Region, v: Vertex|
            (chart == Region::Positive || chart == Region::Negative) && 0 <= vertex_index(v) < n
            implies #[trigger] vertex_kept(t, regions, crosses, chart, v) by {
            lemma_step_keeps(s, regions, crosses, i, chart, v);
            if vertex_index(v) < i {
                assert(vertex_kept(s, regions, crosses, chart, v));
            }
        }
    }
}

/// One step keeps every vertex: a placed one stays placed, an open one is
/// placed or still open, and the new sample and crossing are placed or open
/// in each chart they belong in.
proof fn lemma_step_keeps(
    s: RunState,
    regions: Seq<Option<Region>>,
    crosses: Seq<bool>,
    i: int,
    c: Region,
    v: Vertex,
)
    requires
        0 <= i < regions.len(),
        regions.len() <= usize::MAX,
        c == Region::Positive || c == Region::Negative,
    ensures
        ({
            let t = run_step(s, regions, crosses, i);
            &&& placed(s.runs, c, v) ==> placed(t.runs, c, v)
            &&& open_run(s, c).contains(v) ==> placed(t.runs, c, v) || open_run(t, c).contains(v)
            &&& (vertex_index(v) == i && vertex_in(regions, crosses, c, v)) ==> placed(t.runs, c, v)
                || open_run(t, c).contains(v)
        }),
{
    let e: Seq<Vertex> = Seq::empty();
    let sample = Vertex::Sample(i as usize);
    match regions[i] {
        None => {
            let r1 = closed(s.runs, s.positive, Region::Positive);
            lemma_closed_places(s.runs, s.positive, Region::Positive, c, v);
            lemma_closed_places(r1, s.negative, Region::Negative, c, v);
        },
        Some(r) => {
            let positive = if shown_in(r, Region::Positive) {
                s.positive.push(sample)
            } else {
                e
            };
            let runs1 = if shown_in(r, Region::Positive) {
                s.runs
            } else {
                closed(s.runs, s.positive, Region::Positive)
            };
            let negative = if shown_in(r, Region::Negative) {
                s.negative.push(sample)
            } else {
                e
            };
            let runs2 = if shown_in(r, Region::Negative) {
                runs1
            } else {
                closed(runs1, s.negative, Region::Negative)
            };
            lemma_closed_places(s.runs, s.positive, Region::Positive, c, v);
            lemma_closed_places(runs1, s.negative, Region::Negative, c, v);
            lemma_push_contains(s.positive, sample, v);
            lemma_push_contains(s.negative, sample, v);
            let open_s = open_run(s, c);
            let open_1 = if c == Region::Positive {
                positive
            } else {
                negative
            };
            if c == Region::Positive {
                if shown_in(r, Region::Positive) {
                    assert(open_s.contains(v) ==> open_1.contains(v));
                } else {
                    assert(open_s.contains(v) ==> placed(runs1, c, v));
                    assert(open_s.contains(v) ==> placed(runs2, c, v));
                }
            } else {
                if shown_in(r, Region::Negative) {
                    assert(open_s.contains(v) ==> open_1.contains(v));
                } else {
                    assert(open_s.contains(v) ==> placed(runs2, c, v));
                }
            }
            assert(placed(s.runs, c, v) ==> placed(runs2, c, v));
            assert(open_s.contains(v) ==> placed(runs2, c, v) || open_1.contains(v));
            assert((v == sample && shown_in(r, c)) ==> open_1.contains(v));
            let x = Vertex::Crossing(i as usize);
            lemma_push_contains(positive, x, v);
            lemma_push_contains(negative, x, v);
            lemma_closed_places(runs2, positive.push(x), Region::Positive, c, v);
            lemma_closed_places(runs2, negative.push(x), Region::Negative, c, v);
            if is_crossing(regions, crosses, i) {
                if r == Region::Positive {
                    assert(!shown_in(r, Region::Negative));
                    assert(open_1.contains(v) ==> placed(closed(runs2, positive.push(x), Region::Positive), c, v) || (if c == Region::Positive { e } else { negative.push(x) }).contains(v));
                    assert(v == x ==> placed(closed(runs2, positive.push(x), Region::Positive), c, v) || (if c == Region::Positive { e } else { negative.push(x) }).contains(v));
                } else {
                    assert(r == Region::Negative);
                    assert(open_1.contains(v) ==> placed(closed(runs2, negative.push(x), Region::Negative), c, v) || (if c == Region::Positive { positive.push(x) } else { e }).contains(v));
                    assert(v == x ==> placed(closed(runs2, negative.push(x), Region::Negative), c, v) || (if c == Region::Positive { positive.push(x) } else { e }).contains(v));
                }
            }
        },
    }
}

/// Every sample of a trace appears in a run of each chart that shows it:
/// on the chart of its own sign, and on both charts when it lies on `R = 0`.
/// Every crossing of `R = 0` appears in a run of each chart.
pub proof fn every_vertex_is_drawn(
    regions: Seq<Option<Region>>,
    crosses: Seq<bool>,
    chart: Region,
    v: Vertex,
)
    requires
        crosses.len() == regions.len(),
        regions.len() <= usize::MAX,
        chart == Region::Positive || chart == Region::Negative,
        vertex_in(regions, crosses, chart, v),
    ensures
        placed(chart_runs_spec(regions, crosses).0, chart, v),
{
    lemma_run_state_covers(regions, crosses, regions.len());
    let s = run_state(regions, crosses, regions.len());
    assert(0 <= vertex_index(v) < regions.len());
    assert(vertex_kept(s, regions, crosses, chart, v));
    let r1 = closed(s.runs, s.positive, Region::Positive);
    lemma_closed_places(s.runs, s.positive, Region::Positive, chart, v);
    lemma_closed_places(r1, s.negative, Region::Negative, chart, v);
}


// ---------------------------------------------------------------------------
// Sphere runs
// ---------------------------------------------------------------------------

pub struct SphereState {
    pub current: Seq<usize>,
    pub runs: Seq<Seq<usize>>,
}

pub open spec fn close_sphere_run(runs: Seq<Seq<usize>>, run: Seq<usize>) -> Seq<Seq<usize>> {
    if run.len() > 0 {
        runs.push(run)
    } else {
        runs
    }
}

pub open spec fn sphere_state(present: Seq<bool>, n: nat) -> SphereState
    decreases n,
{
    if n == 0 {
        SphereState { current: Seq::empty(), runs: Seq::empty() }
    } else {
        let s = sphere_state(present, (n - 1) as nat);
        if present[n - 1] {
            SphereState { current: s.current.push((n - 1) as usize), runs: s.runs }
        } else {
            SphereState { current: Seq::empty(), runs: close_sphere_run(s.runs, s.current) }
        }
    }
}

/// The connected runs of samples drawn on the sphere: maximal stretches of
/// samples that hold a value, `present[i]` telling whether sample `i` does.
pub open spec fn sphere_runs_spec(present: Seq<bool>) -> Seq<Seq<usize>> {
    let s = sphere_state(present, present.len());
    close_sphere_run(s.runs, s.current)
}

pub fn sphere_runs(present: &Vec<bool>) -> (runs: Vec<Vec<usize>>)
    ensures
        runs@.map_values(|r: Vec<usize>| r@) == sphere_runs_spec(present@),
{
    let mut runs: Vec<Vec<usize>> = Vec::new();
    let mut current: Vec<usize> = Vec::new();
    let mut i: usize = 0;
    assert(runs@.map_values(|r: Vec<usize>| r@) =~= Seq::<Seq<usize>>::empty());
    while i < present.len()
        invariant
            i <= present.len(),
            current@ == sphere_state(present@, i as nat).current,
            runs@.map_values(|r: Vec<usize>| r@) == sphere_state(present@, i as nat).runs,
        decreases present.len() - i,
    {
        if present[i] {
            current.push(i);
        } else if current.len() > 0 {
            let mut taken: Vec<usize> = Vec::new();
            std::mem::swap(&mut taken, &mut current);
            let ghost before = runs@;
            runs.push(taken);
            assert(runs@.map_values(|r: Vec<usize>| r@) =~= before.map_values(|r: Vec<usize>| r@).push(
                taken@,
            ));
        }
        i += 1;
    }
    if current.len() > 0 {
        let ghost before = runs@;
        let last = current;
        runs.push(last);
        assert(runs@.map_values(|r: Vec<usize>| r@) =~= before.map_values(|r: Vec<usize>| r@).push(
            last@,
        ));
    }
    runs
}

/// A stretch of consecutive samples that all hold a value.
pub open spec fn sphere_run_ok(present: Seq<bool>, run: Seq<usize>) -> bool {
    &&& run.len() > 0
    &&& forall|k: int| 0 <= k < run.len() ==> (#[trigger] run[k] as int) < present.len() && present[run[k] as int]
    &&& forall|k: int| 0 <= k < run.len() ==> #[trigger] run[k] == run[0] + k
}

spec fn sphere_state_ok(present: Seq<bool>, s: SphereState, n: nat) -> bool {
    &&& forall|j: int| 0 <= j < s.runs.len() ==> sphere_run_ok(present, #[trigger] s.runs[j])
    &&& s.current.len() > 0 ==> sphere_run_ok(present, s.current) && s.current.last() == n - 1
    &&& forall|i: int|
        0 <= i < n && #[trigger] present[i] ==> s.current.contains(i as usize) || exists|j: int|
            0 <= j < s.runs.len() && #[trigger] s.runs[j].contains(i as usize)
}

proof fn lemma_sphere_state(present: Seq<bool>, n: nat)
    requires
        n <= present.len(),
        present.len() <= usize::MAX,
    ensures
        sphere_state_ok(present, sphere_state(present, n), n),
    decreases n,
{
    if n > 0 {
        lemma_sphere_state(present, (n - 1) as nat);
        let s = sphere_state(present, (n - 1) as nat);
        let t = sphere_state(present, n);
        let i = n - 1;
        if present[i] {
            let c = s.current.push(i as usize);
            assert forall|k: int| 0 <= k < c.len() implies (#[trigger] c[k] as int) < present.len()
                && present[c[k] as int] by {
                if k < s.current.len() {
                    assert(c[k] == s.current[k]);
                }
            }
            assert forall|k: int| 0 <= k < c.len() implies #[trigger] c[k] == c[0] + k by {
                if k < s.current.len() {
                    assert(c[k] == s.current[k]);
                }
                if s.current.len() > 0 {
                    assert(c[0] == s.current[0]);
                    assert(s.current[s.current.len() - 1] == s.current[0] + s.current.len() - 1);
                }
            }
            assert forall|k: int|
                0 <= k < n && #[trigger] present[k] implies t.current.contains(k as usize) || exists|
                j: int,
            | 0 <= j < t.runs.len() && #[trigger] t.runs[j].contains(k as usize) by {
                if k == i {
                    assert(c[c.len() - 1] == i as usize);
                    assert(t.current.contains(k as usize));
                } else if s.current.contains(k as usize) {
                    let m = choose|m: int| 0 <= m < s.current.len() && s.current[m] == k as usize;
                    assert(c[m] == k as usize);
                    assert(t.current.contains(k as usize));
                } else {
                    let j = choose|j: int| 0 <= j < s.runs.len() && #[trigger] s.runs[j].contains(k as usize);
                    assert(t.runs[j].contains(k as usize));
                }
            }
        } else {
            let runs = close_sphere_run(s.runs, s.current);
            assert forall|j: int| 0 <= j < runs.len() implies sphere_run_ok(present, #[trigger] runs[j]) by {
                if j < s.runs.len() {
                    assert(runs[j] == s.runs[j]);
                }
            }
            assert forall|k: int|
                0 <= k < n && #[trigger] present[k] implies t.current.contains(k as usize) || exists|
                j: int,
            | 0 <= j < t.runs.len() && #[trigger] t.runs[j].contains(k as usize) by {
                if s.current.contains(k as usize) {
                    assert(runs[s.runs.len() as int] == s.current);
                    assert(t.runs[s.runs.len() as int].contains(k as usize));
                } else {
                    let j = choose|j: int| 0 <= j < s.runs.len() && #[trigger] s.runs[j].contains(k as usize);
                    assert(runs[j] == s.runs[j]);
                    assert(t.runs[j].contains(k as usize));
                }
            }
        }
    }
}

/// The sphere runs of a trace are stretches of consecutive samples that all
/// hold a value, and every sample that holds one lies in a run: the trace is
/// drawn whole except across its gaps.
pub proof fn sphere_runs_cover_the_trace(present: Seq<bool>)
    requires
        present.len() <= usize::MAX,
    ensures
        forall|j: int|
            0 <= j < sphere_runs_spec(present).len() ==> sphere_run_ok(
                present,
                #[trigger] sphere_runs_spec(present)[j],
            ),
        forall|i: int|
            0 <= i < present.len() && #[trigger] present[i] ==> exists|j: int|
                0 <= j < sphere_runs_spec(present).len() && #[trigger] sphere_runs_spec(
                    present,
                )[j].contains(i as usize),
{
    lemma_sphere_state(present, present.len());
    let s = sphere_state(present, present.len());
    let runs = sphere_runs_spec(present);
    assert forall|j: int| 0 <= j < runs.len() implies sphere_run_ok(present, #[trigger] runs[j]) by {
        if j < s.runs.len() {
            assert(runs[j] == s.runs[j]);
        }
    }
    assert forall|i: int| 0 <= i < present.len() && #[trigger] present[i] implies exists|j: int|
        0 <= j < runs.len() && #[trigger] runs[j].contains(i as usize) by {
        if s.current.contains(i as usize) {
            assert(runs[s.runs.len() as int] == s.current);
        } else {
            let j = choose|j: int| 0 <= j < s.runs.len() && #[trigger] s.runs[j].contains(i as usize);
            assert(runs[j] == s.runs[j]);
        }
    }
}

} // verus!
