use lib::scene::{ChartRun, Vertex, chart_runs, sphere_runs};
use lib::sphere::Region;

fn run(region: Region, vertices: Vec<Vertex>) -> ChartRun {
    ChartRun { region, vertices }
}

#[test]
fn a_sign_change_splits_the_trace_at_a_crossing_vertex() {
    let regions = vec![Some(Region::Positive), Some(Region::Negative), Some(Region::Negative)];
    let (runs, crossings) = chart_runs(&regions, &vec![true, false, false]);
    assert_eq!(
        runs,
        vec![
            run(Region::Positive, vec![Vertex::Sample(0), Vertex::Crossing(0)]),
            run(
                Region::Negative,
                vec![Vertex::Crossing(0), Vertex::Sample(1), Vertex::Sample(2)]
            ),
        ]
    );
    assert_eq!(crossings, vec![0]);
    assert_eq!(sphere_runs(&vec![true, true, true]), vec![vec![0, 1, 2]]);
}

#[test]
fn gaps_break_every_run() {
    let regions = vec![Some(Region::Positive), None, Some(Region::Positive)];
    let (runs, crossings) = chart_runs(&regions, &vec![false, false, false]);
    assert_eq!(
        runs,
        vec![
            run(Region::Positive, vec![Vertex::Sample(0)]),
            run(Region::Positive, vec![Vertex::Sample(2)]),
        ]
    );
    assert!(crossings.is_empty());
    assert_eq!(sphere_runs(&vec![true, false, true]), vec![vec![0], vec![2]]);
}

#[test]
fn boundary_samples_join_both_charts_without_a_crossing() {
    let regions = vec![Some(Region::Positive), Some(Region::Boundary), Some(Region::Negative)];
    let (runs, crossings) = chart_runs(&regions, &vec![true, true, false]);
    assert!(crossings.is_empty());
    assert_eq!(
        runs,
        vec![
            run(Region::Positive, vec![Vertex::Sample(0), Vertex::Sample(1)]),
            run(Region::Negative, vec![Vertex::Sample(1), Vertex::Sample(2)]),
        ]
    );
}

#[test]
fn a_crossing_that_cannot_be_placed_only_splits() {
    let regions = vec![Some(Region::Negative), Some(Region::Positive)];
    let (runs, crossings) = chart_runs(&regions, &vec![false, false]);
    assert!(crossings.is_empty());
    assert_eq!(
        runs,
        vec![
            run(Region::Negative, vec![Vertex::Sample(0)]),
            run(Region::Positive, vec![Vertex::Sample(1)]),
        ]
    );
    let (runs, crossings) = chart_runs(&regions, &vec![true, false]);
    assert_eq!(crossings, vec![0]);
    assert_eq!(
        runs,
        vec![
            run(Region::Negative, vec![Vertex::Sample(0), Vertex::Crossing(0)]),
            run(Region::Positive, vec![Vertex::Crossing(0), Vertex::Sample(1)]),
        ]
    );
}

#[test]
fn empty_traces_have_no_runs() {
    let (runs, crossings) = chart_runs(&vec![], &vec![]);
    assert!(runs.is_empty() && crossings.is_empty());
    assert!(sphere_runs(&vec![false, false]).is_empty());
    assert_eq!(sphere_runs(&vec![false, true, true, false, true]), vec![vec![1, 2], vec![4]]);
}

#[test]
fn crossings_are_interpolated_vertices() {
    assert!(Vertex::Crossing(3).is_interpolated());
    assert!(!Vertex::Sample(3).is_interpolated());
}

#[test]
fn crossings_are_recorded_in_order_where_signs_change() {
    let regions = vec![
        Some(Region::Positive),
        Some(Region::Negative),
        Some(Region::Positive),
        None,
        Some(Region::Negative),
        Some(Region::Positive),
        Some(Region::Negative),
    ];
    let crosses = vec![true, true, true, true, false, true, false];
    let (_, crossings) = chart_runs(&regions, &crosses);
    assert_eq!(crossings, vec![0, 1, 5]);
}
