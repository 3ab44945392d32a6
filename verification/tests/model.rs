use lib::dataset::{
    DataSource, PortVariant, TraceOrigin, has_frequency_axis, has_variants, primary_trace_index,
    select_variant, trace_description, trace_visible, valid_sample_count, visible_traces,
};
use lib::demo::Example;
use lib::dialogs::{EntryMode, ImpedanceForm, PasteForm, PasteFormat, ReflectionForm};
use lib::i18n::Lang;
use lib::io::LoadedFile;
use lib::parse::{DetectedFormat, FrequencyUnit};
use lib::scene::{GridDetail, PointRef, SelectionState, step_target};
use lib::sphere::{Region, in_chart};

#[test]
fn language_codes_and_names() {
    assert_eq!(Lang::from_code("zh-CN"), Some(Lang::Chinese));
    assert_eq!(Lang::from_code(" EN_us "), Some(Lang::English));
    assert_eq!(Lang::from_code("fr"), None);
    assert_eq!(Lang::default(), Lang::Chinese);
    assert_eq!(Lang::all(), vec![Lang::Chinese, Lang::English]);
    assert_eq!(Lang::English.pick("甲", "a"), "a");
    assert_eq!(Lang::Chinese.points_word(), "个频点");
    assert_eq!(Lang::English.endonym(), "English");
}

#[test]
fn ports_and_sources_have_labels() {
    assert_eq!(PortVariant::S22.label(), "S22");
    assert_eq!(PortVariant::S22.port_number(), 2);
    let source = DataSource::Csv { file_name: "a.csv".into(), detail: "R、X".into() };
    assert_eq!(source.kind_label(), "CSV 表格");
    assert_eq!(source.detail(), "a.csv: R、X");
    assert!(!source.is_demo());
    let demo = DataSource::Demo { description: "model".into() };
    assert!(demo.is_demo());
    assert_eq!(demo.detail(), "model");
    assert_eq!(DataSource::Manual.detail(), "手动输入");
}

#[test]
fn trace_counts_and_frequency_axis() {
    assert_eq!(valid_sample_count(&vec![true, false, true]), 2);
    assert!(has_frequency_axis(&vec![true, true]));
    assert!(!has_frequency_axis(&vec![true]));
    assert!(!has_frequency_axis(&vec![true, false, true]));
}

#[test]
fn variant_selection_shows_one_trace() {
    assert_eq!(visible_traces(None, 3), vec![0, 1, 2]);
    assert_eq!(visible_traces(Some(1), 2), vec![1]);
    assert!(trace_visible(None, 5));
    assert!(!trace_visible(Some(0), 1));
    assert!(has_variants(Some(0), 2));
    assert!(!has_variants(None, 2));
    let mut selection = Some(0);
    select_variant(&mut selection, 2, 1);
    assert_eq!(selection, Some(1));
    select_variant(&mut selection, 2, 5);
    assert_eq!(selection, Some(1));
    let mut none = None;
    select_variant(&mut none, 2, 1);
    assert_eq!(none, None);
}

#[test]
fn primary_trace_prefers_selection_then_axis() {
    assert_eq!(primary_trace_index(Some(1), &vec![true, false]), 1);
    assert_eq!(primary_trace_index(None, &vec![false, true, true]), 1);
    assert_eq!(primary_trace_index(None, &vec![false, false]), 0);
}

#[test]
fn arrow_stepping_skips_gaps_and_stays_in_range() {
    let present = vec![true, false, true];
    assert_eq!(step_target(&present, Some(0), true), Some(2));
    assert_eq!(step_target(&present, Some(2), true), None);
    assert_eq!(step_target(&present, Some(2), false), Some(0));
    assert_eq!(step_target(&present, Some(0), false), None);
    assert_eq!(step_target(&present, None, true), Some(0));
}

#[test]
fn hover_preview_wins_over_selection() {
    let a = PointRef { document: 0, trace: 0, sample: 1 };
    let b = PointRef { document: 0, trace: 1, sample: 2 };
    let mut state = SelectionState::default();
    state.select(Some(a), true);
    state.hovered = Some(b);
    assert_eq!(state.current(true, true), Some((b, true)));
    assert_eq!(state.current(false, true), Some((a, false)));
    state.after_replot(false);
    assert_eq!(state.selected, None);
    assert_eq!(state.hovered, None);
    state.select(Some(a), false);
    assert_eq!(state.selected, None);
    assert_eq!(GridDetail::from_preference(true), GridDetail::Detailed);
}

#[test]
fn boundary_points_show_on_both_charts() {
    assert!(in_chart(Region::Boundary, Region::Positive));
    assert!(in_chart(Region::Boundary, Region::Negative));
    assert!(in_chart(Region::Negative, Region::Negative));
    assert!(!in_chart(Region::Positive, Region::Negative));
}

#[test]
fn examples_are_listed_with_titles() {
    let all = Example::all();
    assert_eq!(all.len(), 4);
    assert_eq!(all[0].title(), "串联 RLC 扫频");
    assert!(Example::Landmarks.summary().contains("Z0 = 50 Ω"));
}

#[test]
fn pasted_text_gets_a_name_that_carries_the_format() {
    assert_eq!(PasteFormat::TouchstoneTwoPort.file_name("pasted"), "pasted.s2p");
    assert_eq!(PasteFormat::Auto.file_name("x"), "x");
    assert_eq!(PasteFormat::Csv.label(Lang::English), "CSV / table");
    let mut form = PasteForm::default();
    assert!(form.submit().is_none());
    form.text = "1 0.5 0\n".into();
    form.format = PasteFormat::TouchstoneOnePort;
    form.name = "  ".into();
    let file = form.submit().expect("file");
    assert_eq!(file.name, "pasted.s1p");
    assert_eq!(file.text, "1 0.5 0\n");
    assert_eq!(file.format(), DetectedFormat::Touchstone { ports: Some(1) });
}

#[test]
fn manual_form_starts_with_an_example_and_syncs_the_expression() {
    let mut form = ImpedanceForm::new("50".into());
    assert_eq!(form.mode, EntryMode::Impedance);
    assert_eq!(form.expression, "25+j30");
    assert_eq!(form.reflection_form, ReflectionForm::MagnitudePhase);
    assert_eq!(form.frequency_unit, FrequencyUnit::MHz);
    form.resistance = " 10 ".into();
    form.reactance = "-5".into();
    form.sync_expression();
    assert_eq!(form.expression, "10j-5");
    form.reactance = "7".into();
    form.sync_expression();
    assert_eq!(form.expression, "10+j7");
    assert_eq!(form.trace_label("Z1".into()), "Z1");
    form.label = " load ".into();
    assert_eq!(form.trace_label("Z1".into()), "load");
}

#[test]
fn bytes_decode_lossily() {
    let file = LoadedFile::from_bytes("a.csv".into(), "f,R,X\n".as_bytes());
    assert_eq!(file.text, "f,R,X\n");
    let file = LoadedFile::from_bytes("b.csv".into(), &[b'a', 0xff, b'b']);
    assert_eq!(file.text, "a\u{fffd}b");
    assert_eq!(file.name, "b.csv");
}

#[test]
fn names_without_a_dot_are_judged_by_content() {
    let file = LoadedFile { name: "clipboard".into(), text: "! c\n1 0 0\n".into() };
    assert_eq!(file.format(), DetectedFormat::Touchstone { ports: None });
    let file = LoadedFile { name: "notes.txt".into(), text: "! c\n1 0 0\n".into() };
    assert_eq!(file.format(), DetectedFormat::Csv);
}

#[test]
fn traces_are_described_by_origin() {
    assert_eq!(
        trace_description("S22", TraceOrigin::TwoPortS(PortVariant::S22), Lang::English),
        "S22: port 2 reflection, the other port matched"
    );
    assert_eq!(
        trace_description("Z", TraceOrigin::ImpedanceColumns, Lang::Chinese),
        "Z：表格 R、X 列"
    );
    assert_eq!(
        trace_description("x", TraceOrigin::OnePortY, Lang::English),
        "Y11: one-port normalized admittance"
    );
    assert_eq!(trace_description("Z1", TraceOrigin::ManualReflection, Lang::English), "Z1: manual entry");
}

#[test]
fn landmarks_show_all_traces_and_offer_no_slider() {
    // The landmark document: six single-sample traces, none with a
    // frequency axis, so its primary trace has none and nothing drives the
    // slider.
    let axes = vec![false; 6];
    let primary = primary_trace_index(None, &axes);
    assert_eq!(primary, 0);
    assert_eq!(visible_traces(None, 6).len(), 6);
    assert_eq!(lib::scene::slider_target(None, false, &vec![(primary, axes[primary])]), None);
}

#[test]
fn the_slider_follows_the_selection_or_the_first_axis() {
    let primaries = vec![(0, false), (1, true), (0, true)];
    assert_eq!(lib::scene::slider_target(Some((2, 0)), true, &primaries), Some((2, 0)));
    assert_eq!(lib::scene::slider_target(Some((0, 0)), false, &primaries), Some((1, 1)));
    assert_eq!(lib::scene::slider_target(None, false, &primaries), Some((1, 1)));
}

#[test]
fn loading_an_example_selects_its_first_point() {
    // The series RLC example: one trace with a frequency axis and 77
    // samples that all hold an impedance.
    let primary = primary_trace_index(None, &vec![true]);
    assert_eq!(primary, 0);
    assert_eq!(lib::dataset::first_valid_sample(&vec![true; 77]), Some(0));
    assert_eq!(visible_traces(None, 1), vec![0]);
    assert_eq!(lib::dataset::first_valid_sample(&vec![false, false, true]), Some(2));
    assert_eq!(lib::dataset::first_valid_sample(&vec![false]), None);
}

#[test]
fn the_slider_snaps_to_samples_in_the_direction_of_the_move() {

    let present = vec![true, false, false, true, true];
    assert_eq!(lib::scene::slider_snap(&present, Some(0), 3), Some(3));
    assert_eq!(lib::scene::slider_snap(&present, Some(0), 1), Some(3));
    assert_eq!(lib::scene::slider_snap(&present, Some(4), 2), Some(0));
    assert_eq!(lib::scene::slider_snap(&vec![false, true], Some(1), 0), None);
}
