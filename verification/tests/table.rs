use lib::dataset::TraceOrigin;
use lib::parse::csv::{
    GivenReference, ReferenceSource, Role, ValueColumns, classify_reflection_columns, csv_reference, csv_notes, csv_trace, detect_delimiter,
    header_roles, inspect_csv, normalize, role_of,
};
use lib::parse::{FrequencyUnit, ParseError};

fn chars(s: &str) -> Vec<char> {
    s.chars().collect()
}

#[test]
fn headerless_three_columns_are_frequency_r_x() {
    let layout = inspect_csv("1\t10\t20\n2\t11\t21\n", "raw.txt").expect("inspect");
    assert_eq!(layout.frequency_column, Some(0));
    assert!(layout.needs_unit());
    assert_eq!(
        layout.values,
        ValueColumns::Impedance {
            resistance: 1,
            reactance: 2
        }
    );
}

#[test]
fn magnitude_without_phase_explains_what_is_missing() {
    let error = inspect_csv("freq(GHz),|S11|\n1,0.5\n", "m.csv").expect_err("must fail");
    assert!(error.message.contains("相位"), "{}", error.message);
    assert!(
        error
            .hint
            .as_deref()
            .is_some_and(|hint| hint.contains("phase"))
    );
    let error = inspect_csv("freq(GHz),vswr\n1,1.5\n", "m.csv").expect_err("must fail");
    assert!(error.message.contains("缺少相位"));
}

#[test]
fn rejects_partial_impedance_columns() {
    let error = inspect_csv("f(Hz),R\n1,1\n", "x.csv").expect_err("must fail");
    assert!(error.message.contains("电抗"));
    let error = inspect_csv("a,b,c\n1,2,3\n", "x.csv").expect_err("must fail");
    assert!(error.message.contains("无法识别表头"));
}

#[test]
fn unit_in_header_is_found_and_not_asked_for() {
    let layout = inspect_csv("frequency (MHz),R,X\n100,25,30\n200,50,0\n", "a.csv").expect("inspect");
    assert_eq!(layout.frequency_unit, Some(FrequencyUnit::MHz));
    assert!(!layout.needs_unit());
    assert_eq!(layout.rows.len(), 2);
    assert_eq!(layout.rows[0], vec!["100", "25", "30"]);
    assert_eq!(layout.frequency_unit_with(None), Ok(Some(FrequencyUnit::MHz)));
    assert_eq!(
        layout.frequency_unit_with(Some(FrequencyUnit::GHz)),
        Ok(Some(FrequencyUnit::MHz))
    );
}

#[test]
fn a_missing_unit_is_asked_for() {
    let layout = inspect_csv("freq;R;X\n1;10;20\n", "a.csv").expect("inspect");
    assert!(layout.needs_unit());
    let error = layout.frequency_unit_with(None).expect_err("must ask");
    assert!(error.message.contains("频率单位"));
    assert_eq!(error.hint.as_deref(), Some("请选择 Hz、kHz、MHz 或 GHz。"));
    assert_eq!(
        layout.frequency_unit_with(Some(FrequencyUnit::GHz)),
        Ok(Some(FrequencyUnit::GHz))
    );
}

#[test]
fn reflection_columns_are_recognized() {
    let layout = inspect_csv("freq(GHz),s11_mag,s11_deg\n1,0.2,90\n", "g.csv").expect("inspect");
    assert!(layout.values.is_reflection());
    assert_eq!(layout.reference_column, None);
    let layout =
        inspect_csv("freq(GHz),Re(S11),Im(S11),Z0\n1,0.1,0.1,75\n", "g.csv").expect("inspect");
    // `Re(S11)` and `Im(S11)` are the parts of a bracketed reflection.
    assert_eq!(
        layout.values,
        ValueColumns::ReflectionRealImaginary { real: 1, imaginary: 2 }
    );
    assert_eq!(layout.reference_column, Some(3));
    let layout = inspect_csv("freq(GHz),s11_re,s11_im\n1,0.1,0.1\n", "g.csv").expect("inspect");
    assert_eq!(
        layout.values,
        ValueColumns::ReflectionRealImaginary { real: 1, imaginary: 2 }
    );
    let layout = inspect_csv("f(MHz),Re(Z),Im(Z)\n1,25,30\n", "z.csv").expect("inspect");
    assert_eq!(layout.values, ValueColumns::Impedance { resistance: 1, reactance: 2 });
    let layout = inspect_csv("f,s11_db,s11_rad\n1,-3,0.5\n", "g.csv").expect("inspect");
    assert_eq!(
        layout.values,
        ValueColumns::ReflectionPolar { magnitude: 1, phase: 2, decibel: true, radians: true }
    );
    assert_eq!(layout.values.describe(), "反射系数 dB 幅度与相位列");
}

#[test]
fn empty_and_header_only_tables_are_rejected() {
    let error = inspect_csv("# comment\n// note\n\n", "e.csv").expect_err("must fail");
    assert_eq!(error.message, "表格是空的。");
    assert_eq!(error.hint.as_deref(), Some("需要至少一行 frequency、R、X 数据。"));
    let error = inspect_csv("freq,R,X\n", "e.csv").expect_err("must fail");
    assert_eq!(error.message, "表格只有表头，没有数据行。");
    assert_eq!(error.hint, None);
}

#[test]
fn delimiter_is_the_most_frequent_candidate() {
    assert_eq!(detect_delimiter(&chars("a,b,c")), Some(','));
    assert_eq!(detect_delimiter(&chars("a\tb\tc")), Some('\t'));
    assert_eq!(detect_delimiter(&chars("a;b;c,d")), Some(';'));
    assert_eq!(detect_delimiter(&chars("a|b")), Some('|'));
    assert_eq!(detect_delimiter(&chars("a b c")), None);
}

#[test]
fn header_names_are_normalized_before_matching() {
    assert_eq!(normalize(&chars("Frequency (MHz)")), chars("frequency"));
    assert_eq!(normalize(&chars("|S11|")), chars("s11"));
    assert_eq!(role_of(&chars("R (Ω)")), Role::Resistance);
    assert_eq!(role_of(&chars("freq_ghz")), Role::Frequency);
    assert_eq!(role_of(&chars("vswr")), Role::MagnitudeOnly);
    assert_eq!(role_of(&chars("Re(S11)")), Role::GammaReal);
    assert_eq!(role_of(&chars("Im(Γ)")), Role::GammaImaginary);
    assert_eq!(role_of(&chars("Mag(S22)")), Role::GammaMagnitude);
    assert_eq!(role_of(&chars("Re(Z)")), Role::Resistance);
}

#[test]
fn unreadable_rows_are_counted_in_a_note() {
    let notes = csv_notes(&vec![true, false, true], true).expect("notes");
    assert_eq!(notes, vec!["1 行无法读取，已作为断点处理，不会连线。".to_string()]);
    let notes = csv_notes(&vec![true, true], false).expect("notes");
    assert_eq!(
        notes,
        vec!["表格没有频率列，各点按行顺序显示，不提供频率滑块。".to_string()]
    );
    let notes = csv_notes(&vec![true], true).expect("notes");
    assert!(notes.is_empty());
}

#[test]
fn a_table_with_no_readable_row_is_rejected() {
    let error = csv_notes(&vec![false, false], true).expect_err("must fail");
    assert_eq!(error.message, "没有一行数据能读成数值。");
    assert_eq!(error.hint.as_deref(), Some("检查小数点、分隔符和列顺序。"));
    assert!(csv_notes(&vec![], true).is_err());
}

#[test]
fn table_traces_are_impedance_or_reflection() {
    let (origin, label) = csv_trace(ValueColumns::Impedance { resistance: 1, reactance: 2 });
    assert_eq!(origin, TraceOrigin::ImpedanceColumns);
    assert_eq!(label, "Z");
    let (origin, label) = csv_trace(ValueColumns::ReflectionRealImaginary { real: 1, imaginary: 2 });
    assert_eq!(origin, TraceOrigin::ReflectionColumns);
    assert_eq!(label, "Γ");
}

#[test]
fn reflection_columns_name_what_is_missing() {
    let header: Vec<Vec<char>> = ["f", "s11_deg"].iter().map(|h| chars(h)).collect();
    let roles = header_roles(&header);
    let error = classify_reflection_columns(&roles, &header).expect_err("must fail");
    assert_eq!(error.message, "找到了相位列，还需要幅度列。");
    let header: Vec<Vec<char>> = ["mag", "angle (rad)"].iter().map(|h| chars(h)).collect();
    let roles = header_roles(&header);
    assert_eq!(roles, vec![Role::GammaMagnitude, Role::GammaPhase]);
    let header: Vec<Vec<char>> = ["vswr", "rl"].iter().map(|h| chars(h)).collect();
    let roles = header_roles(&header);
    assert_eq!(roles, vec![Role::MagnitudeOnly, Role::MagnitudeOnly]);
    let header: Vec<Vec<char>> = ["gamma_mag", "gamma_rad"].iter().map(|h| chars(h)).collect();
    let roles = header_roles(&header);
    assert_eq!(
        classify_reflection_columns(&roles, &header),
        Ok(ValueColumns::ReflectionPolar { magnitude: 0, phase: 1, decibel: false, radians: true })
    );
}

#[test]
fn errors_carry_a_message_and_a_hint() {
    let error = ParseError::new("坏".to_string());
    assert_eq!(error.hint, None);
    let error = error.with_hint("修".to_string());
    assert_eq!(error.message, "坏");
    assert_eq!(error.hint.as_deref(), Some("修"));
}

#[test]
fn headerless_tables_need_three_columns() {
    let error = inspect_csv("1,2\n3,4\n", "x.csv").expect_err("must fail");
    assert_eq!(error.message, "表格只有两列且没有表头。");
    assert_eq!(error.hint.as_deref(), Some("请添加表头（例如 frequency,R,X），或补充频率列。"));
    let error = inspect_csv("1,2,3,4\n", "x.csv").expect_err("must fail");
    assert_eq!(error.message, "表格有 4 列但没有表头，无法确定各列含义。");
    assert_eq!(error.hint.as_deref(), Some("请在第一行添加表头，例如 frequency(MHz),R,X。"));
}

#[test]
fn reactance_without_resistance_is_rejected() {
    let error = inspect_csv("f,X\n1,2\n", "x.csv").expect_err("must fail");
    assert_eq!(error.message, "找到了电抗 X 列，还需要电阻 R 列。");
    assert_eq!(error.hint.as_deref(), Some("表头可写为 R、resistance 或 Re(Z)。"));
}

#[test]
fn reflection_tables_need_a_positive_reference() {
    let reflection = ValueColumns::ReflectionRealImaginary { real: 1, imaginary: 2 };
    let impedance = ValueColumns::Impedance { resistance: 1, reactance: 2 };
    assert_eq!(csv_reference(reflection, true, None), Ok(ReferenceSource::Declared));
    assert_eq!(
        csv_reference(reflection, false, Some(GivenReference::Usable)),
        Ok(ReferenceSource::Given)
    );
    let error = csv_reference(reflection, false, Some(GivenReference::Unusable)).expect_err("must fail");
    assert_eq!(error.message, "反射系数需要一个正的参考阻抗 Z0。");
    assert!(csv_reference(reflection, false, None).is_err());
    assert_eq!(csv_reference(impedance, false, None), Ok(ReferenceSource::Default));
    assert_eq!(
        csv_reference(impedance, false, Some(GivenReference::Unusable)),
        Ok(ReferenceSource::Default)
    );
}

#[test]
fn reflection_columns_without_a_reference_ask_for_one() {
    let layout = inspect_csv("freq(GHz),s11_mag,s11_deg\n1,0.2,90\n", "g.csv").expect("inspect");
    assert!(layout.needs_reference(false));
    assert!(!layout.needs_reference(true));
    let layout = inspect_csv("f(MHz),R,X\n1,25,30\n", "z.csv").expect("inspect");
    assert!(!layout.needs_reference(false));
}

#[test]
fn bare_mag_and_phase_columns_read_as_polar_reflection() {
    let layout = inspect_csv("freq,mag,phase\n1,0.5,30\n", "p.csv").expect("inspect");
    assert_eq!(
        layout.values,
        ValueColumns::ReflectionPolar { magnitude: 1, phase: 2, decibel: false, radians: false }
    );
    let error = inspect_csv("freq,mag\n1,0.5\n", "p.csv").expect_err("must fail");
    assert!(error.message.contains("缺少相位"), "{}", error.message);
}
