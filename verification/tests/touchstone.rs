use lib::dataset::{PortVariant, TraceOrigin, has_variants, select_variant, visible_traces};
use lib::i18n::Lang;
use lib::io::LoadedFile;
use lib::parse::csv::inspect_csv;
use lib::parse::{DetectedFormat, FrequencyUnit};
use lib::parse::touchstone::{
    LineKind, LoadNote, NumberKind, Parameter, ScanLine, TokenAt, TouchstoneShape, Format,
    infer_ports_from_line, parse_options, scan_touchstone, touchstone_frequency_unit,
    touchstone_structure, touchstone_traces, unsupported_keyword,
};
use lib::parse::ParseError;

fn kind_of(token: &str) -> NumberKind {
    match token.parse::<f64>() {
        Ok(value) if value.is_finite() && value > 0.0 => NumberKind::Positive,
        Ok(value) if value.is_finite() => NumberKind::NonPositive,
        _ => NumberKind::NotNumber,
    }
}

fn multiplier(unit: FrequencyUnit) -> f64 {
    match unit {
        FrequencyUnit::Hz => 1.0,
        FrequencyUnit::KHz => 1e3,
        FrequencyUnit::MHz => 1e6,
        FrequencyUnit::GHz => 1e9,
    }
}

fn kinds_of(scan: &[ScanLine]) -> Vec<Vec<NumberKind>> {
    scan.iter()
        .map(|line| line.tokens.iter().map(|t| kind_of(t)).collect())
        .collect()
}

/// Ranks of the first value of each data line, scaled to hertz.
fn ranks_of(scan: &[ScanLine], unit: FrequencyUnit) -> Vec<usize> {
    let frequencies: Vec<Option<f64>> = scan
        .iter()
        .map(|line| match line.kind {
            LineKind::Data => line
                .tokens
                .first()
                .and_then(|t| t.parse::<f64>().ok())
                .map(|v| v * multiplier(unit)),
            _ => None,
        })
        .collect();
    let mut distinct: Vec<f64> = frequencies.iter().flatten().copied().collect();
    distinct.sort_by(|a, b| a.partial_cmp(b).unwrap());
    distinct.dedup();
    frequencies
        .iter()
        .map(|f| match f {
            Some(v) => distinct.iter().position(|d| d == v).unwrap_or(0),
            None => 0,
        })
        .collect()
}

fn read(text: &str, hint: Option<u8>) -> Result<TouchstoneShape, ParseError> {
    let scan = scan_touchstone(text);
    let kinds = kinds_of(&scan);
    let unit = touchstone_frequency_unit(&scan, &kinds, Lang::Chinese);
    let ranks = ranks_of(&scan, unit);
    touchstone_structure(&scan, &kinds, &ranks, hint, Lang::Chinese)
}

#[test]
fn rejects_touchstone_two_point_zero() {
    let text = "[Version] 2.0\n# GHz S MA R 50\n[Number of Ports] 1\n1 0.5 0\n";
    let error = read(text, Some(1)).expect_err("must fail");
    assert!(error.message.contains("2.0"));
    assert!(error.hint.is_some());
}

#[test]
fn rejects_unknown_option_and_bad_numbers() {
    let error = read("# GHz S MA R 50 XX\n1 0.5 0\n", Some(1)).expect_err("must fail");
    assert!(error.message.contains("XX"));
    let error = read("# GHz S MA R 50\n1 abc 0\n", Some(1)).expect_err("must fail");
    assert!(error.message.contains("abc"));
    let error = read("# GHz S MA R 50\n1 0.5 0\n", Some(3)).expect_err("must fail");
    assert!(error.message.contains("3 端口"));
}

#[test]
fn infers_port_count_for_pasted_text() {
    let one = "# GHz S RI R 50\n1 0 0\n2 0 0\n3 0 0\n";
    let shape = read(one, None).expect("parse");
    assert_eq!(touchstone_traces(shape.ports, shape.options.parameter).len(), 1);
    assert_eq!(shape.rows.len(), 3);
    let two = "# GHz S RI R 50\n1 0.1 0 0.9 0 0.9 0 0.2 0\n2 0.1 0 0.9 0\n 0.9 0 0.2 0\n";
    let shape = read(two, None).expect("parse");
    assert_eq!(touchstone_traces(shape.ports, shape.options.parameter).len(), 2);
    assert_eq!(shape.rows.len(), 2);
}

#[test]
fn scan_cuts_comments_and_classifies_lines() {
    let scan = scan_touchstone("\u{feff}! header\n  # MHz S RI R 50 ! units\n\n[Version] 2.0\n1 2 3 ! x\n");
    let kinds: Vec<LineKind> = scan.iter().map(|l| l.kind).collect();
    assert_eq!(
        kinds,
        vec![LineKind::Blank, LineKind::Options, LineKind::Blank, LineKind::Keyword, LineKind::Data]
    );
    assert_eq!(scan[1].content, "# MHz S RI R 50");
    assert_eq!(scan[1].tokens, vec!["MHz", "S", "RI", "R", "50"]);
    assert_eq!(scan[3].content, "[Version] 2.0");
    assert_eq!(scan[4].tokens, vec!["1", "2", "3"]);
}

#[test]
fn option_line_sets_every_field() {
    let tokens: Vec<String> = ["khz", "Z", "db", "R", "75"].iter().map(|s| s.to_string()).collect();
    let kinds: Vec<NumberKind> = tokens.iter().map(|t| kind_of(t)).collect();
    let options = parse_options(&tokens, &kinds, 0, Lang::English).expect("options");
    assert_eq!(options.unit, FrequencyUnit::KHz);
    assert_eq!(options.parameter, Parameter::Z);
    assert_eq!(options.format, Format::DecibelAngle);
    assert_eq!(options.reference, Some(TokenAt { line: 0, token: 4 }));
}

#[test]
fn reference_needs_a_positive_number() {
    for tail in [vec!["R"], vec!["R", "-5"], vec!["R", "x"]] {
        let tokens: Vec<String> = tail.iter().map(|s| s.to_string()).collect();
        let kinds: Vec<NumberKind> = tokens.iter().map(|t| kind_of(t)).collect();
        let error = parse_options(&tokens, &kinds, 6, Lang::English).expect_err("must fail");
        assert_eq!(error.message, "Line 7 has no positive number after the reference R.");
        assert_eq!(error.hint.as_deref(), Some("Example: # GHz S MA R 50"));
    }
}

#[test]
fn unknown_option_names_the_token_and_line() {
    let tokens = vec!["GHz".to_string(), "Foo".to_string()];
    let kinds = vec![NumberKind::NotNumber, NumberKind::NotNumber];
    let error = parse_options(&tokens, &kinds, 2, Lang::Chinese).expect_err("must fail");
    assert_eq!(error.message, "第 3 行的选项“Foo”无法识别。");
}

#[test]
fn port_count_follows_the_first_line_width() {
    assert_eq!(infer_ports_from_line(3, 1, Lang::English), Ok(1));
    assert_eq!(infer_ports_from_line(9, 1, Lang::English), Ok(2));
    assert_eq!(infer_ports_from_line(5, 1, Lang::English), Ok(2));
    assert_eq!(infer_ports_from_line(7, 1, Lang::English), Ok(2));
    let error = infer_ports_from_line(4, 12, Lang::English).expect_err("must fail");
    assert_eq!(error.message, "Line 12 has 4 values, so the port count is unclear.");
}

#[test]
fn keywords_are_named_by_kind() {
    let content: Vec<char> = "[Mixed-Mode Order] D1,2".chars().collect();
    let error = unsupported_keyword(&content, Lang::English);
    assert_eq!(
        error.message,
        "Detected mixed-mode data (\"[Mixed-Mode Order]\"), which this version does not support."
    );
    let content: Vec<char> = "[Reference] 50".chars().collect();
    let error = unsupported_keyword(&content, Lang::Chinese);
    assert_eq!(
        error.message,
        "检测到带 [关键字] 的 Touchstone 2.x 文件（“[Reference]”），当前版本不支持。"
    );
}

#[test]
fn two_port_rows_span_lines_and_noise_block_is_skipped() {
    let text = "# GHz S RI R 50\n\
                1 0.1 0.2  0.9 0.0  0.8 0.0  -0.3 0.4\n\
                2 0.2 0.2  0.9 0.0\n  0.8 0.0  -0.3 -0.4\n\
                ! noise parameters\n\
                1 1.0 0.5 30 0.2\n\
                2 1.2 0.4 40 0.3\n";
    let shape = read(text, Some(2)).expect("parse");
    assert_eq!(shape.ports, 2);
    assert_eq!(shape.rows.len(), 2);
    assert!(shape.rows.iter().all(|row| row.len() == 9));
    assert_eq!(shape.rows[1][0], TokenAt { line: 2, token: 0 });
    assert_eq!(shape.rows[1][5], TokenAt { line: 3, token: 0 });
    assert!(shape.notes.contains(&LoadNote::TouchstoneNoiseBlockSkipped));
    let plans = touchstone_traces(2, Parameter::S);
    assert_eq!(plans[0].origin, TraceOrigin::TwoPortS(PortVariant::S11));
    assert_eq!(plans[0].offset, 1);
    assert_eq!(plans[1].origin, TraceOrigin::TwoPortS(PortVariant::S22));
    assert_eq!(plans[1].offset, 7);
    assert_eq!(plans[1].label, "S22");
}

#[test]
fn missing_option_line_notes_the_defaults() {
    let shape = read("1 1 0\n", Some(1)).expect("parse");
    assert!(shape.notes.contains(&LoadNote::TouchstoneDefaultOptions));
    assert_eq!(shape.options.unit, FrequencyUnit::GHz);
    assert_eq!(shape.options.parameter, Parameter::S);
    assert_eq!(shape.options.format, Format::MagnitudeAngle);
    assert_eq!(shape.options.reference, None);
}

#[test]
fn unit_in_force_comes_from_the_option_line() {
    for (word, unit) in [
        ("Hz", FrequencyUnit::Hz),
        ("kHz", FrequencyUnit::KHz),
        ("MHz", FrequencyUnit::MHz),
        ("GHz", FrequencyUnit::GHz),
    ] {
        let text = format!("# {word} S RI R 50\n1 0 0\n");
        let scan = scan_touchstone(&text);
        let kinds = kinds_of(&scan);
        assert_eq!(touchstone_frequency_unit(&scan, &kinds, Lang::English), unit);
        let shape = read(&text, Some(1)).expect("parse");
        assert_eq!(shape.options.unit, unit);
    }
    let scan = scan_touchstone("1 0 0\n# MHz S RI R 50\n");
    let kinds = kinds_of(&scan);
    assert_eq!(touchstone_frequency_unit(&scan, &kinds, Lang::English), FrequencyUnit::GHz);
}

#[test]
fn late_and_repeated_option_lines_are_noted() {
    let shape = read("# MHz S RI R 50\n# GHz S RI R 50\n1 0 0\n# Hz\n2 0 0\n", Some(1)).expect("parse");
    assert_eq!(
        shape.notes,
        vec![LoadNote::TouchstoneSecondOptionLine(2), LoadNote::TouchstoneSecondOptionLine(4)]
    );
    let shape = read("1 0 0\n# Hz\n2 0 0\n", Some(1)).expect("parse");
    assert_eq!(
        shape.notes,
        vec![LoadNote::TouchstoneOptionAfterData(2), LoadNote::TouchstoneDefaultOptions]
    );
    assert_eq!(
        LoadNote::TouchstoneOptionAfterData(2).text(Lang::English),
        "The option line at line 2 comes after the data and was ignored."
    );
}

#[test]
fn decreasing_one_port_frequency_is_noted_not_skipped() {
    let shape = read("# GHz S RI R 50\n2 0 0\n1 0 0\n", Some(1)).expect("parse");
    assert_eq!(shape.rows.len(), 2);
    assert_eq!(shape.notes, vec![LoadNote::TouchstoneFrequencyNotMonotonic(3)]);
}

#[test]
fn structural_errors_have_their_messages() {
    let error = read("# GHz S RI R 50\n1 0 0 0\n", Some(1)).expect_err("must fail");
    assert_eq!(
        error.message,
        "第 2 行附近的数值个数超过每个频点的 3 个（1 端口）。"
    );
    let error = read("# GHz S RI R 50\n1 0 0 0 0\n", Some(2)).expect_err("must fail");
    assert_eq!(error.message, "最后一个频点不完整，缺少 4 个数值。");
    let error = read("! only a comment\n# GHz S RI R 50\n", Some(1)).expect_err("must fail");
    assert_eq!(error.message, "没有找到任何数据行。");
    let error = read("# GHz Z RI R 50\n1 1 0 1 0 1 0 1 0\n", Some(2)).expect_err("must fail");
    assert_eq!(error.message, "两端口 Z 参数矩阵不能直接当作端口反射系数。");
    let error = read("# GHz G RI R 50\n1 1 0\n", Some(1)).expect_err("must fail");
    assert_eq!(error.message, "G 参数暂不支持。");
    let error = read("# GHz S RI R 50\n1 0 0 0\n", None).expect_err("must fail");
    assert_eq!(error.message, "第 2 行有 4 个数值，无法判断端口数。");
}

#[test]
fn one_port_z_and_y_keep_their_origin() {
    let z = touchstone_traces(1, Parameter::Z);
    assert_eq!(z[0].origin, TraceOrigin::OnePortZ);
    assert_eq!(z[0].label, "Z11");
    let y = touchstone_traces(1, Parameter::Y);
    assert_eq!(y[0].origin, TraceOrigin::OnePortY);
    let s = touchstone_traces(1, Parameter::S);
    assert_eq!(s[0].label, "S11");
    assert_eq!(s[0].offset, 1);
}

fn read_file(file: &LoadedFile) -> Result<TouchstoneShape, ParseError> {
    match file.format() {
        DetectedFormat::Touchstone { ports } => read(&file.text, ports),
        DetectedFormat::Csv => panic!("not a Touchstone file"),
    }
}

#[test]
fn touchstone_two_port_can_switch_between_ports() {
    let text =
        "# GHz S RI R 50\n1 0.1 0.2 0.9 0 0.8 0 -0.3 0.4\n2 0.2 0.2 0.9 0 0.8 0 -0.3 -0.4\n";
    let file = LoadedFile { name: "amp.s2p".to_owned(), text: text.to_owned() };
    let shape = read_file(&file).expect("parse");
    let plans = touchstone_traces(shape.ports, shape.options.parameter);
    assert_eq!(plans.len(), 2);
    // A two-port document starts on S11 and offers S22.
    let mut selection = Some(0);
    assert!(has_variants(selection, plans.len()));
    assert_eq!(visible_traces(selection, plans.len()), vec![0]);
    select_variant(&mut selection, plans.len(), 1);
    assert_eq!(visible_traces(selection, plans.len()), vec![1]);
}

#[test]
fn unsupported_touchstone_reports_an_error_instead_of_plotting() {
    let file = LoadedFile {
        name: "x.s1p".to_owned(),
        text: "[Version] 2.0\n# GHz S MA R 50\n1 0.5 0\n".to_owned(),
    };
    let error = read_file(&file).expect_err("must fail");
    assert!(error.message.contains("2.0"));
}

#[test]
fn csv_without_unit_opens_the_import_dialog() {
    let file = LoadedFile {
        name: "sweep.csv".to_owned(),
        text: "freq,R,X\n1,25,30\n2,30,10\n".to_owned(),
    };
    assert_eq!(file.format(), DetectedFormat::Csv);
    let layout = inspect_csv(&file.text, &file.name).expect("inspect");
    assert!(layout.needs_unit());
    assert!(layout.frequency_unit_with(None).is_err());
}

#[test]
fn pasted_data_wider_than_two_ports_is_rejected() {
    // One four-port point: a frequency and four pairs per line.
    let four = "# GHz S RI R 50\n1 0.1 0 0.2 0 0.3 0 0.4 0\n0.5 0 0.6 0 0.7 0 0.8 0\n\
                0.2 0 0.1 0 0.3 0 0.4 0\n0.3 0 0.4 0 0.1 0 0.2 0\n";
    let error = read(four, None).expect_err("must fail");
    assert_eq!(
        error.message,
        "第 4 行附近的数值个数超过每个频点的 9 个（2 端口）。"
    );
    // One three-port point: a frequency and three pairs, then two rows.
    let three = "# GHz S RI R 50\n1 0.1 0 0.2 0 0.3 0\n0.4 0 0.5 0 0.6 0\n0.7 0 0.8 0 0.9 0\n";
    assert!(read(three, None).is_err());
}

#[test]
fn rejection_quotes_the_first_faulty_token() {
    let error = read("# GHz S XX YY\n1 0.5 0\n", Some(1)).expect_err("must fail");
    assert!(error.message.contains("XX") && !error.message.contains("YY"), "{}", error.message);
    assert!(error.hint.is_some());
    let error = read("# GHz S MA R\n1 0.5 0\n", Some(1)).expect_err("must fail");
    assert!(error.message.contains("参考阻抗"), "{}", error.message);
    assert!(error.hint.is_some());
    let error = read("# GHz S MA R 50\n1 abc def\n2 xyz 0\n", Some(1)).expect_err("must fail");
    assert!(error.message.contains("第 2 行"), "{}", error.message);
    assert!(error.message.contains("abc") && !error.message.contains("def"));
    assert!(!error.message.contains("xyz"));
    assert!(error.hint.is_some());
}
