use lib::parse::{DetectedFormat, FrequencyUnit, detect_format, touchstone_ports_from_name};

#[test]
fn finds_units_in_headers() {
    assert_eq!(
        FrequencyUnit::find_in("Frequency (MHz)"),
        Some(FrequencyUnit::MHz)
    );
    assert_eq!(FrequencyUnit::find_in("freq_ghz"), Some(FrequencyUnit::GHz));
    assert_eq!(FrequencyUnit::find_in("f [Hz]"), Some(FrequencyUnit::Hz));
    assert_eq!(FrequencyUnit::find_in("frequency"), None);
    assert_eq!(FrequencyUnit::find_in("mhz2"), None);
}

#[test]
fn detects_formats() {
    assert_eq!(
        detect_format(Some("a.s2p"), ""),
        DetectedFormat::Touchstone { ports: Some(2) }
    );
    assert_eq!(
        detect_format(Some("A.S1P"), ""),
        DetectedFormat::Touchstone { ports: Some(1) }
    );
    assert_eq!(
        detect_format(Some("x.csv"), "# GHz S MA R 50"),
        DetectedFormat::Csv
    );
    assert_eq!(
        detect_format(None, "! comment\n# GHz S MA R 50\n1 0.5 30"),
        DetectedFormat::Touchstone { ports: None }
    );
    assert_eq!(detect_format(None, "freq,R,X\n1,2,3"), DetectedFormat::Csv);
}

#[test]
fn unit_tokens_are_trimmed_and_case_insensitive() {
    assert_eq!(FrequencyUnit::parse(" GHz "), Some(FrequencyUnit::GHz));
    assert_eq!(FrequencyUnit::parse("khz"), Some(FrequencyUnit::KHz));
    assert_eq!(FrequencyUnit::parse("MHZ"), Some(FrequencyUnit::MHz));
    assert_eq!(FrequencyUnit::parse("Hz"), Some(FrequencyUnit::Hz));
    assert_eq!(FrequencyUnit::parse("THz"), None);
    assert_eq!(FrequencyUnit::parse(""), None);
}

#[test]
fn unit_labels_round_trip_through_parse() {
    for unit in FrequencyUnit::all() {
        assert_eq!(FrequencyUnit::parse(unit.label()), Some(unit));
        assert_eq!(FrequencyUnit::find_in(unit.label()), Some(unit));
    }
    assert_eq!(FrequencyUnit::KHz.label(), "kHz");
}

#[test]
fn larger_units_win_and_words_must_stand_alone() {
    assert_eq!(
        FrequencyUnit::find_in("hz or ghz"),
        Some(FrequencyUnit::GHz)
    );
    assert_eq!(FrequencyUnit::find_in("xhz"), None);
    assert_eq!(FrequencyUnit::find_in("hzx hz"), Some(FrequencyUnit::Hz));
    assert_eq!(FrequencyUnit::find_in("频率(MHz)"), Some(FrequencyUnit::MHz));
}

#[test]
fn port_counts_come_from_the_extension() {
    assert_eq!(touchstone_ports_from_name("amp.s2p"), Some(2));
    assert_eq!(touchstone_ports_from_name("x.s12p"), Some(12));
    assert_eq!(touchstone_ports_from_name("x.s+3p"), None);
    assert_eq!(touchstone_ports_from_name("x.s300p"), None);
    assert_eq!(touchstone_ports_from_name("x.sp"), None);
    assert_eq!(touchstone_ports_from_name("x.csv"), None);
    assert_eq!(touchstone_ports_from_name("s4p"), None);
    assert_eq!(touchstone_ports_from_name("a.s1p"), Some(1));
    assert_eq!(touchstone_ports_from_name("amp.s10p"), Some(10));
    assert_eq!(touchstone_ports_from_name("a.s2p.txt"), None);
}

#[test]
fn names_decide_before_content() {
    assert_eq!(
        detect_format(Some("data.ts"), "freq,R,X"),
        DetectedFormat::Touchstone { ports: None }
    );
    assert_eq!(detect_format(Some("DATA.TSV"), "# x"), DetectedFormat::Csv);
    assert_eq!(detect_format(Some("notes.txt"), "! x"), DetectedFormat::Csv);
    assert_eq!(
        detect_format(Some("pasted"), "  [Version] 2.0"),
        DetectedFormat::Touchstone { ports: None }
    );
    assert_eq!(
        detect_format(Some("x.s3p"), ""),
        DetectedFormat::Touchstone { ports: Some(3) }
    );
}

#[test]
fn only_the_first_sixty_four_lines_are_sniffed() {
    let mut text = String::new();
    for _ in 0..64 {
        text.push_str("1,2,3\n");
    }
    text.push_str("# GHz S MA R 50\n");
    assert_eq!(detect_format(None, &text), DetectedFormat::Csv);
    let mut text = String::new();
    for _ in 0..63 {
        text.push_str("1,2,3\r\n");
    }
    text.push_str("   ! comment\n");
    assert_eq!(
        detect_format(None, &text),
        DetectedFormat::Touchstone { ports: None }
    );
}
