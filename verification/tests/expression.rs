use lib::expression::{Magnitude, Piece, complex_form, complex_outcome};

fn read_number(text: &str) -> Option<f64> {
    let text = text.trim();
    if text.is_empty() {
        return None;
    }
    text.parse::<f64>().ok().filter(|value| value.is_finite())
}

/// Reads an expression the way the application does: the grammar from the
/// library, the numbers here.
fn read(text: &str) -> Result<(f64, f64), String> {
    let pieces = complex_form(text)?;
    let values: Vec<Option<f64>> = pieces
        .iter()
        .map(|piece| match piece {
            Piece::Invalid { .. } => None,
            Piece::Real { number, .. } => read_number(number),
            Piece::Imaginary { magnitude, number, .. } => match magnitude {
                Magnitude::One => Some(1.0),
                Magnitude::MinusOne => Some(-1.0),
                Magnitude::Number => read_number(number),
            },
        })
        .collect();
    let reads: Vec<bool> = values.iter().map(Option::is_some).collect();
    let (re, im) = complex_outcome(&pieces, &reads)?;
    let value = |index: Option<usize>| index.and_then(|i| values[i]).unwrap_or(0.0);
    Ok((value(re), value(im)))
}

fn ok(text: &str) -> (f64, f64) {
    read(text).unwrap_or_else(|error| panic!("{text}: {error}"))
}

#[test]
fn accepts_common_engineering_forms() {
    assert_eq!(ok("25+j30"), (25.0, 30.0));
    assert_eq!(ok("25 - j30"), (25.0, -30.0));
    assert_eq!(ok("25+30j"), (25.0, 30.0));
    assert_eq!(ok("j30"), (0.0, 30.0));
    assert_eq!(ok("-15i"), (0.0, -15.0));
    assert_eq!(ok("25"), (25.0, 0.0));
    assert_eq!(ok("-j"), (0.0, -1.0));
    assert_eq!(ok("(25, 30)"), (25.0, 30.0));
    assert_eq!(ok("25,30"), (25.0, 30.0));
    assert_eq!(ok("1e2 + j1e-1 Ω"), (100.0, 0.1));
    assert_eq!(ok("50 ohm"), (50.0, 0.0));
    assert_eq!(ok("-20-j5"), (-20.0, -5.0));
}

#[test]
fn rejects_garbage_with_a_message() {
    assert!(read("").is_err());
    assert!(read("abc").is_err());
    assert!(read("1+2+3").is_err());
    assert!(read("j1+j2").is_err());
    assert!(read("2j5").is_err());
}

#[test]
fn every_failure_has_its_own_message() {
    assert_eq!(read("  ").unwrap_err(), "请输入一个数值，例如 25+j30");
    assert_eq!(read("1+2+3").unwrap_err(), "表达式包含太多项，请使用 R+jX 的形式");
    assert_eq!(read("j1+j2").unwrap_err(), "表达式包含重复的实部或虚部");
    assert_eq!(read("1+2").unwrap_err(), "表达式包含重复的实部或虚部");
    assert_eq!(read("jj5").unwrap_err(), "项“jj5”包含多个虚数单位");
    assert_eq!(
        read("2j5").unwrap_err(),
        "虚数单位在“2j5”中的位置无法识别，请写成 j30 或 30j"
    );
    assert_eq!(read("abc").unwrap_err(), "无法读取“abc”");
    assert_eq!(read("1+jx").unwrap_err(), "无法读取虚部“+jx”");
    assert_eq!(read("x,1").unwrap_err(), "无法读取实部“x”");
    assert_eq!(read("1,y").unwrap_err(), "无法读取虚部“y”");
}

#[test]
fn exponent_signs_do_not_start_a_term() {
    let pieces = complex_form("1e-3-j2.5E+1").expect("form");
    assert_eq!(pieces.len(), 2);
    assert_eq!(
        pieces[0],
        Piece::Real { number: "1e-3".to_string(), failure: "无法读取“1e-3”".to_string() }
    );
    assert_eq!(ok("1e-3-j2.5E+1"), (0.001, -25.0));
}

#[test]
fn ohm_words_and_brackets_are_removed() {
    assert_eq!(ok("(75 OHM)"), (75.0, 0.0));
    assert_eq!(ok("10 Ohm - j 3 ohms"), (10.0, -3.0));
}
