//! Touchstone 1.x structure: option line, comments, data rows split across
//! lines, and the trailing noise-parameter block of two-port files (rows of
//! five values whose frequency restarts lower), which is skipped. Touchstone
//! 2.0 keywords, mixed-mode data, and more than two ports are rejected with
//! an explicit message; data pasted without an extension whose points hold
//! more values than two ports allow is rejected as too wide.
//!
//! The reader works on the text of the file. Whether a token is a number,
//! and how the first values of data lines compare as frequencies, is handed
//! in by the caller, which alone holds the numbers.

use crate::dataset::{PortVariant, TraceOrigin};
use crate::i18n::Lang;
use crate::parse::{
    ErrorText, FrequencyUnit, ParseError, error_text, same_outcome,
};
use crate::text::{
    Strip, chars_of, contains_seq, contains_str, copy_range, decimal_chars, decimal_text,
    eq_str, find_char, has_prefix, index_of, lines, lines_of, lower_seq, lowercase, split_char,
    split_on, split_words, starts_with_str, string_of, strip, strip_front, trim, trim_front,
    words,
};
use vstd::prelude::*;

verus! {

/// Parameter type named on the option line.
#[derive(Clone, Copy, Debug, PartialEq, Eq, Structural)]
pub enum Parameter {
    S,
    Y,
    Z,
    G,
    H,
}

impl Parameter {
    pub open spec fn label_spec(self) -> Seq<char> {
        match self {
            Parameter::S => "S"@,
            Parameter::Y => "Y"@,
            Parameter::Z => "Z"@,
            Parameter::G => "G"@,
            Parameter::H => "H"@,
        }
    }

    pub fn label(self) -> (label: &'static str)
        ensures
            label@ == self.label_spec(),
    {
        match self {
            Parameter::S => "S",
            Parameter::Y => "Y",
            Parameter::Z => "Z",
            Parameter::G => "G",
            Parameter::H => "H",
        }
    }
}

/// Number format named on the option line.
#[derive(Clone, Copy, Debug, PartialEq, Eq, Structural)]
pub enum Format {
    MagnitudeAngle,
    DecibelAngle,
    RealImaginary,
}

impl Format {
    pub open spec fn label_spec(self) -> Seq<char> {
        match self {
            Format::MagnitudeAngle => "MA"@,
            Format::DecibelAngle => "DB"@,
            Format::RealImaginary => "RI"@,
        }
    }

    pub fn label(self) -> (label: &'static str)
        ensures
            label@ == self.label_spec(),
    {
        match self {
            Format::MagnitudeAngle => "MA",
            Format::DecibelAngle => "DB",
            Format::RealImaginary => "RI",
        }
    }
}

// ---------------------------------------------------------------------------
// Lines
// ---------------------------------------------------------------------------

/// What a line of a Touchstone file holds once comments are removed.
#[derive(Clone, Copy, Debug, PartialEq, Eq, Structural)]
pub enum LineKind {
    /// Nothing but whitespace and comments.
    Blank,
    /// A `[keyword]` of Touchstone 2.x.
    Keyword,
    /// The `#` option line.
    Options,
    /// Numbers of a data row.
    Data,
}

/// One line: its kind, its content without comment and surrounding
/// whitespace, and the whitespace-separated tokens of an option line (after
/// the `#`) or a data line.
#[derive(Clone, Debug, PartialEq, Eq)]
pub struct ScanLine {
    pub kind: LineKind,
    pub content: String,
    pub tokens: Vec<String>,
}

pub struct ScanText {
    pub kind: LineKind,
    pub content: Seq<char>,
    pub tokens: Seq<Seq<char>>,
}

impl View for ScanLine {
    type V = ScanText;

    open spec fn view(&self) -> ScanText {
        ScanText {
            kind: self.kind,
            content: self.content@,
            tokens: self.tokens@.map_values(|t: String| t@),
        }
    }
}

/// The text before the first `!`.
pub open spec fn before_comment(l: Seq<char>) -> Seq<char> {
    let k = index_of(l, '!');
    if k >= 0 {
        l.take(k)
    } else {
        l
    }
}

/// Content of a line: byte order mark dropped, comment cut, whitespace
/// trimmed.
pub open spec fn line_content(l: Seq<char>) -> Seq<char> {
    trim(before_comment(trim_front(l, Strip::Bom)), Strip::Space)
}

pub open spec fn scan_line_spec(l: Seq<char>) -> ScanText {
    let c = line_content(l);
    if c.len() == 0 {
        ScanText { kind: LineKind::Blank, content: c, tokens: Seq::empty() }
    } else if c[0] == '[' {
        ScanText { kind: LineKind::Keyword, content: c, tokens: Seq::empty() }
    } else if c[0] == '#' {
        ScanText { kind: LineKind::Options, content: c, tokens: words(c.drop_first()) }
    } else {
        ScanText { kind: LineKind::Data, content: c, tokens: words(c) }
    }
}

/// Every line of the text, scanned.
pub open spec fn scan_spec(text: Seq<char>) -> Seq<ScanText> {
    lines_of(text).map_values(|l: Seq<char>| scan_line_spec(l))
}

fn strings_of(cells: &Vec<Vec<char>>) -> (out: Vec<String>)
    ensures
        out@.map_values(|t: String| t@) == cells@.map_values(|v: Vec<char>| v@),
{
    let mut out: Vec<String> = Vec::new();
    let mut i: usize = 0;
    while i < cells.len()
        invariant
            i <= cells.len(),
            out@.map_values(|t: String| t@) == cells@.map_values(|v: Vec<char>| v@).take(i as int),
        decreases cells.len() - i,
    {
        let ghost before = out@;
        out.push(string_of(&cells[i]));
        assert(out@.map_values(|t: String| t@) =~= before.map_values(|t: String| t@).push(
            cells@[i as int]@,
        ));
        i += 1;
        assert(out@.map_values(|t: String| t@) =~= cells@.map_values(|v: Vec<char>| v@).take(
            i as int,
        ));
    }
    assert(cells@.map_values(|v: Vec<char>| v@).take(i as int) =~= cells@.map_values(
        |v: Vec<char>| v@,
    ));
    out
}

fn scan_one(l: &Vec<char>) -> (line: ScanLine)
    ensures
        line@ == scan_line_spec(l@),
{
    let no_bom = strip_front(l, Strip::Bom);
    let before = match find_char(&no_bom, '!') {
        Some(k) => copy_range(&no_bom, 0, k),
        None => copy_range(&no_bom, 0, no_bom.len()),
    };
    assert(before@ =~= before_comment(trim_front(l@, Strip::Bom)));
    let c = strip(&before, Strip::Space);
    if c.len() == 0 {
        let tokens: Vec<String> = Vec::new();
        assert(tokens@.map_values(|t: String| t@) =~= Seq::<Seq<char>>::empty());
        ScanLine { kind: LineKind::Blank, content: string_of(&c), tokens }
    } else if c[0] == '[' {
        let tokens: Vec<String> = Vec::new();
        assert(tokens@.map_values(|t: String| t@) =~= Seq::<Seq<char>>::empty());
        ScanLine { kind: LineKind::Keyword, content: string_of(&c), tokens }
    } else if c[0] == '#' {
        let rest = copy_range(&c, 1, c.len());
        assert(rest@ =~= c@.drop_first());
        let ws = split_words(&rest);
        ScanLine { kind: LineKind::Options, content: string_of(&c), tokens: strings_of(&ws) }
    } else {
        let ws = split_words(&c);
        ScanLine { kind: LineKind::Data, content: string_of(&c), tokens: strings_of(&ws) }
    }
}

/// Splits Touchstone text into scanned lines; line `i` of the result is
/// line number `i + 1` of the file.
pub fn scan_touchstone(text: &str) -> (scan: Vec<ScanLine>)
    ensures
        scan@.map_values(|l: ScanLine| l@) == scan_spec(text@),
{
    let chars = chars_of(text);
    let all = lines(&chars);
    let ghost ls = all@.map_values(|v: Vec<char>| v@);
    let mut scan: Vec<ScanLine> = Vec::new();
    let mut i: usize = 0;
    while i < all.len()
        invariant
            ls == all@.map_values(|v: Vec<char>| v@),
            ls == lines_of(text@),
            i <= all.len(),
            scan@.map_values(|l: ScanLine| l@) == scan_spec(text@).take(i as int),
        decreases all.len() - i,
    {
        let line = scan_one(&all[i]);
        assert(ls[i as int] == all@[i as int]@);
        let ghost before = scan@;
        scan.push(line);
        assert(scan@.map_values(|l: ScanLine| l@) =~= before.map_values(|l: ScanLine| l@).push(
            scan_spec(text@)[i as int],
        ));
        i += 1;
        assert(scan_spec(text@).take(i as int) =~= scan_spec(text@).take(i - 1).push(
            scan_spec(text@)[i - 1],
        ));
    }
    assert(scan_spec(text@).take(i as int) =~= scan_spec(text@));
    scan
}

// ---------------------------------------------------------------------------
// Messages
// ---------------------------------------------------------------------------

pub open spec fn pick_seq(lang: Lang, chinese: Seq<char>, english: Seq<char>) -> Seq<char> {
    match lang {
        Lang::Chinese => chinese,
        Lang::English => english,
    }
}

pub open spec fn ports_error(ports: u8, lang: Lang) -> ErrorText {
    error_text(
        pick_seq(
            lang,
            decimal_text(ports as nat) + " 端口 Touchstone 文件暂不支持。"@,
            decimal_text(ports as nat) + "-port Touchstone files are not supported yet."@,
        ),
        Some(
            pick_seq(
                lang,
                "当前支持 .s1p 和 .s2p（Touchstone 1.x）。"@,
                "Only .s1p and .s2p (Touchstone 1.x) are supported."@,
            ),
        ),
    )
}

/// The keyword of a `[keyword]` line: up to the first `]`, without the
/// opening brackets and surrounding whitespace.
pub open spec fn keyword_of(content: Seq<char>) -> Seq<char> {
    trim(trim_front(split_on(content, ']')[0], Strip::Bracket), Strip::Space)
}

pub open spec fn keyword_kind(keyword: Seq<char>, lang: Lang) -> Seq<char> {
    let lower = lower_seq(keyword);
    if has_prefix(lower, "version"@) {
        pick_seq(lang, "Touchstone 2.0 文件"@, "a Touchstone 2.0 file"@)
    } else if contains_seq(lower, "mixed"@) {
        pick_seq(lang, "混合模（mixed-mode）数据"@, "mixed-mode data"@)
    } else {
        pick_seq(lang, "带 [关键字] 的 Touchstone 2.x 文件"@, "a Touchstone 2.x file with [keywords]"@)
    }
}

pub open spec fn keyword_error(content: Seq<char>, lang: Lang) -> ErrorText {
    let keyword = keyword_of(content);
    let what = keyword_kind(keyword, lang);
    error_text(
        pick_seq(
            lang,
            "检测到"@ + what + "（“["@ + keyword + "]”），当前版本不支持。"@,
            "Detected "@ + what + " (\"["@ + keyword + "]\"), which this version does not support."@,
        ),
        Some(
            pick_seq(
                lang,
                "当前支持 Touchstone 1.x 的 .s1p 和 .s2p 单端模式 S 参数。可用 Touchstone 1.x 格式重新导出。"@,
                "Supported: Touchstone 1.x .s1p and .s2p single-ended S parameters. Re-export as Touchstone 1.x."@,
            ),
        ),
    )
}

pub open spec fn reference_error(line: nat, lang: Lang) -> ErrorText {
    error_text(
        pick_seq(
            lang,
            "第 "@ + decimal_text(line) + " 行的参考阻抗 R 后面缺少正数。"@,
            "Line "@ + decimal_text(line) + " has no positive number after the reference R."@,
        ),
        Some(pick_seq(lang, "示例：# GHz S MA R 50"@, "Example: # GHz S MA R 50"@)),
    )
}

pub open spec fn option_error(line: nat, token: Seq<char>, lang: Lang) -> ErrorText {
    error_text(
        pick_seq(
            lang,
            "第 "@ + decimal_text(line) + " 行的选项“"@ + token + "”无法识别。"@,
            "Line "@ + decimal_text(line) + " has an option that is not recognized: \""@ + token
                + "\"."@,
        ),
        Some(
            pick_seq(
                lang,
                "Touchstone 1.x 选项行示例：# GHz S MA R 50"@,
                "Touchstone 1.x option line example: # GHz S MA R 50"@,
            ),
        ),
    )
}

pub open spec fn number_error(line: nat, token: Seq<char>, lang: Lang) -> ErrorText {
    error_text(
        pick_seq(
            lang,
            "第 "@ + decimal_text(line) + " 行无法读取数值“"@ + token + "”。"@,
            "Line "@ + decimal_text(line) + " has a value that is not a number: \""@ + token
                + "\"."@,
        ),
        Some(
            pick_seq(
                lang,
                "Touchstone 数据行只能包含数字，注释需以 ! 开头。"@,
                "Touchstone data rows hold numbers only; comments start with !."@,
            ),
        ),
    )
}

pub open spec fn width_error(line: nat, values: nat, lang: Lang) -> ErrorText {
    error_text(
        pick_seq(
            lang,
            "第 "@ + decimal_text(line) + " 行有 "@ + decimal_text(values) + " 个数值，无法判断端口数。"@,
            "Line "@ + decimal_text(line) + " has "@ + decimal_text(values)
                + " values, so the port count is unclear."@,
        ),
        Some(
            pick_seq(
                lang,
                "请使用 .s1p 或 .s2p 扩展名，或在粘贴时选择格式。"@,
                "Use a .s1p or .s2p extension, or pick the format when pasting."@,
            ),
        ),
    )
}

pub open spec fn overflow_error(line: nat, stride: nat, ports: nat, lang: Lang) -> ErrorText {
    error_text(
        pick_seq(
            lang,
            "第 "@ + decimal_text(line) + " 行附近的数值个数超过每个频点的 "@ + decimal_text(stride)
                + " 个（"@ + decimal_text(ports) + " 端口）。"@,
            "Near line "@ + decimal_text(line) + " there are more values than the "@
                + decimal_text(stride) + " per frequency point ("@ + decimal_text(ports)
                + " ports)."@,
        ),
        Some(
            pick_seq(
                lang,
                "检查扩展名与端口数是否一致，或数据行是否被错误拆分。"@,
                "Check that the extension matches the port count and that rows are not split wrong."@,
            ),
        ),
    )
}

pub open spec fn incomplete_error(missing: nat, lang: Lang) -> ErrorText {
    error_text(
        pick_seq(
            lang,
            "最后一个频点不完整，缺少 "@ + decimal_text(missing) + " 个数值。"@,
            "The last frequency point is incomplete, missing "@ + decimal_text(missing)
                + " values."@,
        ),
        Some(pick_seq(lang, "检查文件是否被截断。"@, "Check whether the file was truncated."@)),
    )
}

pub open spec fn no_rows_error(lang: Lang) -> ErrorText {
    error_text(
        pick_seq(lang, "没有找到任何数据行。"@, "No data rows were found."@),
        Some(
            pick_seq(
                lang,
                "检查文件是否只包含注释或选项行。"@,
                "Check whether the file has only comments or option lines."@,
            ),
        ),
    )
}

pub open spec fn matrix_error(parameter: Parameter, lang: Lang) -> ErrorText {
    let label = parameter.label_spec();
    error_text(
        pick_seq(
            lang,
            "两端口 "@ + label + " 参数矩阵不能直接当作端口反射系数。"@,
            "A two-port "@ + label + " matrix cannot be read directly as port reflections."@,
        ),
        Some(
            pick_seq(
                lang,
                "请提供 S 参数的 .s2p 文件；Z11/Z22 不是匹配终接下的端口阻抗。"@,
                "Provide an S-parameter .s2p file; Z11/Z22 are not the matched-port impedances."@,
            ),
        ),
    )
}

pub open spec fn parameter_error(parameter: Parameter, lang: Lang) -> ErrorText {
    let label = parameter.label_spec();
    error_text(
        pick_seq(
            lang,
            label + " 参数暂不支持。"@,
            label + " parameters are not supported yet."@,
        ),
        Some(
            pick_seq(
                lang,
                "当前支持 S 参数，以及一端口 Z、Y 参数。"@,
                "Supported: S parameters, and one-port Z and Y parameters."@,
            ),
        ),
    )
}

fn pick_chars(lang: Lang, chinese: &str, english: &str) -> (out: Vec<char>)
    ensures
        out@ == pick_seq(lang, chinese@, english@),
{
    chars_of(lang.pick(chinese, english))
}

fn make_error(message: &Vec<char>, hint: &Vec<char>) -> (e: ParseError)
    ensures
        e@ == error_text(message@, Some(hint@)),
{
    ParseError { message: string_of(message), hint: Some(string_of(hint)) }
}

fn ports_error_exec(ports: u8, lang: Lang) -> (e: ParseError)
    ensures
        e@ == ports_error(ports, lang),
{
    let mut m = decimal_chars(ports as usize);
    crate::text::push_lit(
        &mut m,
        lang.pick(" 端口 Touchstone 文件暂不支持。", "-port Touchstone files are not supported yet."),
    );
    let h = pick_chars(
        lang,
        "当前支持 .s1p 和 .s2p（Touchstone 1.x）。",
        "Only .s1p and .s2p (Touchstone 1.x) are supported.",
    );
    assert(m@ =~= ports_error(ports, lang).message);
    make_error(&m, &h)
}

/// Error for a Touchstone 2.x `[keyword]` line.
pub fn unsupported_keyword(content: &Vec<char>, lang: Lang) -> (e: ParseError)
    ensures
        e@ == keyword_error(content@, lang),
{
    let pieces = split_char(content, ']');
    proof {
        crate::parse::lemma_split_nonempty(content@, ']');
    }
    assert(pieces@.map_values(|v: Vec<char>| v@)[0] == pieces@[0]@);
    let opened = strip_front(&pieces[0], Strip::Bracket);
    let keyword = strip(&opened, Strip::Space);
    assert(keyword@ == keyword_of(content@));
    let lower = lowercase(&keyword);
    let what = if starts_with_str(&lower, "version") {
        pick_chars(lang, "Touchstone 2.0 文件", "a Touchstone 2.0 file")
    } else if contains_str(&lower, "mixed") {
        pick_chars(lang, "混合模（mixed-mode）数据", "mixed-mode data")
    } else {
        pick_chars(lang, "带 [关键字] 的 Touchstone 2.x 文件", "a Touchstone 2.x file with [keywords]")
    };
    let mut m: Vec<char> = Vec::new();
    match lang {
        Lang::Chinese => {
            crate::text::push_lit(&mut m, "检测到");
            crate::text::push_seq(&mut m, &what);
            crate::text::push_lit(&mut m, "（“[");
            crate::text::push_seq(&mut m, &keyword);
            crate::text::push_lit(&mut m, "]”），当前版本不支持。");
        },
        Lang::English => {
            crate::text::push_lit(&mut m, "Detected ");
            crate::text::push_seq(&mut m, &what);
            crate::text::push_lit(&mut m, " (\"[");
            crate::text::push_seq(&mut m, &keyword);
            crate::text::push_lit(&mut m, "]\"), which this version does not support.");
        },
    }
    let h = pick_chars(
        lang,
        "当前支持 Touchstone 1.x 的 .s1p 和 .s2p 单端模式 S 参数。可用 Touchstone 1.x 格式重新导出。",
        "Supported: Touchstone 1.x .s1p and .s2p single-ended S parameters. Re-export as Touchstone 1.x.",
    );
    assert(m@ =~= keyword_error(content@, lang).message);
    make_error(&m, &h)
}

/// `prefix + n + suffix` in the chosen language.
fn line_message(
    lang: Lang,
    n: usize,
    zh_before: &str,
    zh_after: &str,
    en_before: &str,
    en_after: &str,
) -> (m: Vec<char>)
    ensures
        m@ == pick_seq(
            lang,
            zh_before@ + decimal_text(n as nat) + zh_after@,
            en_before@ + decimal_text(n as nat) + en_after@,
        ),
{
    let mut m = chars_of(lang.pick(zh_before, en_before));
    crate::text::push_number(&mut m, n);
    crate::text::push_lit(&mut m, lang.pick(zh_after, en_after));
    m
}

fn reference_error_exec(line: usize, lang: Lang) -> (e: ParseError)
    ensures
        e@ == reference_error(line as nat, lang),
{
    let m = line_message(
        lang,
        line,
        "第 ",
        " 行的参考阻抗 R 后面缺少正数。",
        "Line ",
        " has no positive number after the reference R.",
    );
    let h = pick_chars(lang, "示例：# GHz S MA R 50", "Example: # GHz S MA R 50");
    make_error(&m, &h)
}

fn token_message(
    lang: Lang,
    n: usize,
    token: &Vec<char>,
    zh: (&str, &str, &str),
    en: (&str, &str, &str),
) -> (m: Vec<char>)
    ensures
        m@ == pick_seq(
            lang,
            zh.0@ + decimal_text(n as nat) + zh.1@ + token@ + zh.2@,
            en.0@ + decimal_text(n as nat) + en.1@ + token@ + en.2@,
        ),
{
    let mut m = chars_of(lang.pick(zh.0, en.0));
    crate::text::push_number(&mut m, n);
    crate::text::push_lit(&mut m, lang.pick(zh.1, en.1));
    crate::text::push_seq(&mut m, token);
    crate::text::push_lit(&mut m, lang.pick(zh.2, en.2));
    m
}

fn option_error_exec(line: usize, token: &Vec<char>, lang: Lang) -> (e: ParseError)
    ensures
        e@ == option_error(line as nat, token@, lang),
{
    let m = token_message(
        lang,
        line,
        token,
        ("第 ", " 行的选项“", "”无法识别。"),
        ("Line ", " has an option that is not recognized: \"", "\"."),
    );
    let h = pick_chars(
        lang,
        "Touchstone 1.x 选项行示例：# GHz S MA R 50",
        "Touchstone 1.x option line example: # GHz S MA R 50",
    );
    make_error(&m, &h)
}

fn number_error_exec(line: usize, token: &Vec<char>, lang: Lang) -> (e: ParseError)
    ensures
        e@ == number_error(line as nat, token@, lang),
{
    let m = token_message(
        lang,
        line,
        token,
        ("第 ", " 行无法读取数值“", "”。"),
        ("Line ", " has a value that is not a number: \"", "\"."),
    );
    let h = pick_chars(
        lang,
        "Touchstone 数据行只能包含数字，注释需以 ! 开头。",
        "Touchstone data rows hold numbers only; comments start with !.",
    );
    make_error(&m, &h)
}

fn width_error_exec(line: usize, values: usize, lang: Lang) -> (e: ParseError)
    ensures
        e@ == width_error(line as nat, values as nat, lang),
{
    let mut m = chars_of(lang.pick("第 ", "Line "));
    crate::text::push_number(&mut m, line);
    crate::text::push_lit(&mut m, lang.pick(" 行有 ", " has "));
    crate::text::push_number(&mut m, values);
    crate::text::push_lit(
        &mut m,
        lang.pick(" 个数值，无法判断端口数。", " values, so the port count is unclear."),
    );
    let h = pick_chars(
        lang,
        "请使用 .s1p 或 .s2p 扩展名，或在粘贴时选择格式。",
        "Use a .s1p or .s2p extension, or pick the format when pasting.",
    );
    assert(m@ =~= width_error(line as nat, values as nat, lang).message);
    make_error(&m, &h)
}

fn overflow_error_exec(line: usize, stride: usize, ports: u8, lang: Lang) -> (e: ParseError)
    ensures
        e@ == overflow_error(line as nat, stride as nat, ports as nat, lang),
{
    let mut m = chars_of(lang.pick("第 ", "Near line "));
    crate::text::push_number(&mut m, line);
    crate::text::push_lit(
        &mut m,
        lang.pick(" 行附近的数值个数超过每个频点的 ", " there are more values than the "),
    );
    crate::text::push_number(&mut m, stride);
    crate::text::push_lit(&mut m, lang.pick(" 个（", " per frequency point ("));
    crate::text::push_number(&mut m, ports as usize);
    crate::text::push_lit(&mut m, lang.pick(" 端口）。", " ports)."));
    let h = pick_chars(
        lang,
        "检查扩展名与端口数是否一致，或数据行是否被错误拆分。",
        "Check that the extension matches the port count and that rows are not split wrong.",
    );
    assert(m@ =~= overflow_error(line as nat, stride as nat, ports as nat, lang).message);
    make_error(&m, &h)
}

fn incomplete_error_exec(missing: usize, lang: Lang) -> (e: ParseError)
    ensures
        e@ == incomplete_error(missing as nat, lang),
{
    let m = line_message(
        lang,
        missing,
        "最后一个频点不完整，缺少 ",
        " 个数值。",
        "The last frequency point is incomplete, missing ",
        " values.",
    );
    let h = pick_chars(lang, "检查文件是否被截断。", "Check whether the file was truncated.");
    make_error(&m, &h)
}

fn no_rows_error_exec(lang: Lang) -> (e: ParseError)
    ensures
        e@ == no_rows_error(lang),
{
    let m = pick_chars(lang, "没有找到任何数据行。", "No data rows were found.");
    let h = pick_chars(
        lang,
        "检查文件是否只包含注释或选项行。",
        "Check whether the file has only comments or option lines.",
    );
    make_error(&m, &h)
}

fn matrix_error_exec(parameter: Parameter, lang: Lang) -> (e: ParseError)
    ensures
        e@ == matrix_error(parameter, lang),
{
    let mut m = chars_of(lang.pick("两端口 ", "A two-port "));
    crate::text::push_lit(&mut m, parameter.label());
    crate::text::push_lit(
        &mut m,
        lang.pick(
            " 参数矩阵不能直接当作端口反射系数。",
            " matrix cannot be read directly as port reflections.",
        ),
    );
    let h = pick_chars(
        lang,
        "请提供 S 参数的 .s2p 文件；Z11/Z22 不是匹配终接下的端口阻抗。",
        "Provide an S-parameter .s2p file; Z11/Z22 are not the matched-port impedances.",
    );
    assert(m@ =~= matrix_error(parameter, lang).message);
    make_error(&m, &h)
}

fn parameter_error_exec(parameter: Parameter, lang: Lang) -> (e: ParseError)
    ensures
        e@ == parameter_error(parameter, lang),
{
    let mut m = chars_of(parameter.label());
    crate::text::push_lit(&mut m, lang.pick(" 参数暂不支持。", " parameters are not supported yet."));
    let h = pick_chars(
        lang,
        "当前支持 S 参数，以及一端口 Z、Y 参数。",
        "Supported: S parameters, and one-port Z and Y parameters.",
    );
    assert(m@ =~= parameter_error(parameter, lang).message);
    make_error(&m, &h)
}

// ---------------------------------------------------------------------------
// Option line
// ---------------------------------------------------------------------------

/// What the caller found when reading a token as a number.
#[derive(Clone, Copy, Debug, PartialEq, Eq, Structural)]
pub enum NumberKind {
    /// Not a number, or not a finite one.
    NotNumber,
    /// A finite number that is zero or negative.
    NonPositive,
    /// A finite positive number.
    Positive,
}

/// Position of a token: scan line and index among the line's tokens.
#[derive(Clone, Copy, Debug, PartialEq, Eq, Structural)]
pub struct TokenAt {
    pub line: usize,
    pub token: usize,
}

/// Settings of the option line. The reference impedance is the token at
/// `(line, index)` of the scan, or 50 Ω when `None`.
#[derive(Clone, Copy, Debug, PartialEq, Eq, Structural)]
pub struct Options {
    pub unit: FrequencyUnit,
    pub parameter: Parameter,
    pub format: Format,
    pub reference: Option<TokenAt>,
}

/// `# GHz S MA R 50`, which applies without an option line.
pub open spec fn default_options() -> Options {
    Options {
        unit: FrequencyUnit::GHz,
        parameter: Parameter::S,
        format: Format::MagnitudeAngle,
        reference: None,
    }
}

impl Default for Options {
    fn default() -> (o: Options)
        ensures
            o == default_options(),
    {
        Options {
            unit: FrequencyUnit::GHz,
            parameter: Parameter::S,
            format: Format::MagnitudeAngle,
            reference: None,
        }
    }
}

pub open spec fn with_unit(o: Options, unit: FrequencyUnit) -> Options {
    Options { unit, parameter: o.parameter, format: o.format, reference: o.reference }
}

pub open spec fn with_parameter(o: Options, parameter: Parameter) -> Options {
    Options { unit: o.unit, parameter, format: o.format, reference: o.reference }
}

pub open spec fn with_format(o: Options, format: Format) -> Options {
    Options { unit: o.unit, parameter: o.parameter, format, reference: o.reference }
}

pub open spec fn with_reference(o: Options, at: TokenAt) -> Options {
    Options { unit: o.unit, parameter: o.parameter, format: o.format, reference: Some(at) }
}

/// Reads the option tokens of scan line `line` from token `k` on, each word
/// compared after ASCII lowercasing; `R` takes the next token, which must be
/// a positive number.
pub open spec fn options_from(
    tokens: Seq<Seq<char>>,
    kinds: Seq<NumberKind>,
    line: usize,
    k: int,
    acc: Options,
    lang: Lang,
) -> Result<Options, ErrorText>
    decreases tokens.len() - k,
{
    if k < 0 || k >= tokens.len() {
        Ok(acc)
    } else {
        let t = lower_seq(tokens[k]);
        let n = line as nat + 1;
        if t == "hz"@ {
            options_from(tokens, kinds, line, k + 1, with_unit(acc, FrequencyUnit::Hz), lang)
        } else if t == "khz"@ {
            options_from(tokens, kinds, line, k + 1, with_unit(acc, FrequencyUnit::KHz), lang)
        } else if t == "mhz"@ {
            options_from(tokens, kinds, line, k + 1, with_unit(acc, FrequencyUnit::MHz), lang)
        } else if t == "ghz"@ {
            options_from(tokens, kinds, line, k + 1, with_unit(acc, FrequencyUnit::GHz), lang)
        } else if t == "s"@ {
            options_from(tokens, kinds, line, k + 1, with_parameter(acc, Parameter::S), lang)
        } else if t == "y"@ {
            options_from(tokens, kinds, line, k + 1, with_parameter(acc, Parameter::Y), lang)
        } else if t == "z"@ {
            options_from(tokens, kinds, line, k + 1, with_parameter(acc, Parameter::Z), lang)
        } else if t == "g"@ {
            options_from(tokens, kinds, line, k + 1, with_parameter(acc, Parameter::G), lang)
        } else if t == "h"@ {
            options_from(tokens, kinds, line, k + 1, with_parameter(acc, Parameter::H), lang)
        } else if t == "ma"@ {
            options_from(tokens, kinds, line, k + 1, with_format(acc, Format::MagnitudeAngle), lang)
        } else if t == "db"@ {
            options_from(tokens, kinds, line, k + 1, with_format(acc, Format::DecibelAngle), lang)
        } else if t == "ri"@ {
            options_from(tokens, kinds, line, k + 1, with_format(acc, Format::RealImaginary), lang)
        } else if t == "r"@ {
            if k + 1 < tokens.len() && kinds[k + 1] == NumberKind::Positive {
                options_from(
                    tokens,
                    kinds,
                    line,
                    k + 2,
                    with_reference(acc, TokenAt { line, token: (k + 1) as usize }),
                    lang,
                )
            } else {
                Err(reference_error(n, lang))
            }
        } else {
            Err(option_error(n, tokens[k], lang))
        }
    }
}

pub open spec fn unit_words() -> Set<Seq<char>> {
    set!["hz"@, "khz"@, "mhz"@, "ghz"@]
}

pub open spec fn parameter_words() -> Set<Seq<char>> {
    set!["s"@, "y"@, "z"@, "g"@, "h"@]
}

pub open spec fn format_words() -> Set<Seq<char>> {
    set!["ma"@, "db"@, "ri"@]
}

/// Token `j`, from token `from` on, is the last whose lowercase form is one
/// of `words`.
pub open spec fn last_word_at(tokens: Seq<Seq<char>>, from: int, j: int, words: Set<Seq<char>>) -> bool {
    &&& from <= j < tokens.len()
    &&& words.contains(lower_seq(tokens[j]))
    &&& forall|m: int| j < m < tokens.len() ==> !words.contains(lower_seq(tokens[m]))
}

/// No token from token `from` on is, in lowercase, one of `words`.
pub open spec fn no_word_from(tokens: Seq<Seq<char>>, from: int, words: Set<Seq<char>>) -> bool {
    forall|m: int| from <= m < tokens.len() ==> !words.contains(lower_seq(tokens[m]))
}

/// The words and `R` of an option line do not read as positive numbers.
pub open spec fn words_are_not_numbers(tokens: Seq<Seq<char>>, kinds: Seq<NumberKind>) -> bool {
    forall|j: int|
        0 <= j < tokens.len() && (option_word(lower_seq(tokens[j])) || lower_seq(tokens[j]) == "r"@)
            ==> kinds[j] != NumberKind::Positive
}

proof fn lemma_last_word_shift(
    tokens: Seq<Seq<char>>,
    k: int,
    step: int,
    words: Set<Seq<char>>,
    j: int,
)
    requires
        1 <= step,
        last_word_at(tokens, k, j, words),
        forall|m: int| k < m < k + step && m < tokens.len() ==> !words.contains(lower_seq(tokens[m])),
    ensures
        j == k || last_word_at(tokens, k + step, j, words),
        j == k ==> no_word_from(tokens, k + step, words),
{
}

proof fn lemma_no_word_shift(tokens: Seq<Seq<char>>, k: int, step: int, words: Set<Seq<char>>)
    requires
        0 <= step,
    ensures
        no_word_from(tokens, k, words) ==> no_word_from(tokens, k + step, words),
{
}

proof fn lemma_options_fields(
    tokens: Seq<Seq<char>>,
    kinds: Seq<NumberKind>,
    line: usize,
    k: int,
    acc: Options,
    lang: Lang,
)
    requires
        0 <= k,
        words_are_not_numbers(tokens, kinds),
    ensures
        options_from(tokens, kinds, line, k, acc, lang) matches Ok(o) ==> {
            &&& forall|j: int| #[trigger] last_word_at(tokens, k, j, unit_words()) ==> {
                &&& (lower_seq(tokens[j]) == "hz"@ ==> o.unit == FrequencyUnit::Hz)
                &&& (lower_seq(tokens[j]) == "khz"@ ==> o.unit == FrequencyUnit::KHz)
                &&& (lower_seq(tokens[j]) == "mhz"@ ==> o.unit == FrequencyUnit::MHz)
                &&& (lower_seq(tokens[j]) == "ghz"@ ==> o.unit == FrequencyUnit::GHz)
            }
            &&& no_word_from(tokens, k, unit_words()) ==> o.unit == acc.unit
            &&& forall|j: int| #[trigger] last_word_at(tokens, k, j, parameter_words()) ==> {
                &&& (lower_seq(tokens[j]) == "s"@ ==> o.parameter == Parameter::S)
                &&& (lower_seq(tokens[j]) == "y"@ ==> o.parameter == Parameter::Y)
                &&& (lower_seq(tokens[j]) == "z"@ ==> o.parameter == Parameter::Z)
                &&& (lower_seq(tokens[j]) == "g"@ ==> o.parameter == Parameter::G)
                &&& (lower_seq(tokens[j]) == "h"@ ==> o.parameter == Parameter::H)
            }
            &&& no_word_from(tokens, k, parameter_words()) ==> o.parameter == acc.parameter
            &&& forall|j: int| #[trigger] last_word_at(tokens, k, j, format_words()) ==> {
                &&& (lower_seq(tokens[j]) == "ma"@ ==> o.format == Format::MagnitudeAngle)
                &&& (lower_seq(tokens[j]) == "db"@ ==> o.format == Format::DecibelAngle)
                &&& (lower_seq(tokens[j]) == "ri"@ ==> o.format == Format::RealImaginary)
            }
            &&& no_word_from(tokens, k, format_words()) ==> o.format == acc.format
            &&& forall|j: int| #[trigger] last_word_at(tokens, k, j, set!["r"@]) ==> o.reference == Some(
                TokenAt { line, token: (j + 1) as usize },
            )
            &&& no_word_from(tokens, k, set!["r"@]) ==> o.reference == acc.reference
        },
    decreases tokens.len() - k,
{
    if k < tokens.len() {
        let t = lower_seq(tokens[k]);
        reveal_strlit("hz");
        reveal_strlit("khz");
        reveal_strlit("mhz");
        reveal_strlit("ghz");
        reveal_strlit("s");
        reveal_strlit("y");
        reveal_strlit("z");
        reveal_strlit("g");
        reveal_strlit("h");
        reveal_strlit("ma");
        reveal_strlit("db");
        reveal_strlit("ri");
        reveal_strlit("r");
        if t == "hz"@ {
            assert(t.len() == 2 && t[0] == 'h' && t[1] == 'z');
        }
        if t == "khz"@ {
            assert(t.len() == 3 && t[0] == 'k' && t[1] == 'h' && t[2] == 'z');
        }
        if t == "mhz"@ {
            assert(t.len() == 3 && t[0] == 'm' && t[1] == 'h' && t[2] == 'z');
        }
        if t == "ghz"@ {
            assert(t.len() == 3 && t[0] == 'g' && t[1] == 'h' && t[2] == 'z');
        }
        if t == "s"@ {
            assert(t.len() == 1 && t[0] == 's');
        }
        if t == "y"@ {
            assert(t.len() == 1 && t[0] == 'y');
        }
        if t == "z"@ {
            assert(t.len() == 1 && t[0] == 'z');
        }
        if t == "g"@ {
            assert(t.len() == 1 && t[0] == 'g');
        }
        if t == "h"@ {
            assert(t.len() == 1 && t[0] == 'h');
        }
        if t == "ma"@ {
            assert(t.len() == 2 && t[0] == 'm' && t[1] == 'a');
        }
        if t == "db"@ {
            assert(t.len() == 2 && t[0] == 'd' && t[1] == 'b');
        }
        if t == "ri"@ {
            assert(t.len() == 2 && t[0] == 'r' && t[1] == 'i');
        }
        if t == "r"@ {
            assert(t.len() == 1 && t[0] == 'r');
        }
        assert(unit_words().contains(t) <==> (t == "hz"@ || t == "khz"@ || t == "mhz"@ || t == "ghz"@));
        assert(parameter_words().contains(t) <==> (t == "s"@ || t == "y"@ || t == "z"@ || t == "g"@ || t == "h"@));
        assert(format_words().contains(t) <==> (t == "ma"@ || t == "db"@ || t == "ri"@));
        let next = if t == "hz"@ {
            with_unit(acc, FrequencyUnit::Hz)
        } else if t == "khz"@ {
            with_unit(acc, FrequencyUnit::KHz)
        } else if t == "mhz"@ {
            with_unit(acc, FrequencyUnit::MHz)
        } else if t == "ghz"@ {
            with_unit(acc, FrequencyUnit::GHz)
        } else if t == "s"@ {
            with_parameter(acc, Parameter::S)
        } else if t == "y"@ {
            with_parameter(acc, Parameter::Y)
        } else if t == "z"@ {
            with_parameter(acc, Parameter::Z)
        } else if t == "g"@ {
            with_parameter(acc, Parameter::G)
        } else if t == "h"@ {
            with_parameter(acc, Parameter::H)
        } else if t == "ma"@ {
            with_format(acc, Format::MagnitudeAngle)
        } else if t == "db"@ {
            with_format(acc, Format::DecibelAngle)
        } else if t == "ri"@ {
            with_format(acc, Format::RealImaginary)
        } else {
            with_reference(acc, TokenAt { line, token: (k + 1) as usize })
        };
        let step: int = if option_word(t) {
            1
        } else {
            2
        };
        if option_word(t) || (t == "r"@ && k + 1 < tokens.len() && kinds[k + 1] == NumberKind::Positive) {
            if !option_word(t) {
                let u = lower_seq(tokens[k + 1]);
                assert(!option_word(u) && u != "r"@);
                assert(!unit_words().contains(u) && !parameter_words().contains(u)
                    && !format_words().contains(u) && !set!["r"@].contains(u));
            }
            assert(options_from(tokens, kinds, line, k, acc, lang) == options_from(
                tokens,
                kinds,
                line,
                k + step,
                next,
                lang,
            ));
            lemma_options_fields(tokens, kinds, line, k + step, next, lang);
            if let Ok(o) = options_from(tokens, kinds, line, k, acc, lang) {
                assert forall|j: int| #[trigger] last_word_at(tokens, k, j, unit_words()) implies {
                    &&& (lower_seq(tokens[j]) == "hz"@ ==> o.unit == FrequencyUnit::Hz)
                    &&& (lower_seq(tokens[j]) == "khz"@ ==> o.unit == FrequencyUnit::KHz)
                    &&& (lower_seq(tokens[j]) == "mhz"@ ==> o.unit == FrequencyUnit::MHz)
                    &&& (lower_seq(tokens[j]) == "ghz"@ ==> o.unit == FrequencyUnit::GHz)
                } by {
                    lemma_last_word_shift(tokens, k, step, unit_words(), j);
                }
                lemma_no_word_shift(tokens, k, step, unit_words());
                assert forall|j: int| #[trigger] last_word_at(tokens, k, j, parameter_words()) implies {
                    &&& (lower_seq(tokens[j]) == "s"@ ==> o.parameter == Parameter::S)
                    &&& (lower_seq(tokens[j]) == "y"@ ==> o.parameter == Parameter::Y)
                    &&& (lower_seq(tokens[j]) == "z"@ ==> o.parameter == Parameter::Z)
                    &&& (lower_seq(tokens[j]) == "g"@ ==> o.parameter == Parameter::G)
                    &&& (lower_seq(tokens[j]) == "h"@ ==> o.parameter == Parameter::H)
                } by {
                    lemma_last_word_shift(tokens, k, step, parameter_words(), j);
                }
                lemma_no_word_shift(tokens, k, step, parameter_words());
                assert forall|j: int| #[trigger] last_word_at(tokens, k, j, format_words()) implies {
                    &&& (lower_seq(tokens[j]) == "ma"@ ==> o.format == Format::MagnitudeAngle)
                    &&& (lower_seq(tokens[j]) == "db"@ ==> o.format == Format::DecibelAngle)
                    &&& (lower_seq(tokens[j]) == "ri"@ ==> o.format == Format::RealImaginary)
                } by {
                    lemma_last_word_shift(tokens, k, step, format_words(), j);
                }
                lemma_no_word_shift(tokens, k, step, format_words());
                assert forall|j: int| #[trigger] last_word_at(tokens, k, j, set!["r"@]) implies o.reference == Some(
                    TokenAt { line, token: (j + 1) as usize },
                ) by {
                    lemma_last_word_shift(tokens, k, step, set!["r"@], j);
                }
                lemma_no_word_shift(tokens, k, step, set!["r"@]);
            }
        }
    }
}

/// The option line sets each field from its last word: the unit from the
/// last of `Hz`, `kHz`, `MHz`, `GHz`; the parameter from the last of `S`,
/// `Y`, `Z`, `G`, `H`; the format from the last of `MA` (magnitude and
/// angle), `DB` (decibels and angle), `RI` (real and imaginary); the
/// reference impedance from the number after the last `R`. Words compare
/// without regard to case, and a field no word names keeps its default,
/// `# GHz S MA R 50`.
pub proof fn option_words_set_their_fields(
    tokens: Seq<Seq<char>>,
    kinds: Seq<NumberKind>,
    line: usize,
    lang: Lang,
)
    requires
        words_are_not_numbers(tokens, kinds),
    ensures
        options_from(tokens, kinds, line, 0, default_options(), lang) matches Ok(o) ==> {
            &&& forall|j: int| #[trigger] last_word_at(tokens, 0, j, unit_words()) ==> {
                &&& (lower_seq(tokens[j]) == "hz"@ ==> o.unit == FrequencyUnit::Hz)
                &&& (lower_seq(tokens[j]) == "khz"@ ==> o.unit == FrequencyUnit::KHz)
                &&& (lower_seq(tokens[j]) == "mhz"@ ==> o.unit == FrequencyUnit::MHz)
                &&& (lower_seq(tokens[j]) == "ghz"@ ==> o.unit == FrequencyUnit::GHz)
            }
            &&& no_word_from(tokens, 0, unit_words()) ==> o.unit == FrequencyUnit::GHz
            &&& forall|j: int| #[trigger] last_word_at(tokens, 0, j, parameter_words()) ==> {
                &&& (lower_seq(tokens[j]) == "s"@ ==> o.parameter == Parameter::S)
                &&& (lower_seq(tokens[j]) == "y"@ ==> o.parameter == Parameter::Y)
                &&& (lower_seq(tokens[j]) == "z"@ ==> o.parameter == Parameter::Z)
                &&& (lower_seq(tokens[j]) == "g"@ ==> o.parameter == Parameter::G)
                &&& (lower_seq(tokens[j]) == "h"@ ==> o.parameter == Parameter::H)
            }
            &&& no_word_from(tokens, 0, parameter_words()) ==> o.parameter == Parameter::S
            &&& forall|j: int| #[trigger] last_word_at(tokens, 0, j, format_words()) ==> {
                &&& (lower_seq(tokens[j]) == "ma"@ ==> o.format == Format::MagnitudeAngle)
                &&& (lower_seq(tokens[j]) == "db"@ ==> o.format == Format::DecibelAngle)
                &&& (lower_seq(tokens[j]) == "ri"@ ==> o.format == Format::RealImaginary)
            }
            &&& no_word_from(tokens, 0, format_words()) ==> o.format == Format::MagnitudeAngle
            &&& forall|j: int| #[trigger] last_word_at(tokens, 0, j, set!["r"@]) ==> o.reference == Some(
                TokenAt { line, token: (j + 1) as usize },
            )
            &&& no_word_from(tokens, 0, set!["r"@]) ==> o.reference is None
        },
{
    lemma_options_fields(tokens, kinds, line, 0, default_options(), lang);
}

/// Parses the tokens after `#` on scan line `line`; `kinds[k]` says what
/// token `k` is as a number.
pub fn parse_options(tokens: &Vec<String>, kinds: &Vec<NumberKind>, line: usize, lang: Lang) -> (r:
    Result<Options, ParseError>)
    requires
        kinds.len() == tokens.len(),
        line < usize::MAX,
    ensures
        same_outcome(
            r,
            options_from(
                tokens@.map_values(|t: String| t@),
                kinds@,
                line,
                0,
                default_options(),
                lang,
            ),
        ),
{
    let ghost ts = tokens@.map_values(|t: String| t@);
    let mut options = Options::default();
    let mut k: usize = 0;
    while k < tokens.len()
        invariant
            ts == tokens@.map_values(|t: String| t@),
            kinds.len() == tokens.len(),
            line < usize::MAX,
            k <= tokens.len(),
            options_from(ts, kinds@, line, 0, default_options(), lang) == options_from(
                ts,
                kinds@,
                line,
                k as int,
                options,
                lang,
            ),
        decreases tokens.len() - k,
    {
        let token = chars_of(tokens[k].as_str());
        assert(ts[k as int] == token@);
        let t = lowercase(&token);
        if eq_str(&t, "hz") {
            options.unit = FrequencyUnit::Hz;
        } else if eq_str(&t, "khz") {
            options.unit = FrequencyUnit::KHz;
        } else if eq_str(&t, "mhz") {
            options.unit = FrequencyUnit::MHz;
        } else if eq_str(&t, "ghz") {
            options.unit = FrequencyUnit::GHz;
        } else if eq_str(&t, "s") {
            options.parameter = Parameter::S;
        } else if eq_str(&t, "y") {
            options.parameter = Parameter::Y;
        } else if eq_str(&t, "z") {
            options.parameter = Parameter::Z;
        } else if eq_str(&t, "g") {
            options.parameter = Parameter::G;
        } else if eq_str(&t, "h") {
            options.parameter = Parameter::H;
        } else if eq_str(&t, "ma") {
            options.format = Format::MagnitudeAngle;
        } else if eq_str(&t, "db") {
            options.format = Format::DecibelAngle;
        } else if eq_str(&t, "ri") {
            options.format = Format::RealImaginary;
        } else if eq_str(&t, "r") {
            if k + 1 < tokens.len() && kinds[k + 1] == NumberKind::Positive {
                options.reference = Some(TokenAt { line, token: k + 1 });
                k += 1;
            } else {
                return Err(reference_error_exec(line + 1, lang));
            }
        } else {
            return Err(option_error_exec(line + 1, &token, lang));
        }
        k += 1;
    }
    Ok(options)
}

// ---------------------------------------------------------------------------
// Data rows
// ---------------------------------------------------------------------------

/// Port count from the width of the first data line when no extension gave
/// it: one-port rows hold three values, two-port rows nine, and a wrapped
/// first two-port line at least five.
pub open spec fn ports_from_width(values: nat, line: nat, lang: Lang) -> Result<u8, ErrorText> {
    if values == 3 {
        Ok(1u8)
    } else if values == 9 || values == 5 || values == 7 {
        Ok(2u8)
    } else {
        Err(width_error(line, values, lang))
    }
}

pub fn infer_ports_from_line(values: usize, line_number: usize, lang: Lang) -> (r: Result<
    u8,
    ParseError,
>)
    ensures
        same_outcome(r, ports_from_width(values as nat, line_number as nat, lang)),
{
    match values {
        3 => Ok(1),
        9 | 5 | 7 => Ok(2),
        _ => Err(width_error_exec(line_number, values, lang)),
    }
}

/// Non-fatal observations made while reading a Touchstone file.
#[derive(Clone, Copy, Debug, PartialEq, Eq, Structural)]
pub enum LoadNote {
    /// A second option line, at this line number, was ignored.
    TouchstoneSecondOptionLine(usize),
    /// An option line after the first data row, at this line number, was
    /// ignored.
    TouchstoneOptionAfterData(usize),
    /// The trailing two-port noise-parameter block was skipped.
    TouchstoneNoiseBlockSkipped,
    /// The frequency decreases at this line number.
    TouchstoneFrequencyNotMonotonic(usize),
    /// No option line; `# GHz S MA R 50` applied.
    TouchstoneDefaultOptions,
}

pub open spec fn note_text(note: LoadNote, lang: Lang) -> Seq<char> {
    match note {
        LoadNote::TouchstoneSecondOptionLine(n) => pick_seq(
            lang,
            "第 "@ + decimal_text(n as nat) + " 行是第二个选项行，已忽略。"@,
            "Line "@ + decimal_text(n as nat) + " is a second option line and was ignored."@,
        ),
        LoadNote::TouchstoneOptionAfterData(n) => pick_seq(
            lang,
            "第 "@ + decimal_text(n as nat) + " 行的选项行出现在数据之后，已忽略。"@,
            "The option line at line "@ + decimal_text(n as nat)
                + " comes after the data and was ignored."@,
        ),
        LoadNote::TouchstoneNoiseBlockSkipped => pick_seq(
            lang,
            "已跳过两端口文件末尾的噪声参数块。"@,
            "The noise-parameter block at the end of the two-port file was skipped."@,
        ),
        LoadNote::TouchstoneFrequencyNotMonotonic(n) => pick_seq(
            lang,
            "第 "@ + decimal_text(n as nat) + " 行的频率比前一个频点低。"@,
            "The frequency at line "@ + decimal_text(n as nat)
                + " is lower than the one before it."@,
        ),
        LoadNote::TouchstoneDefaultOptions => pick_seq(
            lang,
            "文件没有选项行，按 # GHz S MA R 50 读取。"@,
            "The file has no option line; it was read as # GHz S MA R 50."@,
        ),
    }
}

impl LoadNote {
    /// The note as shown to the user.
    pub fn text(self, lang: Lang) -> (text: String)
        ensures
            text@ == note_text(self, lang),
    {
        let m = match self {
            LoadNote::TouchstoneSecondOptionLine(n) => line_message(
                lang,
                n,
                "第 ",
                " 行是第二个选项行，已忽略。",
                "Line ",
                " is a second option line and was ignored.",
            ),
            LoadNote::TouchstoneOptionAfterData(n) => line_message(
                lang,
                n,
                "第 ",
                " 行的选项行出现在数据之后，已忽略。",
                "The option line at line ",
                " comes after the data and was ignored.",
            ),
            LoadNote::TouchstoneNoiseBlockSkipped => pick_chars(
                lang,
                "已跳过两端口文件末尾的噪声参数块。",
                "The noise-parameter block at the end of the two-port file was skipped.",
            ),
            LoadNote::TouchstoneFrequencyNotMonotonic(n) => line_message(
                lang,
                n,
                "第 ",
                " 行的频率比前一个频点低。",
                "The frequency at line ",
                " is lower than the one before it.",
            ),
            LoadNote::TouchstoneDefaultOptions => pick_chars(
                lang,
                "文件没有选项行，按 # GHz S MA R 50 读取。",
                "The file has no option line; it was read as # GHz S MA R 50.",
            ),
        };
        string_of(&m)
    }
}

/// Values per frequency point: the frequency and a complex pair for each of
/// the `ports * ports` parameters.
pub open spec fn stride_of(ports: u8) -> nat {
    1 + 2 * (ports as nat) * (ports as nat)
}

/// Index of the first token that is not a number, or -1.
pub open spec fn bad_index(kinds: Seq<NumberKind>) -> int
    decreases kinds.len(),
{
    if kinds.len() == 0 {
        -1
    } else if kinds[0] == NumberKind::NotNumber {
        0
    } else {
        let r = bad_index(kinds.drop_first());
        if r < 0 {
            -1
        } else {
            r + 1
        }
    }
}

proof fn lemma_bad_index(kinds: Seq<NumberKind>, k: int)
    requires
        0 <= k <= kinds.len(),
        forall|j: int| 0 <= j < k ==> kinds[j] != NumberKind::NotNumber,
        k < kinds.len() ==> kinds[k] == NumberKind::NotNumber,
    ensures
        bad_index(kinds) == (if k < kinds.len() {
            k
        } else {
            -1
        }),
    decreases kinds.len(),
{
    if kinds.len() > 0 && k > 0 {
        lemma_bad_index(kinds.drop_first(), k - 1);
    }
}

/// The values of data line `line`, as positions of its tokens.
pub open spec fn values_of(line: int, count: nat) -> Seq<TokenAt> {
    Seq::new(count, |j: int| TokenAt { line: line as usize, token: j as usize })
}

/// State of the reader between lines.
pub struct Walk {
    pub options: Option<Options>,
    pub notes: Seq<LoadNote>,
    /// Values of the frequency point being assembled.
    pub pending: Seq<TokenAt>,
    pub rows: Seq<Seq<TokenAt>>,
    pub ports: Option<u8>,
    /// Frequency rank of the last point that started a row.
    pub previous: Option<usize>,
    pub first_data_line: Option<usize>,
    pub noise_skipped: bool,
}

pub open spec fn start_walk(port_hint: Option<u8>) -> Walk {
    Walk {
        options: None,
        notes: Seq::empty(),
        pending: Seq::empty(),
        rows: Seq::empty(),
        ports: port_hint,
        previous: None,
        first_data_line: None,
        noise_skipped: false,
    }
}

pub open spec fn with_notes(w: Walk, notes: Seq<LoadNote>) -> Walk {
    Walk {
        options: w.options,
        notes,
        pending: w.pending,
        rows: w.rows,
        ports: w.ports,
        previous: w.previous,
        first_data_line: w.first_data_line,
        noise_skipped: w.noise_skipped,
    }
}

/// Values of a line of the two-port noise-parameter block: frequency,
/// minimum noise figure, the optimum reflection as magnitude and angle, and
/// the effective noise resistance.
pub open spec fn noise_width() -> nat {
    5
}

/// Reads one data line whose tokens are all numbers. A two-port line of
/// noise-parameter width whose frequency falls below the last point starts
/// the noise block, which is skipped; any other line joins the point being
/// assembled, and a point that outgrows the values of its port count is an
/// error.
pub open spec fn data_step(
    w: Walk,
    i: int,
    count: nat,
    rank: usize,
    lang: Lang,
) -> Result<Walk, ErrorText> {
    let n = (i + 1) as nat;
    let first = if w.first_data_line is Some {
        w.first_data_line
    } else {
        Some(n as usize)
    };
    let ports = if w.ports is Some {
        Ok(w.ports->0)
    } else {
        ports_from_width(count, n, lang)
    };
    match ports {
        Err(e) => Err(e),
        Ok(p) => {
            let stride = stride_of(p);
            let decreased = w.pending.len() == 0 && w.previous is Some && rank < w.previous->0;
            if decreased && p == 2 && count == noise_width() {
                Ok(
                    Walk {
                        options: w.options,
                        notes: w.notes.push(LoadNote::TouchstoneNoiseBlockSkipped),
                        pending: w.pending,
                        rows: w.rows,
                        ports: Some(p),
                        previous: w.previous,
                        first_data_line: first,
                        noise_skipped: true,
                    },
                )
            } else {
                let notes = if decreased {
                    w.notes.push(LoadNote::TouchstoneFrequencyNotMonotonic(n as usize))
                } else {
                    w.notes
                };
                let previous = if w.pending.len() == 0 {
                    Some(rank)
                } else {
                    w.previous
                };
                let pending = w.pending + values_of(i, count);
                if pending.len() == stride {
                    Ok(
                        Walk {
                            options: w.options,
                            notes,
                            pending: Seq::empty(),
                            rows: w.rows.push(pending),
                            ports: Some(p),
                            previous,
                            first_data_line: first,
                            noise_skipped: false,
                        },
                    )
                } else if pending.len() > stride {
                    Err(overflow_error(n, stride, p as nat, lang))
                } else {
                    Ok(
                        Walk {
                            options: w.options,
                            notes,
                            pending,
                            rows: w.rows,
                            ports: Some(p),
                            previous,
                            first_data_line: first,
                            noise_skipped: false,
                        },
                    )
                }
            }
        },
    }
}

/// Reads scan line `i`. `kinds` says what each token is as a number, and
/// `rank` orders the first value of a data line as a frequency.
pub open spec fn step(
    w: Walk,
    i: int,
    line: ScanText,
    kinds: Seq<NumberKind>,
    rank: usize,
    lang: Lang,
) -> Result<Walk, ErrorText> {
    let n = (i + 1) as nat;
    match line.kind {
        LineKind::Blank => Ok(w),
        LineKind::Keyword => Err(keyword_error(line.content, lang)),
        LineKind::Options => match options_from(
            line.tokens,
            kinds,
            i as usize,
            0,
            default_options(),
            lang,
        ) {
            Err(e) => Err(e),
            Ok(parsed) => if w.options is Some {
                Ok(with_notes(w, w.notes.push(LoadNote::TouchstoneSecondOptionLine(n as usize))))
            } else if w.first_data_line is Some {
                Ok(with_notes(w, w.notes.push(LoadNote::TouchstoneOptionAfterData(n as usize))))
            } else {
                Ok(
                    Walk {
                        options: Some(parsed),
                        notes: w.notes,
                        pending: w.pending,
                        rows: w.rows,
                        ports: w.ports,
                        previous: w.previous,
                        first_data_line: w.first_data_line,
                        noise_skipped: w.noise_skipped,
                    },
                )
            },
        },
        LineKind::Data => if w.noise_skipped {
            Ok(w)
        } else if bad_index(kinds) >= 0 {
            Err(number_error(n, line.tokens[bad_index(kinds)], lang))
        } else {
            data_step(w, i, line.tokens.len(), rank, lang)
        },
    }
}

/// The state after the first `count` scan lines.
pub open spec fn walk(
    scan: Seq<ScanText>,
    kinds: Seq<Seq<NumberKind>>,
    ranks: Seq<usize>,
    port_hint: Option<u8>,
    lang: Lang,
    count: nat,
) -> Result<Walk, ErrorText>
    decreases count,
{
    if count == 0 {
        Ok(start_walk(port_hint))
    } else {
        match walk(scan, kinds, ranks, port_hint, lang, (count - 1) as nat) {
            Err(e) => Err(e),
            Ok(w) => step(
                w,
                count - 1,
                scan[count - 1],
                kinds[count - 1],
                ranks[count - 1],
                lang,
            ),
        }
    }
}

/// Exec form of the reader state.
pub struct WalkState {
    pub options: Option<Options>,
    pub notes: Vec<LoadNote>,
    pub pending: Vec<TokenAt>,
    pub rows: Vec<Vec<TokenAt>>,
    pub ports: Option<u8>,
    pub previous: Option<usize>,
    pub first_data_line: Option<usize>,
    pub noise_skipped: bool,
}

impl View for WalkState {
    type V = Walk;

    open spec fn view(&self) -> Walk {
        Walk {
            options: self.options,
            notes: self.notes@,
            pending: self.pending@,
            rows: self.rows@.map_values(|r: Vec<TokenAt>| r@),
            ports: self.ports,
            previous: self.previous,
            first_data_line: self.first_data_line,
            noise_skipped: self.noise_skipped,
        }
    }
}

/// Port counts the reader works with.
pub open spec fn valid_ports(p: Option<u8>) -> bool {
    p matches Some(v) ==> (v == 1 || v == 2)
}

/// Invariant of the reader state: a known port count is one or two, and a
/// point being assembled is shorter than a full row.
pub open spec fn walk_ok(w: Walk) -> bool {
    &&& valid_ports(w.ports)
    &&& w.pending.len() > 0 ==> w.ports is Some && w.pending.len() < stride_of(w.ports->0)
}

fn values_vec(i: usize, count: usize) -> (v: Vec<TokenAt>)
    ensures
        v@ == values_of(i as int, count as nat),
{
    let mut v: Vec<TokenAt> = Vec::new();
    let mut j: usize = 0;
    while j < count
        invariant
            j <= count,
            v@ == values_of(i as int, j as nat),
        decreases count - j,
    {
        v.push(TokenAt { line: i, token: j });
        j += 1;
        assert(v@ =~= values_of(i as int, j as nat));
    }
    v
}

fn data_step_exec(
    w: &mut WalkState,
    i: usize,
    count: usize,
    rank: usize,
    lang: Lang,
) -> (r: Result<(), ParseError>)
    requires
        walk_ok(old(w)@),
        i < usize::MAX,
        !old(w).noise_skipped,
    ensures
        match r {
            Ok(()) => data_step(old(w)@, i as int, count as nat, rank, lang) == Ok::<
                Walk,
                ErrorText,
            >(final(w)@) && walk_ok(final(w)@),
            Err(e) => data_step(old(w)@, i as int, count as nat, rank, lang) == Err::<
                Walk,
                ErrorText,
            >(e@),
        },
{
    let n = i + 1;
    let first = if w.first_data_line.is_some() {
        w.first_data_line
    } else {
        Some(n)
    };
    let p = match w.ports {
        Some(p) => p,
        None => match infer_ports_from_line(count, n, lang) {
            Ok(p) => p,
            Err(e) => return Err(e),
        },
    };
    assert(p == 1 || p == 2);
    let stride: usize = if p == 1 {
        3
    } else {
        9
    };
    assert(stride == stride_of(p)) by (nonlinear_arith)
        requires
            p == 1 || p == 2,
            stride == (if p == 1 {
                3int
            } else {
                9int
            }),
    ;
    let decreased = w.pending.len() == 0 && match w.previous {
        Some(prev) => rank < prev,
        None => false,
    };
    let ghost old_w = w@;
    if decreased && p == 2 && count == 5 {
        w.notes.push(LoadNote::TouchstoneNoiseBlockSkipped);
        w.ports = Some(p);
        w.first_data_line = first;
        w.noise_skipped = true;
        return Ok(());
    }
    if decreased {
        w.notes.push(LoadNote::TouchstoneFrequencyNotMonotonic(n));
    }
    if w.pending.len() == 0 {
        w.previous = Some(rank);
    }
    assert(w.pending.len() < stride);
    if count > stride - w.pending.len() {
        return Err(overflow_error_exec(n, stride, p, lang));
    }
    let mut extra = values_vec(i, count);
    let ghost before = w.pending@;
    w.pending.append(&mut extra);
    assert(w.pending@ =~= before + values_of(i as int, count as nat));
    w.ports = Some(p);
    w.first_data_line = first;
    if w.pending.len() == stride {
        let mut full: Vec<TokenAt> = Vec::new();
        std::mem::swap(&mut full, &mut w.pending);
        let ghost rows_before = w.rows@;
        w.rows.push(full);
        assert(w.rows@.map_values(|r: Vec<TokenAt>| r@) =~= rows_before.map_values(
            |r: Vec<TokenAt>| r@,
        ).push(full@));
        assert(w.pending@ =~= Seq::<TokenAt>::empty());
    }
    proof {
        let notes = if decreased {
            old_w.notes.push(LoadNote::TouchstoneFrequencyNotMonotonic(n))
        } else {
            old_w.notes
        };
        assert(w@.notes == notes);
        assert(w@.options == old_w.options);
        assert(w@.noise_skipped == false);
    }
    Ok(())
}


/// Index of the first token that is not a number, if any.
fn first_bad(kinds: &Vec<NumberKind>) -> (r: Option<usize>)
    ensures
        match r {
            Some(k) => bad_index(kinds@) == k as int && k < kinds.len(),
            None => bad_index(kinds@) == -1,
        },
{
    let mut k: usize = 0;
    while k < kinds.len()
        invariant
            k <= kinds.len(),
            forall|j: int| 0 <= j < k ==> kinds@[j] != NumberKind::NotNumber,
        decreases kinds.len() - k,
    {
        if kinds[k] == NumberKind::NotNumber {
            proof {
                lemma_bad_index(kinds@, k as int);
            }
            return Some(k);
        }
        k += 1;
    }
    proof {
        lemma_bad_index(kinds@, k as int);
    }
    None
}

fn step_exec(
    w: &mut WalkState,
    i: usize,
    line: &ScanLine,
    kinds: &Vec<NumberKind>,
    rank: usize,
    lang: Lang,
) -> (r: Result<(), ParseError>)
    requires
        walk_ok(old(w)@),
        i < usize::MAX,
        kinds.len() == line.tokens.len(),
    ensures
        match r {
            Ok(()) => step(old(w)@, i as int, line@, kinds@, rank, lang) == Ok::<
                Walk,
                ErrorText,
            >(final(w)@) && walk_ok(final(w)@),
            Err(e) => step(old(w)@, i as int, line@, kinds@, rank, lang) == Err::<
                Walk,
                ErrorText,
            >(e@),
        },
{
    let n = i + 1;
    match line.kind {
        LineKind::Blank => Ok(()),
        LineKind::Keyword => {
            let content = chars_of(line.content.as_str());
            Err(unsupported_keyword(&content, lang))
        },
        LineKind::Options => {
            let parsed = match parse_options(&line.tokens, kinds, i, lang) {
                Ok(o) => o,
                Err(e) => return Err(e),
            };
            if w.options.is_some() {
                w.notes.push(LoadNote::TouchstoneSecondOptionLine(n));
            } else if w.first_data_line.is_some() {
                w.notes.push(LoadNote::TouchstoneOptionAfterData(n));
            } else {
                w.options = Some(parsed);
            }
            Ok(())
        },
        LineKind::Data => {
            if w.noise_skipped {
                return Ok(());
            }
            match first_bad(kinds) {
                Some(k) => {
                    let token = chars_of(line.tokens[k].as_str());
                    assert(line@.tokens[k as int] == token@);
                    Err(number_error_exec(n, &token, lang))
                },
                None => data_step_exec(w, i, line.tokens.len(), rank, lang),
            }
        },
    }
}


// ---------------------------------------------------------------------------
// Whole file
// ---------------------------------------------------------------------------

/// What a Touchstone file holds once read: its port count, its options, the
/// frequency points as positions of their values in the scan, and the notes
/// made on the way.
#[derive(Debug)]
pub struct TouchstoneShape {
    pub ports: u8,
    pub options: Options,
    pub rows: Vec<Vec<TokenAt>>,
    pub notes: Vec<LoadNote>,
}

pub struct ShapeView {
    pub ports: u8,
    pub options: Options,
    pub rows: Seq<Seq<TokenAt>>,
    pub notes: Seq<LoadNote>,
}

impl View for TouchstoneShape {
    type V = ShapeView;

    open spec fn view(&self) -> ShapeView {
        ShapeView {
            ports: self.ports,
            options: self.options,
            rows: self.rows@.map_values(|r: Vec<TokenAt>| r@),
            notes: self.notes@,
        }
    }
}

/// The checks made once every line is read.
pub open spec fn finish(w: Walk, lang: Lang) -> Result<ShapeView, ErrorText> {
    let ports: u8 = if w.ports is Some {
        w.ports->0
    } else {
        1u8
    };
    if w.pending.len() > 0 {
        Err(incomplete_error((stride_of(ports) - w.pending.len()) as nat, lang))
    } else if w.rows.len() == 0 {
        Err(no_rows_error(lang))
    } else {
        let options = if w.options is Some {
            w.options->0
        } else {
            default_options()
        };
        let notes = if w.options is Some {
            w.notes
        } else {
            w.notes.push(LoadNote::TouchstoneDefaultOptions)
        };
        match options.parameter {
            Parameter::G | Parameter::H => Err(parameter_error(options.parameter, lang)),
            Parameter::Z | Parameter::Y => if ports == 2 {
                Err(matrix_error(options.parameter, lang))
            } else {
                Ok(ShapeView { ports, options, rows: w.rows, notes })
            },
            Parameter::S => Ok(ShapeView { ports, options, rows: w.rows, notes }),
        }
    }
}

/// The whole reader: the port count given by the extension is checked
/// first, then every scan line is read in turn, then the result is checked.
pub open spec fn structure_spec(
    scan: Seq<ScanText>,
    kinds: Seq<Seq<NumberKind>>,
    ranks: Seq<usize>,
    port_hint: Option<u8>,
    lang: Lang,
) -> Result<ShapeView, ErrorText> {
    if port_hint matches Some(p) && p != 1 && p != 2 {
        Err(ports_error(port_hint->0, lang))
    } else {
        match walk(scan, kinds, ranks, port_hint, lang, scan.len()) {
            Err(e) => Err(e),
            Ok(w) => finish(w, lang),
        }
    }
}

proof fn lemma_walk_stays_failed(
    scan: Seq<ScanText>,
    kinds: Seq<Seq<NumberKind>>,
    ranks: Seq<usize>,
    port_hint: Option<u8>,
    lang: Lang,
    k: nat,
    count: nat,
    e: ErrorText,
)
    requires
        k <= count,
        walk(scan, kinds, ranks, port_hint, lang, k) == Err::<Walk, ErrorText>(e),
    ensures
        walk(scan, kinds, ranks, port_hint, lang, count) == Err::<Walk, ErrorText>(e),
    decreases count - k,
{
    if k < count {
        lemma_walk_stays_failed(scan, kinds, ranks, port_hint, lang, k, (count - 1) as nat, e);
    }
}

/// Reads the structure of a scanned Touchstone file. `kinds[i][k]` says
/// what token `k` of scan line `i` is as a number, and `ranks[i]` orders the
/// first value of data line `i`, scaled to hertz, among the frequencies of
/// the file (equal frequencies, equal ranks). `port_hint` comes from the
/// file extension.
pub fn touchstone_structure(
    scan: &Vec<ScanLine>,
    kinds: &Vec<Vec<NumberKind>>,
    ranks: &Vec<usize>,
    port_hint: Option<u8>,
    lang: Lang,
) -> (r: Result<TouchstoneShape, ParseError>)
    requires
        kinds.len() == scan.len(),
        ranks.len() == scan.len(),
        scan.len() < usize::MAX,
        forall|i: int| 0 <= i < scan.len() ==> #[trigger] kinds@[i].len() == scan@[i].tokens.len(),
    ensures
        match r {
            Ok(shape) => structure_spec(
                scan@.map_values(|l: ScanLine| l@),
                kinds@.map_values(|k: Vec<NumberKind>| k@),
                ranks@,
                port_hint,
                lang,
            ) == Ok::<ShapeView, ErrorText>(shape@),
            Err(e) => structure_spec(
                scan@.map_values(|l: ScanLine| l@),
                kinds@.map_values(|k: Vec<NumberKind>| k@),
                ranks@,
                port_hint,
                lang,
            ) == Err::<ShapeView, ErrorText>(e@),
        },
{
    let ghost sv = scan@.map_values(|l: ScanLine| l@);
    let ghost kv = kinds@.map_values(|k: Vec<NumberKind>| k@);
    if let Some(p) = port_hint {
        if p != 1 && p != 2 {
            return Err(ports_error_exec(p, lang));
        }
    }
    let mut w = WalkState {
        options: None,
        notes: Vec::new(),
        pending: Vec::new(),
        rows: Vec::new(),
        ports: port_hint,
        previous: None,
        first_data_line: None,
        noise_skipped: false,
    };
    assert(w@.rows =~= Seq::<Seq<TokenAt>>::empty());
    assert(w@ == start_walk(port_hint));
    let mut i: usize = 0;
    while i < scan.len()
        invariant
            sv == scan@.map_values(|l: ScanLine| l@),
            kv == kinds@.map_values(|k: Vec<NumberKind>| k@),
            kinds.len() == scan.len(),
            ranks.len() == scan.len(),
            scan.len() < usize::MAX,
            forall|j: int| 0 <= j < scan.len() ==> #[trigger] kinds@[j].len() == scan@[j].tokens.len(),
            i <= scan.len(),
            valid_ports(port_hint),
            walk_ok(w@),
            walk(sv, kv, ranks@, port_hint, lang, i as nat) == Ok::<Walk, ErrorText>(w@),
        decreases scan.len() - i,
    {
        assert(sv[i as int] == scan@[i as int]@);
        assert(kv[i as int] == kinds@[i as int]@);
        assert(kinds@[i as int].len() == scan@[i as int].tokens.len());
        match step_exec(&mut w, i, &scan[i], &kinds[i], ranks[i], lang) {
            Ok(()) => {},
            Err(e) => {
                proof {
                    assert(walk(sv, kv, ranks@, port_hint, lang, (i + 1) as nat) == Err::<Walk, ErrorText>(e@));
                    lemma_walk_stays_failed(
                        sv,
                        kv,
                        ranks@,
                        port_hint,
                        lang,
                        (i + 1) as nat,
                        sv.len(),
                        e@,
                    );
                }
                return Err(e);
            },
        }
        i += 1;
    }
    let ports: u8 = match w.ports {
        Some(p) => p,
        None => 1,
    };
    if w.pending.len() > 0 {
        let stride: usize = if ports == 1 {
            3
        } else {
            9
        };
        assert(stride == stride_of(ports));
        return Err(incomplete_error_exec(stride - w.pending.len(), lang));
    }
    if w.rows.len() == 0 {
        return Err(no_rows_error_exec(lang));
    }
    let options = match w.options {
        Some(o) => o,
        None => {
            w.notes.push(LoadNote::TouchstoneDefaultOptions);
            Options::default()
        },
    };
    match options.parameter {
        Parameter::G | Parameter::H => {
            return Err(parameter_error_exec(options.parameter, lang));
        },
        Parameter::Z | Parameter::Y => {
            if ports == 2 {
                return Err(matrix_error_exec(options.parameter, lang));
            }
        },
        Parameter::S => {},
    }
    Ok(TouchstoneShape { ports, options, rows: w.rows, notes: w.notes })
}


// ---------------------------------------------------------------------------
// Frequency unit
// ---------------------------------------------------------------------------

/// A scan line that fixes the options: an option line or a data line.
pub open spec fn opens(line: ScanText) -> bool {
    line.kind == LineKind::Options || line.kind == LineKind::Data
}

/// Some scan line before `count` fixes the options.
pub open spec fn has_opened(scan: Seq<ScanText>, count: nat) -> bool {
    exists|j: int| 0 <= j < count && j < scan.len() && #[trigger] opens(scan[j])
}

/// The options in force after the first `count` scan lines: those of the
/// first option line, provided no data line comes before it and it reads.
pub open spec fn leading_options(
    scan: Seq<ScanText>,
    kinds: Seq<Seq<NumberKind>>,
    lang: Lang,
    count: nat,
) -> Option<Options>
    decreases count,
{
    if count == 0 {
        None
    } else {
        let before = leading_options(scan, kinds, lang, (count - 1) as nat);
        let k = count - 1;
        if before is Some {
            before
        } else if has_opened(scan, k as nat) {
            None
        } else if scan[k].kind == LineKind::Options {
            match options_from(scan[k].tokens, kinds[k], k as usize, 0, default_options(), lang) {
                Ok(o) => Some(o),
                Err(_) => None,
            }
        } else {
            None
        }
    }
}

/// Unit that scales the first value of every data line to hertz.
pub open spec fn unit_in_force(
    scan: Seq<ScanText>,
    kinds: Seq<Seq<NumberKind>>,
    lang: Lang,
) -> FrequencyUnit {
    match leading_options(scan, kinds, lang, scan.len()) {
        Some(o) => o.unit,
        None => FrequencyUnit::GHz,
    }
}

proof fn lemma_leading_settled(
    scan: Seq<ScanText>,
    kinds: Seq<Seq<NumberKind>>,
    lang: Lang,
    k: nat,
    count: nat,
)
    requires
        k <= count,
        leading_options(scan, kinds, lang, k) is Some || has_opened(scan, k),
    ensures
        leading_options(scan, kinds, lang, count) == leading_options(scan, kinds, lang, k),
        has_opened(scan, k) ==> has_opened(scan, count),
    decreases count - k,
{
    if k < count {
        lemma_leading_settled(scan, kinds, lang, k, (count - 1) as nat);
        if has_opened(scan, k) {
            let j = choose|j: int| 0 <= j < k && j < scan.len() && #[trigger] opens(scan[j]);
            assert(0 <= j < count - 1 && j < scan.len() && opens(scan[j]));
        }
    }
}

/// The unit in force for the data lines of a scanned file, which the caller
/// uses to put their frequencies in order.
pub fn touchstone_frequency_unit(
    scan: &Vec<ScanLine>,
    kinds: &Vec<Vec<NumberKind>>,
    lang: Lang,
) -> (unit: FrequencyUnit)
    requires
        kinds.len() == scan.len(),
        scan.len() < usize::MAX,
        forall|i: int| 0 <= i < scan.len() ==> #[trigger] kinds@[i].len() == scan@[i].tokens.len(),
    ensures
        unit == unit_in_force(
            scan@.map_values(|l: ScanLine| l@),
            kinds@.map_values(|k: Vec<NumberKind>| k@),
            lang,
        ),
{
    let ghost sv = scan@.map_values(|l: ScanLine| l@);
    let ghost kv = kinds@.map_values(|k: Vec<NumberKind>| k@);
    let mut i: usize = 0;
    while i < scan.len()
        invariant
            sv == scan@.map_values(|l: ScanLine| l@),
            kv == kinds@.map_values(|k: Vec<NumberKind>| k@),
            kinds.len() == scan.len(),
            scan.len() < usize::MAX,
            forall|j: int| 0 <= j < scan.len() ==> #[trigger] kinds@[j].len() == scan@[j].tokens.len(),
            i <= scan.len(),
            leading_options(sv, kv, lang, i as nat) is None,
            !has_opened(sv, i as nat),
        decreases scan.len() - i,
    {
        assert(sv[i as int] == scan@[i as int]@);
        assert(kv[i as int] == kinds@[i as int]@);
        match scan[i].kind {
            LineKind::Data => {
                assert(opens(sv[i as int]));
                assert(has_opened(sv, (i + 1) as nat));
                proof {
                    lemma_leading_settled(sv, kv, lang, (i + 1) as nat, sv.len());
                }
                return FrequencyUnit::GHz;
            },
            LineKind::Options => {
                let r = parse_options(&scan[i].tokens, &kinds[i], i, lang);
                assert(opens(sv[i as int]));
                assert(has_opened(sv, (i + 1) as nat));
                proof {
                    lemma_leading_settled(sv, kv, lang, (i + 1) as nat, sv.len());
                }
                return match r {
                    Ok(o) => o.unit,
                    Err(_) => FrequencyUnit::GHz,
                };
            },
            _ => {},
        }
        assert(!opens(sv[i as int]));
        assert(!has_opened(sv, (i + 1) as nat));
        i += 1;
    }
    FrequencyUnit::GHz
}


proof fn lemma_walk_options(
    scan: Seq<ScanText>,
    kinds: Seq<Seq<NumberKind>>,
    ranks: Seq<usize>,
    port_hint: Option<u8>,
    lang: Lang,
    count: nat,
)
    requires
        count <= scan.len(),
        walk(scan, kinds, ranks, port_hint, lang, count) is Ok,
    ensures
        ({
            let w = walk(scan, kinds, ranks, port_hint, lang, count)->Ok_0;
            &&& w.options == leading_options(scan, kinds, lang, count)
            &&& (w.options is Some || w.first_data_line is Some) == has_opened(scan, count)
            &&& w.noise_skipped ==> w.first_data_line is Some
        }),
    decreases count,
{
    if count > 0 {
        let c = (count - 1) as nat;
        lemma_walk_options(scan, kinds, ranks, port_hint, lang, c);
        let prev = walk(scan, kinds, ranks, port_hint, lang, c)->Ok_0;
        let w = walk(scan, kinds, ranks, port_hint, lang, count)->Ok_0;
        assert(step(prev, c as int, scan[c as int], kinds[c as int], ranks[c as int], lang)
            == Ok::<Walk, ErrorText>(w));
        if opens(scan[c as int]) {
            assert(has_opened(scan, count));
        } else {
            assert(has_opened(scan, count) == has_opened(scan, c)) by {
                if has_opened(scan, count) {
                    let j = choose|j: int|
                        0 <= j < count && j < scan.len() && #[trigger] opens(scan[j]);
                    assert(j < c);
                }
            }
        }
        if has_opened(scan, c) {
            assert(has_opened(scan, count)) by {
                let j = choose|j: int| 0 <= j < c && j < scan.len() && #[trigger] opens(scan[j]);
                assert(0 <= j < count && opens(scan[j]));
            }
        }
    }
}

/// The unit a caller scales frequencies with, `unit_in_force`, is the unit
/// of the options the reader ends with, whenever it succeeds.
pub proof fn reader_uses_unit_in_force(
    scan: Seq<ScanText>,
    kinds: Seq<Seq<NumberKind>>,
    ranks: Seq<usize>,
    port_hint: Option<u8>,
    lang: Lang,
)
    requires
        structure_spec(scan, kinds, ranks, port_hint, lang) is Ok,
    ensures
        structure_spec(scan, kinds, ranks, port_hint, lang)->Ok_0.options.unit == unit_in_force(
            scan,
            kinds,
            lang,
        ),
{
    lemma_walk_options(scan, kinds, ranks, port_hint, lang, scan.len());
}


// ---------------------------------------------------------------------------
// Shape of the result
// ---------------------------------------------------------------------------

/// `t` names a token of a data line that reads as a number.
pub open spec fn value_token(scan: Seq<ScanText>, kinds: Seq<Seq<NumberKind>>, t: TokenAt) -> bool {
    &&& (t.line as int) < scan.len()
    &&& scan[t.line as int].kind == LineKind::Data
    &&& (t.token as int) < scan[t.line as int].tokens.len()
    &&& kinds[t.line as int][t.token as int] != NumberKind::NotNumber
}

/// `a` comes before `b` in the file.
pub open spec fn token_before(a: TokenAt, b: TokenAt) -> bool {
    a.line < b.line || (a.line == b.line && a.token < b.token)
}

/// Each token comes after the one before it in the file.
pub open spec fn in_reading_order(r: Seq<TokenAt>) -> bool {
    forall|k: int, l: int|
        #![trigger r[k], r[l]]
        0 <= k && l == k + 1 && l < r.len() ==> token_before(r[k], r[l])
}

/// A frequency point: `stride_of(ports)` number tokens in the order the
/// file holds them, the first of which opens its data line.
pub open spec fn row_ok(
    scan: Seq<ScanText>,
    kinds: Seq<Seq<NumberKind>>,
    r: Seq<TokenAt>,
    ports: u8,
) -> bool {
    &&& r.len() == stride_of(ports)
    &&& r[0].token == 0
    &&& forall|j: int| 0 <= j < r.len() ==> value_token(scan, kinds, #[trigger] r[j])
    &&& in_reading_order(r)
}

/// Tokens of every scan line are matched by number kinds, and every count
/// fits in `usize`, as for a scan held in vectors.
pub open spec fn aligned(scan: Seq<ScanText>, kinds: Seq<Seq<NumberKind>>) -> bool {
    &&& kinds.len() == scan.len()
    &&& scan.len() <= usize::MAX
    &&& forall|i: int|
        0 <= i < scan.len() ==> #[trigger] kinds[i].len() == scan[i].tokens.len()
            && scan[i].tokens.len() <= usize::MAX
}

spec fn walk_shape(
    scan: Seq<ScanText>,
    kinds: Seq<Seq<NumberKind>>,
    port_hint: Option<u8>,
    w: Walk,
    n: nat,
) -> bool {
    &&& in_reading_order(w.pending)
    &&& w.pending.len() > 0 ==> w.pending.last().line < n
    &&& valid_ports(w.ports)
    &&& port_hint is Some ==> w.ports == port_hint
    &&& w.pending.len() > 0 ==> {
        &&& w.ports is Some
        &&& w.pending.len() < stride_of(w.ports->0)
        &&& w.pending[0].token == 0
    }
    &&& forall|j: int| 0 <= j < w.pending.len() ==> value_token(scan, kinds, #[trigger] w.pending[j])
    &&& w.rows.len() > 0 ==> w.ports is Some
    &&& forall|j: int| 0 <= j < w.rows.len() ==> row_ok(scan, kinds, #[trigger] w.rows[j], w.ports->0)
    &&& forall|j: int|
        0 <= j < w.notes.len() && #[trigger] w.notes[j] == LoadNote::TouchstoneNoiseBlockSkipped
            ==> w.ports == Some(2u8)
    &&& w.options matches Some(o) ==> reference_ok(scan, kinds, o)
}

/// The reference impedance of `o`, when it names one, is a positive number
/// on an option line.
pub open spec fn reference_ok(scan: Seq<ScanText>, kinds: Seq<Seq<NumberKind>>, o: Options) -> bool {
    o.reference matches Some(t) ==> {
        &&& (t.line as int) < scan.len()
        &&& scan[t.line as int].kind == LineKind::Options
        &&& (t.token as int) < scan[t.line as int].tokens.len()
        &&& kinds[t.line as int][t.token as int] == NumberKind::Positive
    }
}

proof fn lemma_options_reference(
    tokens: Seq<Seq<char>>,
    kinds: Seq<NumberKind>,
    line: usize,
    k: int,
    acc: Options,
    lang: Lang,
)
    requires
        0 <= k,
        kinds.len() == tokens.len(),
        acc.reference matches Some(t) ==> t.line == line && (t.token as int) < tokens.len()
            && kinds[t.token as int] == NumberKind::Positive,
        tokens.len() <= usize::MAX,
    ensures
        options_from(tokens, kinds, line, k, acc, lang) matches Ok(o) ==> (o.reference matches Some(
            t,
        ) ==> t.line == line && (t.token as int) < tokens.len() && kinds[t.token as int]
            == NumberKind::Positive),
    decreases tokens.len() - k,
{
    if k < tokens.len() {
        let t = lower_seq(tokens[k]);
        if t == "hz"@ {
            lemma_options_reference(tokens, kinds, line, k + 1, with_unit(acc, FrequencyUnit::Hz), lang);
        } else if t == "khz"@ {
            lemma_options_reference(tokens, kinds, line, k + 1, with_unit(acc, FrequencyUnit::KHz), lang);
        } else if t == "mhz"@ {
            lemma_options_reference(tokens, kinds, line, k + 1, with_unit(acc, FrequencyUnit::MHz), lang);
        } else if t == "ghz"@ {
            lemma_options_reference(tokens, kinds, line, k + 1, with_unit(acc, FrequencyUnit::GHz), lang);
        } else if t == "s"@ {
            lemma_options_reference(tokens, kinds, line, k + 1, with_parameter(acc, Parameter::S), lang);
        } else if t == "y"@ {
            lemma_options_reference(tokens, kinds, line, k + 1, with_parameter(acc, Parameter::Y), lang);
        } else if t == "z"@ {
            lemma_options_reference(tokens, kinds, line, k + 1, with_parameter(acc, Parameter::Z), lang);
        } else if t == "g"@ {
            lemma_options_reference(tokens, kinds, line, k + 1, with_parameter(acc, Parameter::G), lang);
        } else if t == "h"@ {
            lemma_options_reference(tokens, kinds, line, k + 1, with_parameter(acc, Parameter::H), lang);
        } else if t == "ma"@ {
            lemma_options_reference(tokens, kinds, line, k + 1, with_format(acc, Format::MagnitudeAngle), lang);
        } else if t == "db"@ {
            lemma_options_reference(tokens, kinds, line, k + 1, with_format(acc, Format::DecibelAngle), lang);
        } else if t == "ri"@ {
            lemma_options_reference(tokens, kinds, line, k + 1, with_format(acc, Format::RealImaginary), lang);
        } else if t == "r"@ {
            if k + 1 < tokens.len() && kinds[k + 1] == NumberKind::Positive {
                lemma_options_reference(
                    tokens,
                    kinds,
                    line,
                    k + 2,
                    with_reference(acc, TokenAt { line, token: (k + 1) as usize }),
                    lang,
                );
            }
        }
    }
}

proof fn lemma_no_bad(kinds: Seq<NumberKind>)
    requires
        bad_index(kinds) < 0,
    ensures
        forall|j: int| 0 <= j < kinds.len() ==> kinds[j] != NumberKind::NotNumber,
    decreases kinds.len(),
{
    if kinds.len() > 0 {
        lemma_no_bad(kinds.drop_first());
        assert forall|j: int| 0 <= j < kinds.len() implies kinds[j] != NumberKind::NotNumber by {
            if j > 0 {
                assert(kinds[j] == kinds.drop_first()[j - 1]);
            }
        }
    }
}

proof fn lemma_data_step_shape(
    scan: Seq<ScanText>,
    kinds: Seq<Seq<NumberKind>>,
    port_hint: Option<u8>,
    w: Walk,
    i: int,
    rank: usize,
    lang: Lang,
)
    requires
        aligned(scan, kinds),
        0 <= i < scan.len(),
        scan[i].kind == LineKind::Data,
        bad_index(kinds[i]) < 0,
        walk_shape(scan, kinds, port_hint, w, i as nat),
        data_step(w, i, scan[i].tokens.len(), rank, lang) is Ok,
    ensures
        walk_shape(
            scan,
            kinds,
            port_hint,
            data_step(w, i, scan[i].tokens.len(), rank, lang)->Ok_0,
            (i + 1) as nat,
        ),
{
    let count = scan[i].tokens.len();
    let next = data_step(w, i, count, rank, lang)->Ok_0;
    lemma_no_bad(kinds[i]);
    let p = next.ports->0;
    assert(p == 1 || p == 2);
    let added = values_of(i, count);
    assert forall|j: int| 0 <= j < added.len() implies value_token(scan, kinds, #[trigger] added[j]) by {
        assert(kinds[i].len() == scan[i].tokens.len() && scan[i].tokens.len() <= usize::MAX);
        assert(added[j] == TokenAt { line: i as usize, token: j as usize });
        assert(kinds[i][j] != NumberKind::NotNumber);
    }
    let joined = w.pending + added;
    assert forall|j: int| 0 <= j < joined.len() implies value_token(scan, kinds, #[trigger] joined[j]) by {
        if j >= w.pending.len() {
            assert(joined[j] == added[j - w.pending.len()]);
        }
    }
    if w.pending.len() == 0 && joined.len() > 0 {
        assert(joined[0] == added[0]);
    }
    assert(in_reading_order(joined)) by {
        assert forall|k: int, l: int|
            #![trigger joined[k], joined[l]]
            0 <= k && l == k + 1 && l < joined.len() implies token_before(joined[k], joined[l]) by {
            if l < w.pending.len() {
                assert(joined[k] == w.pending[k] && joined[l] == w.pending[l]);
            } else if k < w.pending.len() {
                assert(joined[k] == w.pending.last());
                assert(joined[l] == added[0]);
            } else {
                assert(joined[k] == added[k - w.pending.len()]);
                assert(joined[l] == added[l - w.pending.len()]);
            }
        }
    }
    if joined.len() > 0 {
        assert(joined.last().line <= i) by {
            if added.len() > 0 {
                assert(joined.last() == added.last());
            } else {
                assert(joined.last() == w.pending.last());
            }
        }
    }
    assert forall|j: int| 0 <= j < next.rows.len() implies row_ok(scan, kinds, #[trigger] next.rows[j], p) by {
        if j < w.rows.len() {
            assert(next.rows[j] == w.rows[j]);
        }
    }
    assert forall|j: int|
        0 <= j < next.notes.len() && #[trigger] next.notes[j] == LoadNote::TouchstoneNoiseBlockSkipped
        implies next.ports == Some(2u8) by {
        if j < w.notes.len() {
            assert(next.notes[j] == w.notes[j]);
        }
    }
}

proof fn lemma_walk_shape(
    scan: Seq<ScanText>,
    kinds: Seq<Seq<NumberKind>>,
    ranks: Seq<usize>,
    port_hint: Option<u8>,
    lang: Lang,
    count: nat,
)
    requires
        aligned(scan, kinds),
        valid_ports(port_hint),
        count <= scan.len(),
        walk(scan, kinds, ranks, port_hint, lang, count) is Ok,
    ensures
        walk_shape(
            scan,
            kinds,
            port_hint,
            walk(scan, kinds, ranks, port_hint, lang, count)->Ok_0,
            count,
        ),
    decreases count,
{
    if count > 0 {
        let c = (count - 1) as nat;
        lemma_walk_shape(scan, kinds, ranks, port_hint, lang, c);
        let prev = walk(scan, kinds, ranks, port_hint, lang, c)->Ok_0;
        let w = walk(scan, kinds, ranks, port_hint, lang, count)->Ok_0;
        let line = scan[c as int];
        assert(step(prev, c as int, line, kinds[c as int], ranks[c as int], lang) == Ok::<
            Walk,
            ErrorText,
        >(w));
        match line.kind {
            LineKind::Data => {
                if !prev.noise_skipped {
                    lemma_data_step_shape(scan, kinds, port_hint, prev, c as int, ranks[c as int], lang);
                }
            },
            LineKind::Options => {
                assert forall|j: int|
                    0 <= j < w.notes.len() && #[trigger] w.notes[j]
                        == LoadNote::TouchstoneNoiseBlockSkipped implies w.ports == Some(2u8) by {
                    if j < prev.notes.len() {
                        assert(w.notes[j] == prev.notes[j]);
                    }
                }
                assert(kinds[c as int].len() == line.tokens.len() && line.tokens.len() <= usize::MAX);
                lemma_options_reference(
                    line.tokens,
                    kinds[c as int],
                    c as usize,
                    0,
                    default_options(),
                    lang,
                );
            },
            _ => {},
        }
    }
}

/// Whenever the reader succeeds: the port count is one or two, and the one
/// the extension gave when it gave one; every frequency point holds
/// `1 + 2 * ports * ports` values in file order, starts a data line, and names only
/// tokens of data lines that read as numbers; the noise block is reported
/// skipped only for two-port files; a declared reference impedance is a
/// positive number on the option line; and the parameters are S, or Z or Y
/// of a one-port file.
pub proof fn reader_shape(
    scan: Seq<ScanText>,
    kinds: Seq<Seq<NumberKind>>,
    ranks: Seq<usize>,
    port_hint: Option<u8>,
    lang: Lang,
)
    requires
        aligned(scan, kinds),
        structure_spec(scan, kinds, ranks, port_hint, lang) is Ok,
    ensures
        ({
            let shape = structure_spec(scan, kinds, ranks, port_hint, lang)->Ok_0;
            &&& shape.ports == 1 || shape.ports == 2
            &&& port_hint is Some ==> shape.ports == port_hint->0
            &&& shape.rows.len() > 0
            &&& forall|j: int|
                0 <= j < shape.rows.len() ==> row_ok(scan, kinds, #[trigger] shape.rows[j], shape.ports)
            &&& forall|j: int|
                0 <= j < shape.notes.len() && #[trigger] shape.notes[j]
                    == LoadNote::TouchstoneNoiseBlockSkipped ==> shape.ports == 2
            &&& reference_ok(scan, kinds, shape.options)
            &&& shape.options.parameter == Parameter::S || (shape.ports == 1 && (
            shape.options.parameter == Parameter::Z || shape.options.parameter == Parameter::Y))
        }),
{
    lemma_walk_shape(scan, kinds, ranks, port_hint, lang, scan.len());
    let w = walk(scan, kinds, ranks, port_hint, lang, scan.len())->Ok_0;
    let shape = structure_spec(scan, kinds, ranks, port_hint, lang)->Ok_0;
    assert forall|j: int|
        0 <= j < shape.notes.len() && #[trigger] shape.notes[j]
            == LoadNote::TouchstoneNoiseBlockSkipped implies shape.ports == 2 by {
        if j < w.notes.len() {
            assert(shape.notes[j] == w.notes[j]);
        }
    }
}


/// A file with a Touchstone 2.x `[keyword]` line is never read.
pub proof fn keyword_files_are_rejected(
    scan: Seq<ScanText>,
    kinds: Seq<Seq<NumberKind>>,
    ranks: Seq<usize>,
    port_hint: Option<u8>,
    lang: Lang,
    i: int,
)
    requires
        0 <= i < scan.len(),
        scan[i].kind == LineKind::Keyword,
    ensures
        structure_spec(scan, kinds, ranks, port_hint, lang) is Err,
{
    if !(port_hint matches Some(p) && p != 1 && p != 2) {
        match walk(scan, kinds, ranks, port_hint, lang, i as nat) {
            Err(e) => {
                lemma_walk_stays_failed(scan, kinds, ranks, port_hint, lang, i as nat, scan.len(), e);
            },
            Ok(w) => {
                let e = keyword_error(scan[i].content, lang);
                assert(walk(scan, kinds, ranks, port_hint, lang, (i + 1) as nat) == Err::<
                    Walk,
                    ErrorText,
                >(e));
                lemma_walk_stays_failed(
                    scan,
                    kinds,
                    ranks,
                    port_hint,
                    lang,
                    (i + 1) as nat,
                    scan.len(),
                    e,
                );
            },
        }
    }
}

// ---------------------------------------------------------------------------
// Traces
// ---------------------------------------------------------------------------

/// A trace read from the frequency points: where it comes from, its label,
/// and the index in every point of the first value of its complex pair.
#[derive(Clone, Copy, Debug, PartialEq, Eq)]
pub struct TracePlan {
    pub origin: TraceOrigin,
    pub label: &'static str,
    pub offset: usize,
}

/// The traces of a file: the one reflection or normalized parameter of a
/// one-port file; `S11` and `S22` of a two-port file, whose points hold
/// `S11 S21 S12 S22` in that order.
pub open spec fn trace_plans(ports: u8, parameter: Parameter) -> Seq<(TraceOrigin, Seq<char>, nat)> {
    if ports == 2 {
        seq![(TraceOrigin::TwoPortS(PortVariant::S11), "S11"@, 1nat), (TraceOrigin::TwoPortS(PortVariant::S22), "S22"@, 7nat)]
    } else {
        match parameter {
            Parameter::Z => seq![(TraceOrigin::OnePortZ, "Z11"@, 1nat)],
            Parameter::Y => seq![(TraceOrigin::OnePortY, "Y11"@, 1nat)],
            _ => seq![(TraceOrigin::OnePortS, "S11"@, 1nat)],
        }
    }
}

pub fn touchstone_traces(ports: u8, parameter: Parameter) -> (plans: Vec<TracePlan>)
    requires
        ports == 1 || ports == 2,
        parameter == Parameter::S || (ports == 1 && (parameter == Parameter::Z || parameter
            == Parameter::Y)),
    ensures
        plans.len() == trace_plans(ports, parameter).len(),
        forall|j: int|
            0 <= j < plans.len() ==> {
                let p = #[trigger] plans@[j];
                let t = trace_plans(ports, parameter)[j];
                &&& p.origin == t.0
                &&& p.label@ == t.1
                &&& p.offset == t.2
                &&& p.offset + 1 < stride_of(ports)
            },
{
    let mut plans: Vec<TracePlan> = Vec::new();
    if ports == 2 {
        plans.push(TracePlan { origin: TraceOrigin::TwoPortS(PortVariant::S11), label: PortVariant::S11.label(), offset: 1 });
        plans.push(TracePlan { origin: TraceOrigin::TwoPortS(PortVariant::S22), label: PortVariant::S22.label(), offset: 7 });
    } else {
        let plan = match parameter {
            Parameter::Z => TracePlan { origin: TraceOrigin::OnePortZ, label: "Z11", offset: 1 },
            Parameter::Y => TracePlan { origin: TraceOrigin::OnePortY, label: "Y11", offset: 1 },
            _ => TracePlan { origin: TraceOrigin::OnePortS, label: "S11", offset: 1 },
        };
        plans.push(plan);
    }
    plans
}


// ---------------------------------------------------------------------------
// What rejections say
// ---------------------------------------------------------------------------

proof fn lemma_middle(a: Seq<char>, t: Seq<char>, b: Seq<char>)
    ensures
        contains_seq(a + t + b, t),
{
    assert((a + t + b).subrange(a.len() as int, (a.len() + t.len()) as int) =~= t);
    assert(crate::text::occurs_at(a + t + b, t, a.len() as int));
}

proof fn lemma_front(t: Seq<char>, b: Seq<char>)
    ensures
        contains_seq(t + b, t),
{
    assert((t + b).subrange(0, t.len() as int) =~= t);
    assert(crate::text::occurs_at(t + b, t, 0));
}

/// Every rejection explains itself: the message of an unknown option or of a
/// value that is not a number quotes the token; the message for an
/// unsupported parameter names its letter; the message for an unsupported
/// port count begins with that count followed by the word for ports; and
/// every rejection carries a hint.
pub proof fn rejections_name_their_cause(
    line: nat,
    token: Seq<char>,
    ports: u8,
    parameter: Parameter,
    lang: Lang,
)
    ensures
        contains_seq(option_error(line, token, lang).message, token),
        contains_seq(number_error(line, token, lang).message, token),
        contains_seq(matrix_error(parameter, lang).message, parameter.label_spec()),
        contains_seq(parameter_error(parameter, lang).message, parameter.label_spec()),
        has_prefix(
            ports_error(ports, Lang::Chinese).message,
            decimal_text(ports as nat) + " 端口"@,
        ),
        ports_error(ports, lang).hint is Some,
        option_error(line, token, lang).hint is Some,
        number_error(line, token, lang).hint is Some,
        reference_error(line, lang).hint is Some,
        matrix_error(parameter, lang).hint is Some,
        parameter_error(parameter, lang).hint is Some,
{
    let d = decimal_text(line);
    let label = parameter.label_spec();
    match lang {
        Lang::Chinese => {
            lemma_middle("第 "@ + d + " 行的选项“"@, token, "”无法识别。"@);
            lemma_middle("第 "@ + d + " 行无法读取数值“"@, token, "”。"@);
            lemma_middle("两端口 "@, label, " 参数矩阵不能直接当作端口反射系数。"@);
            lemma_front(label, " 参数暂不支持。"@);
        },
        Lang::English => {
            lemma_middle("Line "@ + d + " has an option that is not recognized: \""@, token, "\"."@);
            lemma_middle("Line "@ + d + " has a value that is not a number: \""@, token, "\"."@);
            lemma_middle("A two-port "@, label, " matrix cannot be read directly as port reflections."@);
            lemma_front(label, " parameters are not supported yet."@);
        },
    }
    reveal_strlit(" 端口 Touchstone 文件暂不支持。");
    reveal_strlit(" 端口");
    let p = decimal_text(ports as nat);
    let m = p + " 端口 Touchstone 文件暂不支持。"@;
    assert(m.subrange(0, (p.len() + 3) as int) =~= p + " 端口"@);
}

proof fn lemma_options_error_hint(
    tokens: Seq<Seq<char>>,
    kinds: Seq<NumberKind>,
    line: usize,
    k: int,
    acc: Options,
    lang: Lang,
)
    ensures
        options_from(tokens, kinds, line, k, acc, lang) matches Err(e) ==> e.hint is Some,
    decreases tokens.len() - k,
{
    if 0 <= k < tokens.len() {
        let t = lower_seq(tokens[k]);
        if t == "hz"@ {
            lemma_options_error_hint(tokens, kinds, line, k + 1, with_unit(acc, FrequencyUnit::Hz), lang);
        } else if t == "khz"@ {
            lemma_options_error_hint(tokens, kinds, line, k + 1, with_unit(acc, FrequencyUnit::KHz), lang);
        } else if t == "mhz"@ {
            lemma_options_error_hint(tokens, kinds, line, k + 1, with_unit(acc, FrequencyUnit::MHz), lang);
        } else if t == "ghz"@ {
            lemma_options_error_hint(tokens, kinds, line, k + 1, with_unit(acc, FrequencyUnit::GHz), lang);
        } else if t == "s"@ {
            lemma_options_error_hint(tokens, kinds, line, k + 1, with_parameter(acc, Parameter::S), lang);
        } else if t == "y"@ {
            lemma_options_error_hint(tokens, kinds, line, k + 1, with_parameter(acc, Parameter::Y), lang);
        } else if t == "z"@ {
            lemma_options_error_hint(tokens, kinds, line, k + 1, with_parameter(acc, Parameter::Z), lang);
        } else if t == "g"@ {
            lemma_options_error_hint(tokens, kinds, line, k + 1, with_parameter(acc, Parameter::G), lang);
        } else if t == "h"@ {
            lemma_options_error_hint(tokens, kinds, line, k + 1, with_parameter(acc, Parameter::H), lang);
        } else if t == "ma"@ {
            lemma_options_error_hint(tokens, kinds, line, k + 1, with_format(acc, Format::MagnitudeAngle), lang);
        } else if t == "db"@ {
            lemma_options_error_hint(tokens, kinds, line, k + 1, with_format(acc, Format::DecibelAngle), lang);
        } else if t == "ri"@ {
            lemma_options_error_hint(tokens, kinds, line, k + 1, with_format(acc, Format::RealImaginary), lang);
        } else if t == "r"@ {
            if k + 1 < tokens.len() && kinds[k + 1] == NumberKind::Positive {
                lemma_options_error_hint(
                    tokens,
                    kinds,
                    line,
                    k + 2,
                    with_reference(acc, TokenAt { line, token: (k + 1) as usize }),
                    lang,
                );
            }
        }
    }
}

proof fn lemma_walk_error_hint(
    scan: Seq<ScanText>,
    kinds: Seq<Seq<NumberKind>>,
    ranks: Seq<usize>,
    port_hint: Option<u8>,
    lang: Lang,
    count: nat,
)
    ensures
        walk(scan, kinds, ranks, port_hint, lang, count) matches Err(e) ==> e.hint is Some,
    decreases count,
{
    if count > 0 {
        let c = (count - 1) as nat;
        lemma_walk_error_hint(scan, kinds, ranks, port_hint, lang, c);
        let line = scan[c as int];
        if line.kind == LineKind::Options {
            lemma_options_error_hint(line.tokens, kinds[c as int], c as usize, 0, default_options(), lang);
        }
    }
}

/// Whenever the reader rejects a file, the rejection carries a hint; a
/// port count from the extension other than one or two is rejected first,
/// with the message for that count.
pub proof fn failures_carry_a_hint(
    scan: Seq<ScanText>,
    kinds: Seq<Seq<NumberKind>>,
    ranks: Seq<usize>,
    port_hint: Option<u8>,
    lang: Lang,
)
    ensures
        structure_spec(scan, kinds, ranks, port_hint, lang) matches Err(e) ==> e.hint is Some,
        (port_hint is Some && port_hint->0 != 1 && port_hint->0 != 2) ==> structure_spec(
            scan,
            kinds,
            ranks,
            port_hint,
            lang,
        ) == Err::<ShapeView, ErrorText>(ports_error(port_hint->0, lang)),
{
    lemma_walk_error_hint(scan, kinds, ranks, port_hint, lang, scan.len());
}


/// A word of the option line that sets the unit, the parameter or the
/// format, compared after ASCII lowercasing.
pub open spec fn option_word(t: Seq<char>) -> bool {
    t == "hz"@ || t == "khz"@ || t == "mhz"@ || t == "ghz"@ || t == "s"@ || t == "y"@ || t == "z"@
        || t == "g"@ || t == "h"@ || t == "ma"@ || t == "db"@ || t == "ri"@
}

/// The first faulty token of an option line from token `k` on: a token that
/// is neither an option word nor `R` followed by a positive number. The flag
/// says whether it is an `R` without its number.
pub open spec fn option_fault(tokens: Seq<Seq<char>>, kinds: Seq<NumberKind>, k: int) -> Option<
    (int, bool),
>
    decreases tokens.len() - k,
{
    if k < 0 || k >= tokens.len() {
        None
    } else {
        let t = lower_seq(tokens[k]);
        if option_word(t) {
            option_fault(tokens, kinds, k + 1)
        } else if t == "r"@ {
            if k + 1 < tokens.len() && kinds[k + 1] == NumberKind::Positive {
                option_fault(tokens, kinds, k + 2)
            } else {
                Some((k, true))
            }
        } else {
            Some((k, false))
        }
    }
}

proof fn lemma_options_fault(
    tokens: Seq<Seq<char>>,
    kinds: Seq<NumberKind>,
    line: usize,
    k: int,
    acc: Options,
    lang: Lang,
)
    requires
        0 <= k,
    ensures
        match option_fault(tokens, kinds, k) {
            None => options_from(tokens, kinds, line, k, acc, lang) is Ok,
            Some((j, is_reference)) => {
                &&& k <= j < tokens.len()
                &&& is_reference ==> lower_seq(tokens[j]) == "r"@ && options_from(
                    tokens,
                    kinds,
                    line,
                    k,
                    acc,
                    lang,
                ) == Err::<Options, ErrorText>(reference_error(line as nat + 1, lang))
                &&& !is_reference ==> !option_word(lower_seq(tokens[j])) && lower_seq(tokens[j])
                    != "r"@ && options_from(tokens, kinds, line, k, acc, lang) == Err::<
                    Options,
                    ErrorText,
                >(option_error(line as nat + 1, tokens[j], lang))
            },
        },
    decreases tokens.len() - k,
{
    if k < tokens.len() {
        let t = lower_seq(tokens[k]);
        if t == "hz"@ {
            lemma_options_fault(tokens, kinds, line, k + 1, with_unit(acc, FrequencyUnit::Hz), lang);
        } else if t == "khz"@ {
            lemma_options_fault(tokens, kinds, line, k + 1, with_unit(acc, FrequencyUnit::KHz), lang);
        } else if t == "mhz"@ {
            lemma_options_fault(tokens, kinds, line, k + 1, with_unit(acc, FrequencyUnit::MHz), lang);
        } else if t == "ghz"@ {
            lemma_options_fault(tokens, kinds, line, k + 1, with_unit(acc, FrequencyUnit::GHz), lang);
        } else if t == "s"@ {
            lemma_options_fault(tokens, kinds, line, k + 1, with_parameter(acc, Parameter::S), lang);
        } else if t == "y"@ {
            lemma_options_fault(tokens, kinds, line, k + 1, with_parameter(acc, Parameter::Y), lang);
        } else if t == "z"@ {
            lemma_options_fault(tokens, kinds, line, k + 1, with_parameter(acc, Parameter::Z), lang);
        } else if t == "g"@ {
            lemma_options_fault(tokens, kinds, line, k + 1, with_parameter(acc, Parameter::G), lang);
        } else if t == "h"@ {
            lemma_options_fault(tokens, kinds, line, k + 1, with_parameter(acc, Parameter::H), lang);
        } else if t == "ma"@ {
            lemma_options_fault(tokens, kinds, line, k + 1, with_format(acc, Format::MagnitudeAngle), lang);
        } else if t == "db"@ {
            lemma_options_fault(tokens, kinds, line, k + 1, with_format(acc, Format::DecibelAngle), lang);
        } else if t == "ri"@ {
            lemma_options_fault(tokens, kinds, line, k + 1, with_format(acc, Format::RealImaginary), lang);
        } else if t == "r"@ {
            if k + 1 < tokens.len() && kinds[k + 1] == NumberKind::Positive {
                lemma_options_fault(
                    tokens,
                    kinds,
                    line,
                    k + 2,
                    with_reference(acc, TokenAt { line, token: (k + 1) as usize }),
                    lang,
                );
            }
        }
    }
}

proof fn lemma_bad_index_first(kinds: Seq<NumberKind>)
    ensures
        bad_index(kinds) >= 0 ==> {
            let b = bad_index(kinds);
            &&& b < kinds.len()
            &&& kinds[b] == NumberKind::NotNumber
            &&& forall|j: int| 0 <= j < b ==> kinds[j] != NumberKind::NotNumber
        },
    decreases kinds.len(),
{
    if kinds.len() > 0 && kinds[0] != NumberKind::NotNumber {
        let rest = kinds.drop_first();
        lemma_bad_index_first(rest);
        if bad_index(rest) >= 0 {
            assert forall|j: int| 0 <= j < bad_index(kinds) implies kinds[j] != NumberKind::NotNumber by {
                if j > 0 {
                    assert(kinds[j] == rest[j - 1]);
                }
            }
        }
    }
}

/// A file is rejected at the first line that cannot be read, and the
/// rejection quotes that line's first faulty token. On an option line that
/// is the first token that is neither an option word nor `R` followed by a
/// positive number, and an `R` without its number is reported as such; on a
/// data line outside a skipped noise block it is the first token that is
/// not a number. Such a rejection carries a hint.
pub proof fn failure_quotes_first_faulty_token(
    scan: Seq<ScanText>,
    kinds: Seq<Seq<NumberKind>>,
    ranks: Seq<usize>,
    port_hint: Option<u8>,
    lang: Lang,
    i: int,
)
    requires
        aligned(scan, kinds),
        valid_ports(port_hint),
        0 <= i < scan.len(),
        walk(scan, kinds, ranks, port_hint, lang, i as nat) is Ok,
    ensures
        ({
            let line = scan[i];
            let r = structure_spec(scan, kinds, ranks, port_hint, lang);
            let w = walk(scan, kinds, ranks, port_hint, lang, i as nat)->Ok_0;
            &&& line.kind == LineKind::Options ==> (option_fault(line.tokens, kinds[i], 0) matches Some(
                (k, false),
            ) ==> {
                &&& !option_word(lower_seq(line.tokens[k])) && lower_seq(line.tokens[k]) != "r"@
                &&& r == Err::<ShapeView, ErrorText>(option_error((i + 1) as nat, line.tokens[k], lang))
                &&& contains_seq(r->Err_0.message, line.tokens[k])
                &&& r->Err_0.hint is Some
            })
            &&& line.kind == LineKind::Options ==> (option_fault(line.tokens, kinds[i], 0) matches Some(
                (k, true),
            ) ==> {
                &&& lower_seq(line.tokens[k]) == "r"@
                &&& r == Err::<ShapeView, ErrorText>(reference_error((i + 1) as nat, lang))
                &&& r->Err_0.hint is Some
            })
            &&& (line.kind == LineKind::Data && !w.noise_skipped && bad_index(kinds[i]) >= 0) ==> {
                let b = bad_index(kinds[i]);
                &&& kinds[i][b] == NumberKind::NotNumber
                &&& forall|j: int| 0 <= j < b ==> kinds[i][j] != NumberKind::NotNumber
                &&& r == Err::<ShapeView, ErrorText>(number_error((i + 1) as nat, line.tokens[b], lang))
                &&& contains_seq(r->Err_0.message, line.tokens[b])
                &&& r->Err_0.hint is Some
            }
        }),
{
    let line = scan[i];
    let n = (i + 1) as nat;
    let next = walk(scan, kinds, ranks, port_hint, lang, n);
    let w = walk(scan, kinds, ranks, port_hint, lang, i as nat)->Ok_0;
    assert(kinds[i].len() == line.tokens.len());
    if line.kind == LineKind::Options {
        lemma_options_fault(line.tokens, kinds[i], i as usize, 0, default_options(), lang);
        if let Some((k, flag)) = option_fault(line.tokens, kinds[i], 0) {
            let e = if flag {
                reference_error(n, lang)
            } else {
                option_error(n, line.tokens[k], lang)
            };
            assert(next == Err::<Walk, ErrorText>(e));
            lemma_walk_stays_failed(scan, kinds, ranks, port_hint, lang, n, scan.len(), e);
            rejections_name_their_cause(n, line.tokens[k], 1, Parameter::S, lang);
        }
    } else if line.kind == LineKind::Data && !w.noise_skipped && bad_index(kinds[i]) >= 0 {
        lemma_bad_index_first(kinds[i]);
        let b = bad_index(kinds[i]);
        let e = number_error(n, line.tokens[b], lang);
        assert(next == Err::<Walk, ErrorText>(e));
        lemma_walk_stays_failed(scan, kinds, ranks, port_hint, lang, n, scan.len(), e);
        rejections_name_their_cause(n, line.tokens[b], 1, Parameter::S, lang);
    }
}

// ---------------------------------------------------------------------------
// No value is dropped
// ---------------------------------------------------------------------------

/// `t` is part of the point being assembled or of a finished one.
pub open spec fn held(pending: Seq<TokenAt>, rows: Seq<Seq<TokenAt>>, t: TokenAt) -> bool {
    pending.contains(t) || exists|r: int| 0 <= r < rows.len() && #[trigger] rows[r].contains(t)
}

/// `notes` report the noise block.
pub open spec fn notes_noise(notes: Seq<LoadNote>) -> bool {
    notes.contains(LoadNote::TouchstoneNoiseBlockSkipped)
}

spec fn walk_covers(scan: Seq<ScanText>, w: Walk, n: nat) -> bool {
    &&& w.noise_skipped ==> notes_noise(w.notes)
    &&& !w.noise_skipped ==> forall|j: int, k: int|
        0 <= j < n && scan[j].kind == LineKind::Data && 0 <= k < scan[j].tokens.len()
            ==> #[trigger] held(w.pending, w.rows, TokenAt { line: j as usize, token: k as usize })
}

proof fn lemma_push_keeps_note(notes: Seq<LoadNote>, x: LoadNote)
    ensures
        notes_noise(notes) ==> notes_noise(notes.push(x)),
        x == LoadNote::TouchstoneNoiseBlockSkipped ==> notes_noise(notes.push(x)),
{
    if notes_noise(notes) {
        let k = choose|k: int| 0 <= k < notes.len() && notes[k] == LoadNote::TouchstoneNoiseBlockSkipped;
        assert(notes.push(x)[k] == LoadNote::TouchstoneNoiseBlockSkipped);
    }
    assert(notes.push(x)[notes.len() as int] == x);
}

proof fn lemma_data_step_covers(
    scan: Seq<ScanText>,
    w: Walk,
    i: int,
    rank: usize,
    lang: Lang,
)
    requires
        0 <= i < scan.len(),
        scan.len() <= usize::MAX,
        scan[i].tokens.len() <= usize::MAX,
        scan[i].kind == LineKind::Data,
        !w.noise_skipped,
        walk_covers(scan, w, i as nat),
        data_step(w, i, scan[i].tokens.len(), rank, lang) is Ok,
    ensures
        walk_covers(scan, data_step(w, i, scan[i].tokens.len(), rank, lang)->Ok_0, (i + 1) as nat),
{
    let count = scan[i].tokens.len();
    let next = data_step(w, i, count, rank, lang)->Ok_0;
    lemma_push_keeps_note(w.notes, LoadNote::TouchstoneNoiseBlockSkipped);
    if !next.noise_skipped {
        let added = values_of(i, count);
        let joined = w.pending + added;
        assert forall|j: int, k: int|
            0 <= j < i + 1 && scan[j].kind == LineKind::Data && 0 <= k < scan[j].tokens.len()
            implies #[trigger] held(next.pending, next.rows, TokenAt { line: j as usize, token: k as usize }) by {
            let t = TokenAt { line: j as usize, token: k as usize };
            // Where `t` sits before this line: in the open point, a finished
            // one, or, for this line, among the values it adds.
            let in_joined = joined.contains(t);
            if j == i {
                assert(added[k] == t);
                assert(joined[w.pending.len() + k] == t);
            } else {
                assert(held(w.pending, w.rows, t));
                if w.pending.contains(t) {
                    let m = choose|m: int| 0 <= m < w.pending.len() && w.pending[m] == t;
                    assert(joined[m] == t);
                }
            }
            if next.rows.len() > w.rows.len() {
                // The point was completed and closed.
                assert(next.rows[w.rows.len() as int] == joined);
                if in_joined {
                    assert(next.rows[w.rows.len() as int].contains(t));
                } else {
                    let r = choose|r: int| 0 <= r < w.rows.len() && #[trigger] w.rows[r].contains(t);
                    assert(next.rows[r] == w.rows[r]);
                }
            } else {
                assert(next.pending == joined);
                if !in_joined {
                    let r = choose|r: int| 0 <= r < w.rows.len() && #[trigger] w.rows[r].contains(t);
                    assert(next.rows[r] == w.rows[r]);
                }
            }
        }
    }
}

proof fn lemma_walk_covers(
    scan: Seq<ScanText>,
    kinds: Seq<Seq<NumberKind>>,
    ranks: Seq<usize>,
    port_hint: Option<u8>,
    lang: Lang,
    count: nat,
)
    requires
        aligned(scan, kinds),
        count <= scan.len(),
        walk(scan, kinds, ranks, port_hint, lang, count) is Ok,
    ensures
        walk_covers(scan, walk(scan, kinds, ranks, port_hint, lang, count)->Ok_0, count),
    decreases count,
{
    if count > 0 {
        let c = (count - 1) as nat;
        lemma_walk_covers(scan, kinds, ranks, port_hint, lang, c);
        let prev = walk(scan, kinds, ranks, port_hint, lang, c)->Ok_0;
        let w = walk(scan, kinds, ranks, port_hint, lang, count)->Ok_0;
        let line = scan[c as int];
        assert(step(prev, c as int, line, kinds[c as int], ranks[c as int], lang) == Ok::<
            Walk,
            ErrorText,
        >(w));
        assert(scan[c as int].tokens.len() <= usize::MAX);
        if line.kind == LineKind::Data && !prev.noise_skipped {
            lemma_data_step_covers(scan, prev, c as int, ranks[c as int], lang);
        } else {
            if line.kind == LineKind::Options {
                lemma_push_keeps_note(prev.notes, LoadNote::TouchstoneSecondOptionLine((c + 1) as usize));
                lemma_push_keeps_note(prev.notes, LoadNote::TouchstoneOptionAfterData((c + 1) as usize));
            }
            assert(w.pending == prev.pending && w.rows == prev.rows);
        }
    }
}

/// A read that reports no noise block keeps every value: each token of each
/// data line is part of some frequency point.
pub proof fn reader_keeps_every_value(
    scan: Seq<ScanText>,
    kinds: Seq<Seq<NumberKind>>,
    ranks: Seq<usize>,
    port_hint: Option<u8>,
    lang: Lang,
)
    requires
        aligned(scan, kinds),
        structure_spec(scan, kinds, ranks, port_hint, lang) is Ok,
        !notes_noise(structure_spec(scan, kinds, ranks, port_hint, lang)->Ok_0.notes),
    ensures
        forall|j: int, k: int|
            0 <= j < scan.len() && scan[j].kind == LineKind::Data && 0 <= k < scan[j].tokens.len()
                ==> #[trigger] held(
                Seq::empty(),
                structure_spec(scan, kinds, ranks, port_hint, lang)->Ok_0.rows,
                TokenAt { line: j as usize, token: k as usize },
            ),
{
    lemma_walk_covers(scan, kinds, ranks, port_hint, lang, scan.len());
    let w = walk(scan, kinds, ranks, port_hint, lang, scan.len())->Ok_0;
    let shape = structure_spec(scan, kinds, ranks, port_hint, lang)->Ok_0;
    lemma_push_keeps_note(w.notes, LoadNote::TouchstoneDefaultOptions);
    assert(!w.noise_skipped);
    assert(w.pending.len() == 0);
    assert forall|j: int, k: int|
        0 <= j < scan.len() && scan[j].kind == LineKind::Data && 0 <= k < scan[j].tokens.len()
        implies #[trigger] held(Seq::empty(), shape.rows, TokenAt { line: j as usize, token: k as usize }) by {
        let t = TokenAt { line: j as usize, token: k as usize };
        assert(held(w.pending, w.rows, t));
        assert(!w.pending.contains(t));
    }
}

} // verus!
