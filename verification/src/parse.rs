//! Input format detection, frequency units, and the parse error type shared
//! by the Touchstone and table readers.

pub mod csv;
pub mod touchstone;
pub mod number;

use crate::text::{
    Strip, char_is_alnum, char_is_digit, chars_of, copy_range, eq_str, has_char, has_suffix,
    index_of, is_alnum, is_space, strip_cr,
    is_digit, lines, lines_of, lower_seq, lowercase, occurs_at,
    occurs_at_exec, split_char, split_on, strip, strip_front, trim, trim_back, trim_front,
    ends_with_str,
};
use vstd::prelude::*;

verus! {

/// User-facing parse failure with a concrete reason and a suggested next step.
#[derive(Clone, Debug, PartialEq, Eq)]
pub struct ParseError {
    pub message: String,
    pub hint: Option<String>,
}

/// The text of a parse error.
pub struct ErrorText {
    pub message: Seq<char>,
    pub hint: Option<Seq<char>>,
}

pub open spec fn error_text(message: Seq<char>, hint: Option<Seq<char>>) -> ErrorText {
    ErrorText { message, hint }
}

impl View for ParseError {
    type V = ErrorText;

    open spec fn view(&self) -> ErrorText {
        ErrorText {
            message: self.message@,
            hint: match self.hint {
                Some(h) => Some(h@),
                None => None,
            },
        }
    }
}

/// A computed outcome agrees with the specified one, errors compared by
/// their text.
pub open spec fn same_outcome<T>(r: Result<T, ParseError>, s: Result<T, ErrorText>) -> bool {
    match (r, s) {
        (Ok(a), Ok(b)) => a == b,
        (Err(e), Err(t)) => e@ == t,
        _ => false,
    }
}

/// An error from literal message and hint texts.
pub fn error_with_hint(message: &str, hint: &str) -> (e: ParseError)
    ensures
        e@ == error_text(message@, Some(hint@)),
{
    let m = chars_of(message);
    let h = chars_of(hint);
    ParseError { message: crate::text::string_of(&m), hint: Some(crate::text::string_of(&h)) }
}

/// An error from a computed message and a literal hint.
pub fn error_chars(message: &Vec<char>, hint: Option<&str>) -> (e: ParseError)
    ensures
        e@ == error_text(
            message@,
            match hint {
                Some(h) => Some(h@),
                None => None,
            },
        ),
{
    let h = match hint {
        Some(h) => {
            let c = chars_of(h);
            Some(crate::text::string_of(&c))
        },
        None => None,
    };
    ParseError { message: crate::text::string_of(message), hint: h }
}

impl ParseError {
    pub fn new(message: String) -> (e: ParseError)
        ensures
            e.message@ == message@,
            e.hint is None,
    {
        ParseError { message, hint: None }
    }

    pub fn with_hint(self, hint: String) -> (e: ParseError)
        ensures
            e.message@ == self.message@,
            e.hint matches Some(h) && h@ == hint@,
    {
        ParseError { message: self.message, hint: Some(hint) }
    }
}

/// Frequency unit of a file column.
#[derive(Clone, Copy, Debug, PartialEq, Eq, Structural)]
pub enum FrequencyUnit {
    Hz,
    KHz,
    MHz,
    GHz,
}

/// A unit word, compared after trimming and ASCII lowercasing.
pub open spec fn unit_of_token(token: Seq<char>) -> Option<FrequencyUnit> {
    let key = lower_seq(trim(token, Strip::Space));
    if key == "hz"@ {
        Some(FrequencyUnit::Hz)
    } else if key == "khz"@ {
        Some(FrequencyUnit::KHz)
    } else if key == "mhz"@ {
        Some(FrequencyUnit::MHz)
    } else if key == "ghz"@ {
        Some(FrequencyUnit::GHz)
    } else {
        None
    }
}

/// `w` stands in `l` at `p` with no ASCII letter or digit touching it.
pub open spec fn word_at(l: Seq<char>, w: Seq<char>, p: int) -> bool {
    &&& occurs_at(l, w, p)
    &&& (p == 0 || !is_alnum(l[p - 1]))
    &&& (p + w.len() == l.len() || !is_alnum(l[p + w.len()]))
}

pub open spec fn has_word(l: Seq<char>, w: Seq<char>) -> bool {
    exists|p: int| word_at(l, w, p)
}

/// The unit named by a standalone word in a longer header, preferring the
/// larger units.
pub open spec fn unit_in_text(text: Seq<char>) -> Option<FrequencyUnit> {
    let l = lower_seq(text);
    if has_word(l, "ghz"@) {
        Some(FrequencyUnit::GHz)
    } else if has_word(l, "mhz"@) {
        Some(FrequencyUnit::MHz)
    } else if has_word(l, "khz"@) {
        Some(FrequencyUnit::KHz)
    } else if has_word(l, "hz"@) {
        Some(FrequencyUnit::Hz)
    } else {
        None
    }
}

/// Looks for `lit` as a standalone word of `l`.
pub fn find_word(l: &Vec<char>, lit: &str) -> (found: bool)
    ensures
        found == has_word(l@, lit@),
{
    let w = chars_of(lit);
    if w.len() > l.len() {
        assert forall|p: int| !word_at(l@, w@, p) by {}
        return false;
    }
    let lim = l.len() - w.len();
    let mut p: usize = 0;
    loop
        invariant
            w@ == lit@,
            w.len() <= l.len(),
            lim == l.len() - w.len(),
            p <= lim,
            forall|q: int| 0 <= q < p ==> !word_at(l@, w@, q),
        ensures
            forall|q: int| 0 <= q <= lim ==> !word_at(l@, w@, q),
        decreases lim - p,
    {
        if occurs_at_exec(l, &w, p) {
            let before_ok = p == 0 || !char_is_alnum(l[p - 1]);
            let after_ok = p + w.len() == l.len() || !char_is_alnum(l[p + w.len()]);
            if before_ok && after_ok {
                assert(word_at(l@, w@, p as int));
                return true;
            }
        }
        if p == lim {
            break;
        }
        p += 1;
    }
    assert forall|q: int| !word_at(l@, w@, q) by {
        if 0 <= q && q + w.len() <= l.len() {
            assert(q <= lim);
        }
    }
    false
}

impl FrequencyUnit {
    /// Every unit, smallest first.
    pub fn all() -> (units: Vec<FrequencyUnit>)
        ensures
            units@ == seq![
                FrequencyUnit::Hz,
                FrequencyUnit::KHz,
                FrequencyUnit::MHz,
                FrequencyUnit::GHz,
            ],
    {
        let mut units = Vec::new();
        units.push(FrequencyUnit::Hz);
        units.push(FrequencyUnit::KHz);
        units.push(FrequencyUnit::MHz);
        units.push(FrequencyUnit::GHz);
        assert(units@ =~= seq![
            FrequencyUnit::Hz,
            FrequencyUnit::KHz,
            FrequencyUnit::MHz,
            FrequencyUnit::GHz,
        ]);
        units
    }

    pub open spec fn label_spec(self) -> Seq<char> {
        match self {
            FrequencyUnit::Hz => "Hz"@,
            FrequencyUnit::KHz => "kHz"@,
            FrequencyUnit::MHz => "MHz"@,
            FrequencyUnit::GHz => "GHz"@,
        }
    }

    pub fn label(self) -> (label: &'static str)
        ensures
            label@ == self.label_spec(),
    {
        match self {
            FrequencyUnit::Hz => "Hz",
            FrequencyUnit::KHz => "kHz",
            FrequencyUnit::MHz => "MHz",
            FrequencyUnit::GHz => "GHz",
        }
    }

    /// Parses a unit token such as `MHz` or `ghz`.
    pub fn parse(token: &str) -> (unit: Option<FrequencyUnit>)
        ensures
            unit == unit_of_token(token@),
    {
        let chars = chars_of(token);
        let key = lowercase(&strip(&chars, Strip::Space));
        if eq_str(&key, "hz") {
            Some(FrequencyUnit::Hz)
        } else if eq_str(&key, "khz") {
            Some(FrequencyUnit::KHz)
        } else if eq_str(&key, "mhz") {
            Some(FrequencyUnit::MHz)
        } else if eq_str(&key, "ghz") {
            Some(FrequencyUnit::GHz)
        } else {
            None
        }
    }

    /// Finds a unit word embedded in a longer header such as `freq (MHz)`.
    pub fn find_in(text: &str) -> (unit: Option<FrequencyUnit>)
        ensures
            unit == unit_in_text(text@),
    {
        let chars = chars_of(text);
        let l = lowercase(&chars);
        if find_word(&l, "ghz") {
            Some(FrequencyUnit::GHz)
        } else if find_word(&l, "mhz") {
            Some(FrequencyUnit::MHz)
        } else if find_word(&l, "khz") {
            Some(FrequencyUnit::KHz)
        } else if find_word(&l, "hz") {
            Some(FrequencyUnit::Hz)
        } else {
            None
        }
    }
}

/// A unit's label reads back as that unit, both as a unit token and as a
/// word in a header.
pub proof fn unit_labels_read_back(unit: FrequencyUnit)
    ensures
        unit_of_token(unit.label_spec()) == Some(unit),
        unit_in_text(unit.label_spec()) == Some(unit),
{
    reveal_strlit("Hz");
    reveal_strlit("kHz");
    reveal_strlit("MHz");
    reveal_strlit("GHz");
    reveal_strlit("hz");
    reveal_strlit("khz");
    reveal_strlit("mhz");
    reveal_strlit("ghz");
    let label = unit.label_spec();
    assert(trim_front(label, Strip::Space) == label);
    assert(trim_back(label, Strip::Space) == label);
    let l = lower_seq(label);
    assert(lower_seq(trim(label, Strip::Space)) == l);
    assert(l.subrange(0, l.len() as int) =~= l);
    match unit {
        FrequencyUnit::Hz => {
            assert(l =~= "hz"@);
            assert(lower_seq(trim(label, Strip::Space)) == "hz"@);
            assert(unit_of_token(label) == Some(FrequencyUnit::Hz));
            assert(word_at(l, "hz"@, 0));
        },
        FrequencyUnit::KHz => {
            assert(l =~= "khz"@);
            assert(l.len() == 3 && "hz"@.len() == 2);
            assert(unit_of_token(label) == Some(FrequencyUnit::KHz));
            assert(word_at(l, "khz"@, 0));
            assert forall|p: int| !word_at(l, "ghz"@, p) && !word_at(l, "mhz"@, p) by {
                if 0 <= p && p + 3 <= 3 {
                    assert(l.subrange(p, p + 3) =~= l);
                    assert(l[0] == 'k' && "ghz"@[0] == 'g' && "mhz"@[0] == 'm');
                }
            }
        },
        FrequencyUnit::MHz => {
            assert(l =~= "mhz"@);
            assert(l.len() == 3 && "hz"@.len() == 2);
            assert(l[0] == 'm' && "khz"@[0] == 'k');
            assert(unit_of_token(label) == Some(FrequencyUnit::MHz));
            assert(word_at(l, "mhz"@, 0));
            assert forall|p: int| !word_at(l, "ghz"@, p) by {
                if 0 <= p && p + 3 <= 3 {
                    assert(l.subrange(p, p + 3) =~= l);
                    assert(l[0] == 'm' && "ghz"@[0] == 'g');
                }
            }
        },
        FrequencyUnit::GHz => {
            assert(l =~= "ghz"@);
            assert(l.len() == 3 && "hz"@.len() == 2);
            assert(l[0] == 'g' && "khz"@[0] == 'k' && "mhz"@[0] == 'm');
            assert(unit_of_token(label) == Some(FrequencyUnit::GHz));
            assert(word_at(l, "ghz"@, 0));
        },
    }
}

// ---------------------------------------------------------------------------
// Port count from a file extension
// ---------------------------------------------------------------------------

/// Value of a string of decimal digits.
pub open spec fn decimal_value(s: Seq<char>) -> nat
    decreases s.len(),
{
    if s.len() == 0 {
        0
    } else {
        decimal_value(s.drop_last()) * 10 + ((s.last() as nat) - ('0' as nat)) as nat
    }
}

pub open spec fn all_digits(s: Seq<char>) -> bool {
    forall|i: int| 0 <= i < s.len() ==> is_digit(#[trigger] s[i])
}

/// What `str::parse::<u8>` returns: an optional `+`, then at least one
/// decimal digit, with a value that fits in a byte.
pub open spec fn parse_u8_spec(s: Seq<char>) -> Option<u8> {
    let body = if s.len() > 0 && s[0] == '+' {
        s.drop_first()
    } else {
        s
    };
    if body.len() > 0 && all_digits(body) && decimal_value(body) <= 255 {
        Some(decimal_value(body) as u8)
    } else {
        None
    }
}

proof fn lemma_decimal_prefix(s: Seq<char>, i: int)
    requires
        0 <= i <= s.len(),
        all_digits(s),
    ensures
        decimal_value(s.take(i)) <= decimal_value(s),
    decreases s.len(),
{
    if i < s.len() {
        assert(s.drop_last().take(i) =~= s.take(i));
        assert(is_digit(s[s.len() - 1]));
        lemma_decimal_prefix(s.drop_last(), i);
    } else {
        assert(s.take(i) =~= s);
    }
}

pub fn parse_u8(s: &Vec<char>) -> (v: Option<u8>)
    ensures
        v == parse_u8_spec(s@),
{
    let start: usize = if s.len() > 0 && s[0] == '+' {
        1
    } else {
        0
    };
    let body = copy_range(s, start, s.len());
    assert(body@ == (if s@.len() > 0 && s@[0] == '+' {
        s@.drop_first()
    } else {
        s@
    }));
    if body.len() == 0 {
        return None;
    }
    let mut i: usize = 0;
    while i < body.len()
        invariant
            i <= body.len(),
            body@ == (if s@.len() > 0 && s@[0] == '+' {
                s@.drop_first()
            } else {
                s@
            }),
            forall|j: int| 0 <= j < i ==> is_digit(body@[j]),
        decreases body.len() - i,
    {
        if !char_is_digit(body[i]) {
            assert(!is_digit(body@[i as int]));
            return None;
        }
        i += 1;
    }
    assert(all_digits(body@));
    let mut value: u32 = 0;
    let mut k: usize = 0;
    assert(body@.take(0) =~= Seq::<char>::empty());
    while k < body.len()
        invariant
            k <= body.len(),
            body.len() > 0,
            body@ == (if s@.len() > 0 && s@[0] == '+' {
                s@.drop_first()
            } else {
                s@
            }),
            all_digits(body@),
            value == decimal_value(body@.take(k as int)),
            value <= 255,
        decreases body.len() - k,
    {
        let d = body[k];
        assert(is_digit(body@[k as int]));
        assert(body@.take(k + 1).drop_last() =~= body@.take(k as int));
        value = value * 10 + ((d as u32) - ('0' as u32));
        k += 1;
        assert(body@.take(k as int).last() == d);
        assert(value == decimal_value(body@.take(k as int)));
        if value > 255 {
            proof {
                lemma_decimal_prefix(body@, k as int);
            }
            return None;
        }
    }
    assert(body@.take(k as int) =~= body@);
    Some(value as u8)
}

/// Extension of a name: the text after its last `.`, or all of it.
pub open spec fn extension_of(name: Seq<char>) -> Seq<char> {
    split_on(name, '.').last()
}

/// A string of decimal digits with a value that fits in a byte.
pub open spec fn decimal_u8(s: Seq<char>) -> Option<u8> {
    if s.len() > 0 && all_digits(s) && decimal_value(s) <= 255 {
        Some(decimal_value(s) as u8)
    } else {
        None
    }
}

/// Port count encoded in a Touchstone extension such as `.s2p`: the name
/// has a `.`, and the text after its last `.` is `s`, decimal digits, `p`.
pub open spec fn ports_from_name(lower_name: Seq<char>) -> Option<u8> {
    let ext = extension_of(lower_name);
    if lower_name.contains('.') && ext.len() >= 2 && ext[0] == 's' && ext.last() == 'p' {
        decimal_u8(ext.subrange(1, ext.len() - 1))
    } else {
        None
    }
}

proof fn lemma_split_nonempty(s: Seq<char>, c: char)
    ensures
        split_on(s, c).len() > 0,
    decreases s.len(),
{
    let k = crate::text::index_of(s, c);
    if !(k < 0 || k >= s.len()) {
        lemma_split_nonempty(s.skip(k + 1), c);
    }
}

/// Port count encoded in a Touchstone extension such as `.s2p`.
pub fn touchstone_ports_from_name(lower_name: &str) -> (ports: Option<u8>)
    ensures
        ports == ports_from_name(lower_name@),
{
    let chars = chars_of(lower_name);
    let pieces = split_char(&chars, '.');
    proof {
        lemma_split_nonempty(chars@, '.');
        assert(pieces@.map_values(|v: Vec<char>| v@).len() == pieces@.len());
    }
    let ext = &pieces[pieces.len() - 1];
    assert(ext@ == extension_of(lower_name@)) by {
        assert(pieces@.map_values(|v: Vec<char>| v@)[pieces.len() - 1] == ext@);
    }
    if has_char(&chars, '.') && ext.len() >= 2 && ext[0] == 's' && ext[ext.len() - 1] == 'p' {
        let digits = copy_range(ext, 1, ext.len() - 1);
        if digits.len() > 0 && digits[0] == '+' {
            assert(!is_digit(digits@[0]));
            return None;
        }
        parse_u8(&digits)
    } else {
        None
    }
}

// ---------------------------------------------------------------------------
// Format detection
// ---------------------------------------------------------------------------

/// File format inferred from a name or from pasted content.
#[derive(Clone, Copy, Debug, PartialEq, Eq, Structural)]
pub enum DetectedFormat {
    /// Touchstone with the port count from the extension when known.
    Touchstone { ports: Option<u8> },
    /// Delimited table.
    Csv,
}

/// A line whose first non-blank character is `#`, `!` or `[`.
pub open spec fn marks_touchstone(line: Seq<char>) -> bool {
    let l = trim_front(line, Strip::Space);
    l.len() > 0 && (l[0] == '#' || l[0] == '!' || l[0] == '[')
}

/// One of the first 64 lines marks Touchstone.
pub open spec fn looks_touchstone(text: Seq<char>) -> bool {
    exists|i: int| 0 <= i < 64 && i < lines_of(text).len() && marks_touchstone(lines_of(text)[i])
}

pub open spec fn format_of_text(text: Seq<char>) -> DetectedFormat {
    if looks_touchstone(text) {
        DetectedFormat::Touchstone { ports: None }
    } else {
        DetectedFormat::Csv
    }
}

/// The format a file name declares, if it declares one.
pub open spec fn format_of_name(name: Seq<char>) -> Option<DetectedFormat> {
    let lower = lower_seq(name);
    if ports_from_name(lower) is Some {
        Some(DetectedFormat::Touchstone { ports: ports_from_name(lower) })
    } else if has_suffix(lower, ".ts"@) {
        Some(DetectedFormat::Touchstone { ports: None })
    } else if has_suffix(lower, ".csv"@) || has_suffix(lower, ".tsv"@) || has_suffix(
        lower,
        ".txt"@,
    ) {
        Some(DetectedFormat::Csv)
    } else {
        None
    }
}

/// The name decides when it declares a format; otherwise the first lines do.
pub open spec fn format_of(name: Option<Seq<char>>, text: Seq<char>) -> DetectedFormat {
    match name {
        Some(n) => match format_of_name(n) {
            Some(f) => f,
            None => format_of_text(text),
        },
        None => format_of_text(text),
    }
}

proof fn lemma_index_of_first(s: Seq<char>, c: char)
    ensures
        index_of(s, c) >= 0 ==> index_of(s, c) < s.len() && s[index_of(s, c)] == c && forall|j: int|
            0 <= j < index_of(s, c) ==> s[j] != c,
        index_of(s, c) < 0 ==> forall|j: int| 0 <= j < s.len() ==> s[j] != c,
    decreases s.len(),
{
    if s.len() > 0 && s[0] != c {
        let rest = s.drop_first();
        lemma_index_of_first(rest, c);
        assert forall|j: int| 0 < j < s.len() implies s[j] == rest[j - 1] by {}
    }
}

proof fn lemma_trim_leading_blanks(s: Seq<char>, p: int)
    requires
        0 <= p < s.len(),
        forall|q: int| 0 <= q < p ==> s[q] == ' ' || s[q] == '\t',
        !is_space(s[p]),
    ensures
        trim_front(s, Strip::Space) == s.skip(p),
    decreases p,
{
    if p > 0 {
        let rest = s.drop_first();
        assert forall|q: int| 0 <= q < p - 1 implies rest[q] == ' ' || rest[q] == '\t' by {
            assert(rest[q] == s[q + 1]);
        }
        assert(rest[p - 1] == s[p]);
        lemma_trim_leading_blanks(rest, p - 1);
        assert(rest.skip(p - 1) =~= s.skip(p));
    } else {
        assert(s.skip(0) =~= s);
    }
}

/// Text whose first line starts, after spaces or tabs, with `#`, `!` or
/// `[` is Touchstone with no port count, unless the file name declares a
/// format.
pub proof fn marked_first_line_is_touchstone(name: Option<Seq<char>>, text: Seq<char>, p: int)
    requires
        name matches Some(n) ==> format_of_name(n) is None,
        0 <= p < text.len(),
        forall|q: int| 0 <= q < p ==> text[q] == ' ' || text[q] == '\t',
        text[p] == '#' || text[p] == '!' || text[p] == '[',
    ensures
        format_of(name, text) == (DetectedFormat::Touchstone { ports: None }),
{
    lemma_index_of_first(text, '\n');
    let k = index_of(text, '\n');
    let first = lines_of(text)[0];
    if k >= 0 {
        assert(k > p) by {
            if k <= p {
                assert(text[k] == '\n');
            }
        }
        assert(first == strip_cr(text.take(k)));
    } else {
        assert(first == text);
    }
    assert(first.len() > p && forall|q: int| 0 <= q <= p ==> first[q] == text[q]);
    lemma_trim_leading_blanks(first, p);
    assert(marks_touchstone(first));
    assert(looks_touchstone(text));
}

/// Text with a line among its first 64 that starts, after spaces or tabs,
/// with `#`, `!` or `[` is Touchstone with no port count, unless the file
/// name declares a format.
pub proof fn marked_early_line_is_touchstone(
    name: Option<Seq<char>>,
    text: Seq<char>,
    i: int,
    p: int,
)
    requires
        name matches Some(n) ==> format_of_name(n) is None,
        0 <= i < 64,
        i < lines_of(text).len(),
        0 <= p < lines_of(text)[i].len(),
        forall|q: int| 0 <= q < p ==> lines_of(text)[i][q] == ' ' || lines_of(text)[i][q] == '\t',
        lines_of(text)[i][p] == '#' || lines_of(text)[i][p] == '!' || lines_of(text)[i][p] == '[',
    ensures
        format_of(name, text) == (DetectedFormat::Touchstone { ports: None }),
{
    let line = lines_of(text)[i];
    lemma_trim_leading_blanks(line, p);
    assert(marks_touchstone(line));
    assert(looks_touchstone(text));
}

fn sniff_format(text: &str) -> (f: DetectedFormat)
    ensures
        f == format_of_text(text@),
{
    let chars = chars_of(text);
    let all = lines(&chars);
    let ghost ls = all@.map_values(|v: Vec<char>| v@);
    assert(ls.len() == all.len());
    let mut i: usize = 0;
    while i < all.len() && i < 64
        invariant
            ls == lines_of(text@),
            ls == all@.map_values(|v: Vec<char>| v@),
            i <= all.len(),
            forall|j: int| 0 <= j < i ==> !marks_touchstone(#[trigger] ls[j]),
        decreases all.len() - i,
    {
        let line = strip_front(&all[i], Strip::Space);
        assert(ls[i as int] == all@[i as int]@);
        if line.len() > 0 && (line[0] == '#' || line[0] == '!' || line[0] == '[') {
            assert(marks_touchstone(ls[i as int]));
            return DetectedFormat::Touchstone { ports: None };
        }
        i += 1;
    }
    assert(!looks_touchstone(text@)) by {
        if looks_touchstone(text@) {
            let j = choose|j: int|
                0 <= j < 64 && j < lines_of(text@).len() && marks_touchstone(lines_of(text@)[j]);
            assert(j < i);
        }
    }
    DetectedFormat::Csv
}

/// Detects the most likely format from the file name and the first lines.
pub fn detect_format(file_name: Option<&str>, text: &str) -> (f: DetectedFormat)
    ensures
        f == format_of(
            match file_name {
                Some(n) => Some(n@),
                None => None,
            },
            text@,
        ),
{
    if let Some(name) = file_name {
        let chars = chars_of(name);
        let lower = lowercase(&chars);
        let lower_name = crate::text::string_of(&lower);
        if let Some(ports) = touchstone_ports_from_name(lower_name.as_str()) {
            return DetectedFormat::Touchstone { ports: Some(ports) };
        }
        if ends_with_str(&lower, ".ts") {
            return DetectedFormat::Touchstone { ports: None };
        }
        if ends_with_str(&lower, ".csv") || ends_with_str(&lower, ".tsv") || ends_with_str(
            &lower,
            ".txt",
        ) {
            return DetectedFormat::Csv;
        }
    }
    sniff_format(text)
}

} // verus!
