//! Delimited-table reader: finds the data lines, splits them into cells, and
//! assigns roles to the columns from the header.
//!
//! Turning cells into numbers is left to the caller; this module decides the
//! layout of the table and explains what is missing when it cannot.

use crate::dataset::TraceOrigin;
use crate::parse::{
    ErrorText, FrequencyUnit, ParseError, error_chars, error_text, error_with_hint,
    same_outcome, unit_in_text,
};
use crate::parse::number::{is_float, is_float_text};
use crate::text::{
    Strip, char_is_alnum, chars_of, contains_seq, contains_str, copy_range, decimal_chars,
    decimal_text, eq_str, has_char, has_prefix, has_suffix, is_alnum, join_chars, join_seq, lines,
    lines_of, lower_seq, lowercase, remove_all, remove_char, remove_char_exec, remove_str,
    split_char, split_on, split_words, starts_with_str, ends_with_str, string_of, strip,
    strip_front, trim, trim_front, words,
};
use vstd::prelude::*;

verus! {

/// Which value columns were recognized.
#[derive(Clone, Copy, Debug, PartialEq, Eq, Structural)]
pub enum ValueColumns {
    /// Resistance and reactance in ohms.
    Impedance { resistance: usize, reactance: usize },
    /// Reflection coefficient as real and imaginary parts.
    ReflectionRealImaginary { real: usize, imaginary: usize },
    /// Reflection coefficient as magnitude (linear or dB) and phase.
    ReflectionPolar { magnitude: usize, phase: usize, decibel: bool, radians: bool },
}

impl ValueColumns {
    pub open spec fn describe_spec(self) -> Seq<char> {
        match self {
            ValueColumns::Impedance { .. } => "R、X 阻抗列"@,
            ValueColumns::ReflectionRealImaginary { .. } => "反射系数实部、虚部列"@,
            ValueColumns::ReflectionPolar { decibel, .. } => if decibel {
                "反射系数 dB 幅度与相位列"@
            } else {
                "反射系数幅度与相位列"@
            },
        }
    }

    pub fn describe(self) -> (text: &'static str)
        ensures
            text@ == self.describe_spec(),
    {
        match self {
            ValueColumns::Impedance { .. } => "R、X 阻抗列",
            ValueColumns::ReflectionRealImaginary { .. } => "反射系数实部、虚部列",
            ValueColumns::ReflectionPolar { decibel: true, .. } => "反射系数 dB 幅度与相位列",
            ValueColumns::ReflectionPolar { .. } => "反射系数幅度与相位列",
        }
    }

    pub open spec fn is_reflection_spec(self) -> bool {
        !(self is Impedance)
    }

    pub fn is_reflection(self) -> (reflection: bool)
        ensures
            reflection == self.is_reflection_spec(),
    {
        match self {
            ValueColumns::Impedance { .. } => false,
            _ => true,
        }
    }
}

/// What a header cell names.
#[derive(Clone, Copy, Debug, PartialEq, Eq, Structural)]
pub enum Role {
    Frequency,
    Resistance,
    Reactance,
    GammaReal,
    GammaImaginary,
    GammaMagnitude,
    GammaDecibel,
    GammaPhase,
    MagnitudeOnly,
    Reference,
    Unknown,
}

// ---------------------------------------------------------------------------
// Header normalization
// ---------------------------------------------------------------------------

pub open spec fn is_open_bracket(c: char) -> bool {
    c == '(' || c == '[' || c == '{'
}

pub open spec fn is_close_bracket(c: char) -> bool {
    c == ')' || c == ']' || c == '}'
}

/// The characters outside any bracket pair, scanning from the front at
/// nesting depth `depth`; a closing bracket never takes the depth below 0.
pub open spec fn outside_brackets(s: Seq<char>, depth: nat) -> Seq<char>
    decreases s.len(),
{
    if s.len() == 0 {
        Seq::empty()
    } else {
        let c = s[0];
        let rest = s.drop_first();
        if is_open_bracket(c) {
            outside_brackets(rest, depth + 1)
        } else if is_close_bracket(c) {
            outside_brackets(
                rest,
                if depth > 0 {
                    (depth - 1) as nat
                } else {
                    0
                },
            )
        } else if depth == 0 {
            seq![c] + outside_brackets(rest, 0)
        } else {
            outside_brackets(rest, depth)
        }
    }
}

fn strip_brackets(s: &Vec<char>) -> (out: Vec<char>)
    ensures
        out@ == outside_brackets(s@, 0),
{
    let mut out: Vec<char> = Vec::new();
    let mut depth: usize = 0;
    let mut i: usize = 0;
    assert(s@.skip(0) =~= s@);
    while i < s.len()
        invariant
            i <= s.len(),
            depth <= i,
            outside_brackets(s@, 0) == out@ + outside_brackets(s@.skip(i as int), depth as nat),
        decreases s.len() - i,
    {
        let c = s[i];
        let ghost rest = s@.skip(i as int);
        assert(rest[0] == c);
        assert(rest.drop_first() =~= s@.skip(i + 1));
        if c == '(' || c == '[' || c == '{' {
            depth += 1;
        } else if c == ')' || c == ']' || c == '}' {
            if depth > 0 {
                depth -= 1;
            }
        } else if depth == 0 {
            assert(out@.push(c) + outside_brackets(s@.skip(i + 1), 0) =~= out@ + (seq![c]
                + outside_brackets(s@.skip(i + 1), 0)));
            out.push(c);
        }
        i += 1;
    }
    assert(out@ + outside_brackets(s@.skip(i as int), depth as nat) =~= out@);
    out
}

/// The characters inside bracket pairs, the brackets themselves dropped,
/// scanning from the front at nesting depth `depth`.
pub open spec fn inside_brackets(s: Seq<char>, depth: nat) -> Seq<char>
    decreases s.len(),
{
    if s.len() == 0 {
        Seq::empty()
    } else {
        let c = s[0];
        let rest = s.drop_first();
        if is_open_bracket(c) {
            inside_brackets(rest, depth + 1)
        } else if is_close_bracket(c) {
            inside_brackets(
                rest,
                if depth > 0 {
                    (depth - 1) as nat
                } else {
                    0
                },
            )
        } else if depth > 0 {
            seq![c] + inside_brackets(rest, depth)
        } else {
            inside_brackets(rest, 0)
        }
    }
}

fn keep_bracketed(s: &Vec<char>) -> (out: Vec<char>)
    ensures
        out@ == inside_brackets(s@, 0),
{
    let mut out: Vec<char> = Vec::new();
    let mut depth: usize = 0;
    let mut i: usize = 0;
    assert(s@.skip(0) =~= s@);
    while i < s.len()
        invariant
            i <= s.len(),
            depth <= i,
            inside_brackets(s@, 0) == out@ + inside_brackets(s@.skip(i as int), depth as nat),
        decreases s.len() - i,
    {
        let c = s[i];
        let ghost rest = s@.skip(i as int);
        assert(rest[0] == c);
        assert(rest.drop_first() =~= s@.skip(i + 1));
        if c == '(' || c == '[' || c == '{' {
            depth += 1;
        } else if c == ')' || c == ']' || c == '}' {
            if depth > 0 {
                depth -= 1;
            }
        } else if depth > 0 {
            assert(out@.push(c) + inside_brackets(s@.skip(i + 1), depth as nat) =~= out@ + (seq![c]
                + inside_brackets(s@.skip(i + 1), depth as nat)));
            out.push(c);
        }
        i += 1;
    }
    assert(out@ + inside_brackets(s@.skip(i as int), depth as nat) =~= out@);
    out
}

pub open spec fn alnum_only(s: Seq<char>) -> Seq<char> {
    s.filter(|c: char| is_alnum(c))
}

fn keep_alnum(s: &Vec<char>) -> (out: Vec<char>)
    ensures
        out@ == alnum_only(s@),
{
    let mut out: Vec<char> = Vec::new();
    let mut i: usize = 0;
    while i < s.len()
        invariant
            i <= s.len(),
            out@ == alnum_only(s@.take(i as int)),
        decreases s.len() - i,
    {
        assert(s@.take(i + 1).drop_last() =~= s@.take(i as int));
        reveal_with_fuel(Seq::filter, 1);
        if char_is_alnum(s[i]) {
            out.push(s[i]);
        }
        i += 1;
    }
    assert(s@.take(i as int) =~= s@);
    out
}

/// A header cell reduced to its key: ASCII lowercase, bracketed parts and
/// unit words removed, only letters and digits kept.
pub open spec fn normalize_spec(name: Seq<char>) -> Seq<char> {
    let stripped = outside_brackets(lower_seq(name), 0);
    let a = remove_all(stripped, "ohms"@);
    let b = remove_all(a, "ohm"@);
    let c = remove_char(b, '\u{3a9}');
    let d = remove_all(c, "ghz"@);
    let e = remove_all(d, "mhz"@);
    let f = remove_all(e, "khz"@);
    let g = remove_all(f, "hz"@);
    alnum_only(g)
}

/// Normalizes a header cell: lowercase, units and decorations removed.
pub fn normalize(name: &Vec<char>) -> (key: Vec<char>)
    ensures
        key@ == normalize_spec(name@),
{
    proof {
        reveal_strlit("ohms");
        reveal_strlit("ohm");
        reveal_strlit("ghz");
        reveal_strlit("mhz");
        reveal_strlit("khz");
        reveal_strlit("hz");
    }
    let lower = lowercase(name);
    let stripped = strip_brackets(&lower);
    let a = remove_str(&stripped, "ohms");
    let b = remove_str(&a, "ohm");
    let c = remove_char_exec(&b, '\u{3a9}');
    let d = remove_str(&c, "ghz");
    let e = remove_str(&d, "mhz");
    let f = remove_str(&e, "khz");
    let g = remove_str(&f, "hz");
    keep_alnum(&g)
}

// ---------------------------------------------------------------------------
// Column roles
// ---------------------------------------------------------------------------

/// Role of a normalized header named exactly by one of the known words.
pub open spec fn key_role(key: Seq<char>) -> Option<Role> {
    if key == "f"@ || key == "freq"@ || key == "frequency"@ {
        Some(Role::Frequency)
    } else if key == "r"@ || key == "re"@ || key == "real"@ || key == "res"@ || key == "resistance"@ || key == "rez"@ || key == "zre"@ || key == "zreal"@ || key == "realz"@ || key == "zr"@ || key == "rz"@ {
        Some(Role::Resistance)
    } else if key == "x"@ || key == "im"@ || key == "imag"@ || key == "imaginary"@ || key == "reactance"@ || key == "imz"@ || key == "zim"@ || key == "zimag"@ || key == "imagz"@ || key == "zx"@ || key == "xz"@ {
        Some(Role::Reactance)
    } else if key == "z0"@ || key == "zref"@ || key == "zo"@ || key == "ref"@ || key == "reference"@ {
        Some(Role::Reference)
    } else if key == "vswr"@ || key == "swr"@ || key == "rl"@ || key == "returnloss"@ {
        Some(Role::MagnitudeOnly)
    } else if key == "mag"@ || key == "magnitude"@ || key == "abs"@ {
        Some(Role::GammaMagnitude)
    } else if key == "db"@ {
        Some(Role::GammaDecibel)
    } else if key == "phase"@ || key == "ang"@ || key == "angle"@ || key == "deg"@ || key == "arg"@ || key == "ph"@ || key == "theta"@ {
        Some(Role::GammaPhase)
    } else {
        None
    }
}

fn key_role_exec(key: &Vec<char>) -> (role: Option<Role>)
    ensures
        role == key_role(key@),
{
    if eq_str(key, "f") || eq_str(key, "freq") || eq_str(key, "frequency") {
        Some(Role::Frequency)
    } else if eq_str(key, "r") || eq_str(key, "re") || eq_str(key, "real") || eq_str(key, "res") || eq_str(key, "resistance") || eq_str(key, "rez") || eq_str(key, "zre") || eq_str(key, "zreal") || eq_str(key, "realz") || eq_str(key, "zr") || eq_str(key, "rz") {
        Some(Role::Resistance)
    } else if eq_str(key, "x") || eq_str(key, "im") || eq_str(key, "imag") || eq_str(key, "imaginary") || eq_str(key, "reactance") || eq_str(key, "imz") || eq_str(key, "zim") || eq_str(key, "zimag") || eq_str(key, "imagz") || eq_str(key, "zx") || eq_str(key, "xz") {
        Some(Role::Reactance)
    } else if eq_str(key, "z0") || eq_str(key, "zref") || eq_str(key, "zo") || eq_str(key, "ref") || eq_str(key, "reference") {
        Some(Role::Reference)
    } else if eq_str(key, "vswr") || eq_str(key, "swr") || eq_str(key, "rl") || eq_str(key, "returnloss") {
        Some(Role::MagnitudeOnly)
    } else if eq_str(key, "mag") || eq_str(key, "magnitude") || eq_str(key, "abs") {
        Some(Role::GammaMagnitude)
    } else if eq_str(key, "db") {
        Some(Role::GammaDecibel)
    } else if eq_str(key, "phase") || eq_str(key, "ang") || eq_str(key, "angle") || eq_str(key, "deg") || eq_str(key, "arg") || eq_str(key, "ph") || eq_str(key, "theta") {
        Some(Role::GammaPhase)
    } else {
        None
    }
}

/// Role of what follows a reflection prefix such as `s11`.
pub open spec fn prefix_rest_role(rest: Seq<char>) -> Role {
    if rest == "re"@ || rest == "real"@ {
        Role::GammaReal
    } else if rest == "im"@ || rest == "imag"@ || rest == "imaginary"@ {
        Role::GammaImaginary
    } else if rest.len() == 0 || rest == "mag"@ || rest == "magnitude"@ || rest == "abs"@ || rest == "m"@ {
        Role::GammaMagnitude
    } else if rest == "db"@ || rest == "logmag"@ {
        Role::GammaDecibel
    } else if rest == "ang"@ || rest == "angle"@ || rest == "phase"@ || rest == "deg"@ || rest == "arg"@ || rest == "ph"@ || rest == "rad"@ {
        Role::GammaPhase
    } else {
        Role::Unknown
    }
}

fn prefix_rest_role_exec(rest: &Vec<char>) -> (role: Role)
    ensures
        role == prefix_rest_role(rest@),
{
    if eq_str(rest, "re") || eq_str(rest, "real") {
        Role::GammaReal
    } else if eq_str(rest, "im") || eq_str(rest, "imag") || eq_str(rest, "imaginary") {
        Role::GammaImaginary
    } else if rest.len() == 0 || eq_str(rest, "mag") || eq_str(rest, "magnitude") || eq_str(rest, "abs") || eq_str(rest, "m") {
        Role::GammaMagnitude
    } else if eq_str(rest, "db") || eq_str(rest, "logmag") {
        Role::GammaDecibel
    } else if eq_str(rest, "ang") || eq_str(rest, "angle") || eq_str(rest, "phase") || eq_str(rest, "deg") || eq_str(rest, "arg") || eq_str(rest, "ph") || eq_str(rest, "rad") {
        Role::GammaPhase
    } else {
        Role::Unknown
    }
}

/// Role of what precedes a reflection suffix such as `s11`.
pub open spec fn suffix_rest_role(rest: Seq<char>) -> Role {
    if rest == "re"@ || rest == "real"@ {
        Role::GammaReal
    } else if rest == "im"@ || rest == "imag"@ || rest == "imaginary"@ {
        Role::GammaImaginary
    } else if rest == "mag"@ || rest == "magnitude"@ || rest == "abs"@ {
        Role::GammaMagnitude
    } else if rest == "db"@ {
        Role::GammaDecibel
    } else if rest == "ang"@ || rest == "angle"@ || rest == "phase"@ || rest == "deg"@ || rest == "arg"@ {
        Role::GammaPhase
    } else {
        Role::Unknown
    }
}

fn suffix_rest_role_exec(rest: &Vec<char>) -> (role: Role)
    ensures
        role == suffix_rest_role(rest@),
{
    if eq_str(rest, "re") || eq_str(rest, "real") {
        Role::GammaReal
    } else if eq_str(rest, "im") || eq_str(rest, "imag") || eq_str(rest, "imaginary") {
        Role::GammaImaginary
    } else if eq_str(rest, "mag") || eq_str(rest, "magnitude") || eq_str(rest, "abs") {
        Role::GammaMagnitude
    } else if eq_str(rest, "db") {
        Role::GammaDecibel
    } else if eq_str(rest, "ang") || eq_str(rest, "angle") || eq_str(rest, "phase") || eq_str(rest, "deg") || eq_str(rest, "arg") {
        Role::GammaPhase
    } else {
        Role::Unknown
    }
}


/// The role a reflection prefix or suffix `p` gives the key, if the key
/// starts or ends with it.
pub open spec fn affix_role(key: Seq<char>, p: Seq<char>) -> Option<Role> {
    if has_prefix(key, p) {
        Some(prefix_rest_role(key.skip(p.len() as int)))
    } else if has_suffix(key, p) {
        Some(suffix_rest_role(key.take(key.len() - p.len())))
    } else {
        None
    }
}

fn affix_role_exec(key: &Vec<char>, p: &str) -> (role: Option<Role>)
    ensures
        role == affix_role(key@, p@),
{
    let pc = chars_of(p);
    if starts_with_str(key, p) {
        let rest = copy_range(key, pc.len(), key.len());
        assert(rest@ =~= key@.skip(p@.len() as int));
        Some(prefix_rest_role_exec(&rest))
    } else if ends_with_str(key, p) {
        let rest = copy_range(key, 0, key.len() - pc.len());
        assert(rest@ =~= key@.take(key@.len() - p@.len()));
        Some(suffix_rest_role_exec(&rest))
    } else {
        None
    }
}

/// The first reflection prefix or suffix the key carries, tried in the order
/// `gamma`, `s11`, `s22`, `refl`, `reflection`, `s`.
pub open spec fn affix_chain(key: Seq<char>) -> Option<Role> {
    if affix_role(key, "gamma"@) is Some {
        affix_role(key, "gamma"@)
    } else if affix_role(key, "s11"@) is Some {
        affix_role(key, "s11"@)
    } else if affix_role(key, "s22"@) is Some {
        affix_role(key, "s22"@)
    } else if affix_role(key, "refl"@) is Some {
        affix_role(key, "refl"@)
    } else if affix_role(key, "reflection"@) is Some {
        affix_role(key, "reflection"@)
    } else {
        affix_role(key, "s"@)
    }
}

/// A header written with bars, such as `|S11|`, names a magnitude.
pub open spec fn names_magnitude_bars(lower: Seq<char>) -> bool {
    contains_seq(lower, "|s11|"@) || contains_seq(lower, "|s22|"@) || contains_seq(
        lower,
        "|gamma|"@,
    ) || contains_seq(lower, "|\u{3b3}|"@)
}

/// The bracketed part of a header names a reflection coefficient, as in
/// `Re(S11)` or `Im(Γ)`.
pub open spec fn names_reflection_inside(name: Seq<char>) -> bool {
    let inner = inside_brackets(lower_seq(name), 0);
    let key = alnum_only(inner);
    ||| key == "s11"@
    ||| key == "s22"@
    ||| key == "gamma"@
    ||| key == "refl"@
    ||| key == "reflection"@
    ||| inner.contains('\u{3b3}')
    ||| inner.contains('\u{393}')
}

/// The part of a complex value a header key names.
pub open spec fn part_role(key: Seq<char>) -> Option<Role> {
    if key == "re"@ || key == "real"@ {
        Some(Role::GammaReal)
    } else if key == "im"@ || key == "imag"@ || key == "imaginary"@ {
        Some(Role::GammaImaginary)
    } else if key == "mag"@ || key == "magnitude"@ || key == "abs"@ {
        Some(Role::GammaMagnitude)
    } else {
        None
    }
}

fn part_role_exec(key: &Vec<char>) -> (role: Option<Role>)
    ensures
        role == part_role(key@),
{
    if eq_str(key, "re") || eq_str(key, "real") {
        Some(Role::GammaReal)
    } else if eq_str(key, "im") || eq_str(key, "imag") || eq_str(key, "imaginary") {
        Some(Role::GammaImaginary)
    } else if eq_str(key, "mag") || eq_str(key, "magnitude") || eq_str(key, "abs") {
        Some(Role::GammaMagnitude)
    } else {
        None
    }
}

fn names_reflection_inside_exec(name: &Vec<char>) -> (b: bool)
    ensures
        b == names_reflection_inside(name@),
{
    let inner = keep_bracketed(&lowercase(name));
    let key = keep_alnum(&inner);
    eq_str(&key, "s11") || eq_str(&key, "s22") || eq_str(&key, "gamma") || eq_str(&key, "refl")
        || eq_str(&key, "reflection") || has_char(&inner, '\u{3b3}') || has_char(&inner, '\u{393}')
}

/// The role of a header cell. A part of a bracketed reflection, as in
/// `Re(S11)`, names that part of the reflection coefficient.
pub open spec fn role_spec(name: Seq<char>) -> Role {
    let key = normalize_spec(name);
    if names_reflection_inside(name) && part_role(key) is Some {
        part_role(key)->0
    } else if key_role(key) is Some {
        key_role(key)->0
    } else if affix_chain(key) is Some {
        affix_chain(key)->0
    } else if names_magnitude_bars(lower_seq(name)) {
        Role::GammaMagnitude
    } else {
        Role::Unknown
    }
}

pub fn role_of(name: &Vec<char>) -> (role: Role)
    ensures
        role == role_spec(name@),
{
    let key = normalize(name);
    if names_reflection_inside_exec(name) {
        if let Some(role) = part_role_exec(&key) {
            return role;
        }
    }
    if let Some(role) = key_role_exec(&key) {
        return role;
    }
    let chain = if let Some(r) = affix_role_exec(&key, "gamma") {
        Some(r)
    } else if let Some(r) = affix_role_exec(&key, "s11") {
        Some(r)
    } else if let Some(r) = affix_role_exec(&key, "s22") {
        Some(r)
    } else if let Some(r) = affix_role_exec(&key, "refl") {
        Some(r)
    } else if let Some(r) = affix_role_exec(&key, "reflection") {
        Some(r)
    } else {
        affix_role_exec(&key, "s")
    };
    assert(chain == affix_chain(key@));
    if let Some(role) = chain {
        return role;
    }
    let lower = lowercase(name);
    if contains_str(&lower, "|s11|") || contains_str(&lower, "|s22|") || contains_str(
        &lower,
        "|gamma|",
    ) || contains_str(&lower, "|\u{3b3}|") {
        Role::GammaMagnitude
    } else {
        Role::Unknown
    }
}


/// The header vocabulary: a cell whose key is one of these words names the
/// column it says. `re`, `real`, `im`, `imag` and `imaginary` name the
/// impedance's resistance and reactance, or the parts of the reflection
/// coefficient when the cell names one in brackets, as in `Re(S11)`.
pub proof fn header_words_name_their_columns(name: Seq<char>, key: Seq<char>)
    requires
        key == normalize_spec(name),
    ensures
        (key == "f"@
            || key == "freq"@
            || key == "frequency"@
        ) ==> role_spec(name) == Role::Frequency,
        (key == "r"@
            || key == "res"@
            || key == "resistance"@
            || key == "rez"@
            || key == "zre"@
            || key == "zreal"@
            || key == "realz"@
            || key == "zr"@
            || key == "rz"@
        ) ==> role_spec(name) == Role::Resistance,
        (key == "x"@
            || key == "reactance"@
            || key == "imz"@
            || key == "zim"@
            || key == "zimag"@
            || key == "imagz"@
            || key == "zx"@
            || key == "xz"@
        ) ==> role_spec(name) == Role::Reactance,
        (key == "z0"@
            || key == "zref"@
            || key == "zo"@
            || key == "ref"@
            || key == "reference"@
        ) ==> role_spec(name) == Role::Reference,
        (key == "vswr"@
            || key == "swr"@
            || key == "rl"@
            || key == "returnloss"@
        ) ==> role_spec(name) == Role::MagnitudeOnly,
        (key == "mag"@
            || key == "magnitude"@
            || key == "abs"@
        ) ==> role_spec(name) == Role::GammaMagnitude,
        (key == "db"@) ==> role_spec(name) == Role::GammaDecibel,
        (key == "phase"@
            || key == "ang"@
            || key == "angle"@
            || key == "deg"@
            || key == "arg"@
            || key == "ph"@
            || key == "theta"@
        ) ==> role_spec(name) == Role::GammaPhase,
        (key == "re"@ || key == "real"@) ==> role_spec(name) == (if names_reflection_inside(name) {
            Role::GammaReal
        } else {
            Role::Resistance
        }),
        (key == "im"@ || key == "imag"@ || key == "imaginary"@) ==> role_spec(name) == (if names_reflection_inside(name) {
            Role::GammaImaginary
        } else {
            Role::Reactance
        }),
{
    reveal_strlit("f");
    reveal_strlit("freq");
    reveal_strlit("frequency");
    reveal_strlit("r");
    reveal_strlit("res");
    reveal_strlit("resistance");
    reveal_strlit("rez");
    reveal_strlit("zre");
    reveal_strlit("zreal");
    reveal_strlit("realz");
    reveal_strlit("zr");
    reveal_strlit("rz");
    reveal_strlit("x");
    reveal_strlit("reactance");
    reveal_strlit("imz");
    reveal_strlit("zim");
    reveal_strlit("zimag");
    reveal_strlit("imagz");
    reveal_strlit("zx");
    reveal_strlit("xz");
    reveal_strlit("z0");
    reveal_strlit("zref");
    reveal_strlit("zo");
    reveal_strlit("ref");
    reveal_strlit("reference");
    reveal_strlit("vswr");
    reveal_strlit("swr");
    reveal_strlit("rl");
    reveal_strlit("returnloss");
    reveal_strlit("mag");
    reveal_strlit("magnitude");
    reveal_strlit("abs");
    reveal_strlit("db");
    reveal_strlit("phase");
    reveal_strlit("ang");
    reveal_strlit("angle");
    reveal_strlit("deg");
    reveal_strlit("arg");
    reveal_strlit("ph");
    reveal_strlit("theta");
    reveal_strlit("re");
    reveal_strlit("real");
    reveal_strlit("im");
    reveal_strlit("imag");
    reveal_strlit("imaginary");
    if key == "f"@ {
        assert(key.len() == 1 && key[0] == 'f');
    }
    if key == "freq"@ {
        assert(key.len() == 4 && key[0] == 'f' && key[1] == 'r' && key[2] == 'e' && key[3] == 'q');
    }
    if key == "frequency"@ {
        assert(key.len() == 9 && key[0] == 'f' && key[1] == 'r' && key[2] == 'e' && key[3] == 'q' && key[4] == 'u' && key[5] == 'e' && key[6] == 'n' && key[7] == 'c' && key[8] == 'y');
    }
    if key == "r"@ {
        assert(key.len() == 1 && key[0] == 'r');
    }
    if key == "res"@ {
        assert(key.len() == 3 && key[0] == 'r' && key[1] == 'e' && key[2] == 's');
    }
    if key == "resistance"@ {
        assert(key.len() == 10 && key[0] == 'r' && key[1] == 'e' && key[2] == 's' && key[3] == 'i' && key[4] == 's' && key[5] == 't' && key[6] == 'a' && key[7] == 'n' && key[8] == 'c' && key[9] == 'e');
    }
    if key == "rez"@ {
        assert(key.len() == 3 && key[0] == 'r' && key[1] == 'e' && key[2] == 'z');
    }
    if key == "zre"@ {
        assert(key.len() == 3 && key[0] == 'z' && key[1] == 'r' && key[2] == 'e');
    }
    if key == "zreal"@ {
        assert(key.len() == 5 && key[0] == 'z' && key[1] == 'r' && key[2] == 'e' && key[3] == 'a' && key[4] == 'l');
    }
    if key == "realz"@ {
        assert(key.len() == 5 && key[0] == 'r' && key[1] == 'e' && key[2] == 'a' && key[3] == 'l' && key[4] == 'z');
    }
    if key == "zr"@ {
        assert(key.len() == 2 && key[0] == 'z' && key[1] == 'r');
    }
    if key == "rz"@ {
        assert(key.len() == 2 && key[0] == 'r' && key[1] == 'z');
    }
    if key == "x"@ {
        assert(key.len() == 1 && key[0] == 'x');
    }
    if key == "reactance"@ {
        assert(key.len() == 9 && key[0] == 'r' && key[1] == 'e' && key[2] == 'a' && key[3] == 'c' && key[4] == 't' && key[5] == 'a' && key[6] == 'n' && key[7] == 'c' && key[8] == 'e');
    }
    if key == "imz"@ {
        assert(key.len() == 3 && key[0] == 'i' && key[1] == 'm' && key[2] == 'z');
    }
    if key == "zim"@ {
        assert(key.len() == 3 && key[0] == 'z' && key[1] == 'i' && key[2] == 'm');
    }
    if key == "zimag"@ {
        assert(key.len() == 5 && key[0] == 'z' && key[1] == 'i' && key[2] == 'm' && key[3] == 'a' && key[4] == 'g');
    }
    if key == "imagz"@ {
        assert(key.len() == 5 && key[0] == 'i' && key[1] == 'm' && key[2] == 'a' && key[3] == 'g' && key[4] == 'z');
    }
    if key == "zx"@ {
        assert(key.len() == 2 && key[0] == 'z' && key[1] == 'x');
    }
    if key == "xz"@ {
        assert(key.len() == 2 && key[0] == 'x' && key[1] == 'z');
    }
    if key == "z0"@ {
        assert(key.len() == 2 && key[0] == 'z' && key[1] == '0');
    }
    if key == "zref"@ {
        assert(key.len() == 4 && key[0] == 'z' && key[1] == 'r' && key[2] == 'e' && key[3] == 'f');
    }
    if key == "zo"@ {
        assert(key.len() == 2 && key[0] == 'z' && key[1] == 'o');
    }
    if key == "ref"@ {
        assert(key.len() == 3 && key[0] == 'r' && key[1] == 'e' && key[2] == 'f');
    }
    if key == "reference"@ {
        assert(key.len() == 9 && key[0] == 'r' && key[1] == 'e' && key[2] == 'f' && key[3] == 'e' && key[4] == 'r' && key[5] == 'e' && key[6] == 'n' && key[7] == 'c' && key[8] == 'e');
    }
    if key == "vswr"@ {
        assert(key.len() == 4 && key[0] == 'v' && key[1] == 's' && key[2] == 'w' && key[3] == 'r');
    }
    if key == "swr"@ {
        assert(key.len() == 3 && key[0] == 's' && key[1] == 'w' && key[2] == 'r');
    }
    if key == "rl"@ {
        assert(key.len() == 2 && key[0] == 'r' && key[1] == 'l');
    }
    if key == "returnloss"@ {
        assert(key.len() == 10 && key[0] == 'r' && key[1] == 'e' && key[2] == 't' && key[3] == 'u' && key[4] == 'r' && key[5] == 'n' && key[6] == 'l' && key[7] == 'o' && key[8] == 's' && key[9] == 's');
    }
    if key == "mag"@ {
        assert(key.len() == 3 && key[0] == 'm' && key[1] == 'a' && key[2] == 'g');
    }
    if key == "magnitude"@ {
        assert(key.len() == 9 && key[0] == 'm' && key[1] == 'a' && key[2] == 'g' && key[3] == 'n' && key[4] == 'i' && key[5] == 't' && key[6] == 'u' && key[7] == 'd' && key[8] == 'e');
    }
    if key == "abs"@ {
        assert(key.len() == 3 && key[0] == 'a' && key[1] == 'b' && key[2] == 's');
    }
    if key == "db"@ {
        assert(key.len() == 2 && key[0] == 'd' && key[1] == 'b');
    }
    if key == "phase"@ {
        assert(key.len() == 5 && key[0] == 'p' && key[1] == 'h' && key[2] == 'a' && key[3] == 's' && key[4] == 'e');
    }
    if key == "ang"@ {
        assert(key.len() == 3 && key[0] == 'a' && key[1] == 'n' && key[2] == 'g');
    }
    if key == "angle"@ {
        assert(key.len() == 5 && key[0] == 'a' && key[1] == 'n' && key[2] == 'g' && key[3] == 'l' && key[4] == 'e');
    }
    if key == "deg"@ {
        assert(key.len() == 3 && key[0] == 'd' && key[1] == 'e' && key[2] == 'g');
    }
    if key == "arg"@ {
        assert(key.len() == 3 && key[0] == 'a' && key[1] == 'r' && key[2] == 'g');
    }
    if key == "ph"@ {
        assert(key.len() == 2 && key[0] == 'p' && key[1] == 'h');
    }
    if key == "theta"@ {
        assert(key.len() == 5 && key[0] == 't' && key[1] == 'h' && key[2] == 'e' && key[3] == 't' && key[4] == 'a');
    }
    if key == "re"@ {
        assert(key.len() == 2 && key[0] == 'r' && key[1] == 'e');
    }
    if key == "real"@ {
        assert(key.len() == 4 && key[0] == 'r' && key[1] == 'e' && key[2] == 'a' && key[3] == 'l');
    }
    if key == "im"@ {
        assert(key.len() == 2 && key[0] == 'i' && key[1] == 'm');
    }
    if key == "imag"@ {
        assert(key.len() == 4 && key[0] == 'i' && key[1] == 'm' && key[2] == 'a' && key[3] == 'g');
    }
    if key == "imaginary"@ {
        assert(key.len() == 9 && key[0] == 'i' && key[1] == 'm' && key[2] == 'a' && key[3] == 'g' && key[4] == 'i' && key[5] == 'n' && key[6] == 'a' && key[7] == 'r' && key[8] == 'y');
    }
}

/// The key is the word `w` behind a reflection prefix: `gamma`, `s11` or
/// `s22`.
pub open spec fn prefixed(key: Seq<char>, w: Seq<char>) -> bool {
    key == "gamma"@ + w || key == "s11"@ + w || key == "s22"@ + w
}

/// The key is the word `w` before a reflection suffix: `s11` or `s22`.
pub open spec fn suffixed(key: Seq<char>, w: Seq<char>) -> bool {
    key == w + "s11"@ || key == w + "s22"@
}

proof fn lemma_not_prefix(s: Seq<char>, p: Seq<char>, i: int)
    requires
        0 <= i < p.len(),
        p.len() <= s.len() ==> s[i] != p[i],
    ensures
        !has_prefix(s, p),
{
    if p.len() <= s.len() {
        assert(s.subrange(0, p.len() as int)[i] == s[i]);
    }
}

proof fn lemma_not_suffix(s: Seq<char>, p: Seq<char>, i: int)
    requires
        0 <= i < p.len(),
        p.len() <= s.len() ==> s[s.len() - p.len() + i] != p[i],
    ensures
        !has_suffix(s, p),
{
    if p.len() <= s.len() {
        assert(s.subrange(s.len() - p.len(), s.len() as int)[i] == s[s.len() - p.len() + i]);
    }
}

/// Reflection columns named by a prefix or suffix: behind `gamma`, `s11` or
/// `s22`, nothing or `mag`, `magnitude`, `abs`, `m` name the magnitude, `re`
/// and `real` the real part, `im`, `imag` and `imaginary` the imaginary
/// part, `db` and `logmag` the magnitude in decibels, and `ang`, `angle`,
/// `phase`, `deg`, `arg`, `ph`, `rad` the phase; before `s11` or `s22` the
/// same words name the same parts, without `m`, `logmag`, `ph` and `rad`.
pub proof fn reflection_affixes_name_their_part(name: Seq<char>, key: Seq<char>)
    requires
        key == normalize_spec(name),
    ensures
        (prefixed(key, Seq::<char>::empty())
            || prefixed(key, "mag"@)
            || prefixed(key, "magnitude"@)
            || prefixed(key, "abs"@)
            || prefixed(key, "m"@)
            || suffixed(key, "mag"@)
            || suffixed(key, "magnitude"@)
            || suffixed(key, "abs"@)
        ) ==> role_spec(name) == Role::GammaMagnitude,
        (prefixed(key, "re"@)
            || prefixed(key, "real"@)
            || suffixed(key, "re"@)
            || suffixed(key, "real"@)
        ) ==> role_spec(name) == Role::GammaReal,
        (prefixed(key, "im"@)
            || prefixed(key, "imag"@)
            || prefixed(key, "imaginary"@)
            || suffixed(key, "im"@)
            || suffixed(key, "imag"@)
            || suffixed(key, "imaginary"@)
        ) ==> role_spec(name) == Role::GammaImaginary,
        (prefixed(key, "db"@)
            || prefixed(key, "logmag"@)
            || suffixed(key, "db"@)
        ) ==> role_spec(name) == Role::GammaDecibel,
        (prefixed(key, "ang"@)
            || prefixed(key, "angle"@)
            || prefixed(key, "phase"@)
            || prefixed(key, "deg"@)
            || prefixed(key, "arg"@)
            || prefixed(key, "ph"@)
            || prefixed(key, "rad"@)
            || suffixed(key, "ang"@)
            || suffixed(key, "angle"@)
            || suffixed(key, "phase"@)
            || suffixed(key, "deg"@)
            || suffixed(key, "arg"@)
        ) ==> role_spec(name) == Role::GammaPhase,
{
    reveal_strlit("abs");
    reveal_strlit("ang");
    reveal_strlit("angle");
    reveal_strlit("arg");
    reveal_strlit("db");
    reveal_strlit("deg");
    reveal_strlit("gamma");
    reveal_strlit("im");
    reveal_strlit("imag");
    reveal_strlit("imaginary");
    reveal_strlit("logmag");
    reveal_strlit("m");
    reveal_strlit("mag");
    reveal_strlit("magnitude");
    reveal_strlit("ph");
    reveal_strlit("phase");
    reveal_strlit("rad");
    reveal_strlit("re");
    reveal_strlit("real");
    reveal_strlit("s11");
    reveal_strlit("s22");
    reveal_strlit("f");
    reveal_strlit("freq");
    reveal_strlit("frequency");
    reveal_strlit("imagz");
    reveal_strlit("imz");
    reveal_strlit("r");
    reveal_strlit("reactance");
    reveal_strlit("realz");
    reveal_strlit("ref");
    reveal_strlit("reference");
    reveal_strlit("res");
    reveal_strlit("resistance");
    reveal_strlit("returnloss");
    reveal_strlit("rez");
    reveal_strlit("rl");
    reveal_strlit("rz");
    reveal_strlit("swr");
    reveal_strlit("theta");
    reveal_strlit("vswr");
    reveal_strlit("x");
    reveal_strlit("xz");
    reveal_strlit("z0");
    reveal_strlit("zim");
    reveal_strlit("zimag");
    reveal_strlit("zo");
    reveal_strlit("zr");
    reveal_strlit("zre");
    reveal_strlit("zreal");
    reveal_strlit("zref");
    reveal_strlit("zx");
    if key == "gamma"@ {
        assert(key =~= seq!['g', 'a', 'm', 'm', 'a']);
        assert(key.len() == 5 && key[0] == 'g' && key[1] == 'a' && key[2] == 'm' && key[3] == 'm' && key[4] == 'a');
        assert(part_role(key) is None);
        assert(key_role(key) is None);
        assert(key.subrange(0, 5) =~= "gamma"@);
        assert(key.skip(5) =~= Seq::<char>::empty());
        assert(role_spec(name) == Role::GammaMagnitude);
    }
    if key == "gamma"@ + "mag"@ {
        assert(key =~= seq!['g', 'a', 'm', 'm', 'a', 'm', 'a', 'g']);
        assert(key.len() == 8 && key[0] == 'g' && key[1] == 'a' && key[2] == 'm' && key[3] == 'm' && key[4] == 'a' && key[5] == 'm' && key[6] == 'a' && key[7] == 'g');
        assert(part_role(key) is None);
        assert(key_role(key) is None);
        assert(key.subrange(0, 5) =~= "gamma"@);
        assert(key.skip(5) =~= "mag"@);
        assert(role_spec(name) == Role::GammaMagnitude);
    }
    if key == "gamma"@ + "magnitude"@ {
        assert(key =~= seq!['g', 'a', 'm', 'm', 'a', 'm', 'a', 'g', 'n', 'i', 't', 'u', 'd', 'e']);
        assert(key.len() == 14 && key[0] == 'g' && key[1] == 'a' && key[2] == 'm' && key[3] == 'm' && key[4] == 'a' && key[5] == 'm' && key[6] == 'a' && key[7] == 'g' && key[8] == 'n' && key[9] == 'i' && key[10] == 't' && key[11] == 'u' && key[12] == 'd' && key[13] == 'e');
        assert(part_role(key) is None);
        assert(key_role(key) is None);
        assert(key.subrange(0, 5) =~= "gamma"@);
        assert(key.skip(5) =~= "magnitude"@);
        assert(role_spec(name) == Role::GammaMagnitude);
    }
    if key == "gamma"@ + "abs"@ {
        assert(key =~= seq!['g', 'a', 'm', 'm', 'a', 'a', 'b', 's']);
        assert(key.len() == 8 && key[0] == 'g' && key[1] == 'a' && key[2] == 'm' && key[3] == 'm' && key[4] == 'a' && key[5] == 'a' && key[6] == 'b' && key[7] == 's');
        assert(part_role(key) is None);
        assert(key_role(key) is None);
        assert(key.subrange(0, 5) =~= "gamma"@);
        assert(key.skip(5) =~= "abs"@);
        assert(role_spec(name) == Role::GammaMagnitude);
    }
    if key == "gamma"@ + "m"@ {
        assert(key =~= seq!['g', 'a', 'm', 'm', 'a', 'm']);
        assert(key.len() == 6 && key[0] == 'g' && key[1] == 'a' && key[2] == 'm' && key[3] == 'm' && key[4] == 'a' && key[5] == 'm');
        assert(part_role(key) is None);
        assert(key_role(key) is None);
        assert(key.subrange(0, 5) =~= "gamma"@);
        assert(key.skip(5) =~= "m"@);
        assert(role_spec(name) == Role::GammaMagnitude);
    }
    if key == "s11"@ {
        assert(key =~= seq!['s', '1', '1']);
        assert(key.len() == 3 && key[0] == 's' && key[1] == '1' && key[2] == '1');
        assert(part_role(key) is None);
        assert(key_role(key) is None);
        assert(key.subrange(0, 3) =~= "s11"@);
        assert(key.skip(3) =~= Seq::<char>::empty());
        assert(role_spec(name) == Role::GammaMagnitude);
    }
    if key == "s11"@ + "mag"@ {
        assert(key =~= seq!['s', '1', '1', 'm', 'a', 'g']);
        assert(key.len() == 6 && key[0] == 's' && key[1] == '1' && key[2] == '1' && key[3] == 'm' && key[4] == 'a' && key[5] == 'g');
        assert(part_role(key) is None);
        assert(key_role(key) is None);
        lemma_not_prefix(key, "gamma"@, 0);
        lemma_not_suffix(key, "gamma"@, 0);
        assert(key.subrange(0, 3) =~= "s11"@);
        assert(key.skip(3) =~= "mag"@);
        assert(role_spec(name) == Role::GammaMagnitude);
    }
    if key == "s11"@ + "magnitude"@ {
        assert(key =~= seq!['s', '1', '1', 'm', 'a', 'g', 'n', 'i', 't', 'u', 'd', 'e']);
        assert(key.len() == 12 && key[0] == 's' && key[1] == '1' && key[2] == '1' && key[3] == 'm' && key[4] == 'a' && key[5] == 'g' && key[6] == 'n' && key[7] == 'i' && key[8] == 't' && key[9] == 'u' && key[10] == 'd' && key[11] == 'e');
        assert(part_role(key) is None);
        assert(key_role(key) is None);
        lemma_not_prefix(key, "gamma"@, 0);
        lemma_not_suffix(key, "gamma"@, 0);
        assert(key.subrange(0, 3) =~= "s11"@);
        assert(key.skip(3) =~= "magnitude"@);
        assert(role_spec(name) == Role::GammaMagnitude);
    }
    if key == "s11"@ + "abs"@ {
        assert(key =~= seq!['s', '1', '1', 'a', 'b', 's']);
        assert(key.len() == 6 && key[0] == 's' && key[1] == '1' && key[2] == '1' && key[3] == 'a' && key[4] == 'b' && key[5] == 's');
        assert(part_role(key) is None);
        assert(key_role(key) is None);
        lemma_not_prefix(key, "gamma"@, 0);
        lemma_not_suffix(key, "gamma"@, 0);
        assert(key.subrange(0, 3) =~= "s11"@);
        assert(key.skip(3) =~= "abs"@);
        assert(role_spec(name) == Role::GammaMagnitude);
    }
    if key == "s11"@ + "m"@ {
        assert(key =~= seq!['s', '1', '1', 'm']);
        assert(key.len() == 4 && key[0] == 's' && key[1] == '1' && key[2] == '1' && key[3] == 'm');
        assert(part_role(key) is None);
        assert(key_role(key) is None);
        assert(key.subrange(0, 3) =~= "s11"@);
        assert(key.skip(3) =~= "m"@);
        assert(role_spec(name) == Role::GammaMagnitude);
    }
    if key == "s22"@ {
        assert(key =~= seq!['s', '2', '2']);
        assert(key.len() == 3 && key[0] == 's' && key[1] == '2' && key[2] == '2');
        assert(part_role(key) is None);
        assert(key_role(key) is None);
        lemma_not_prefix(key, "s11"@, 1);
        lemma_not_suffix(key, "s11"@, 1);
        assert(key.subrange(0, 3) =~= "s22"@);
        assert(key.skip(3) =~= Seq::<char>::empty());
        assert(role_spec(name) == Role::GammaMagnitude);
    }
    if key == "s22"@ + "mag"@ {
        assert(key =~= seq!['s', '2', '2', 'm', 'a', 'g']);
        assert(key.len() == 6 && key[0] == 's' && key[1] == '2' && key[2] == '2' && key[3] == 'm' && key[4] == 'a' && key[5] == 'g');
        assert(part_role(key) is None);
        assert(key_role(key) is None);
        lemma_not_prefix(key, "gamma"@, 0);
        lemma_not_suffix(key, "gamma"@, 0);
        lemma_not_prefix(key, "s11"@, 1);
        lemma_not_suffix(key, "s11"@, 0);
        assert(key.subrange(0, 3) =~= "s22"@);
        assert(key.skip(3) =~= "mag"@);
        assert(role_spec(name) == Role::GammaMagnitude);
    }
    if key == "s22"@ + "magnitude"@ {
        assert(key =~= seq!['s', '2', '2', 'm', 'a', 'g', 'n', 'i', 't', 'u', 'd', 'e']);
        assert(key.len() == 12 && key[0] == 's' && key[1] == '2' && key[2] == '2' && key[3] == 'm' && key[4] == 'a' && key[5] == 'g' && key[6] == 'n' && key[7] == 'i' && key[8] == 't' && key[9] == 'u' && key[10] == 'd' && key[11] == 'e');
        assert(part_role(key) is None);
        assert(key_role(key) is None);
        lemma_not_prefix(key, "gamma"@, 0);
        lemma_not_suffix(key, "gamma"@, 0);
        lemma_not_prefix(key, "s11"@, 1);
        lemma_not_suffix(key, "s11"@, 0);
        assert(key.subrange(0, 3) =~= "s22"@);
        assert(key.skip(3) =~= "magnitude"@);
        assert(role_spec(name) == Role::GammaMagnitude);
    }
    if key == "s22"@ + "abs"@ {
        assert(key =~= seq!['s', '2', '2', 'a', 'b', 's']);
        assert(key.len() == 6 && key[0] == 's' && key[1] == '2' && key[2] == '2' && key[3] == 'a' && key[4] == 'b' && key[5] == 's');
        assert(part_role(key) is None);
        assert(key_role(key) is None);
        lemma_not_prefix(key, "gamma"@, 0);
        lemma_not_suffix(key, "gamma"@, 0);
        lemma_not_prefix(key, "s11"@, 1);
        lemma_not_suffix(key, "s11"@, 0);
        assert(key.subrange(0, 3) =~= "s22"@);
        assert(key.skip(3) =~= "abs"@);
        assert(role_spec(name) == Role::GammaMagnitude);
    }
    if key == "s22"@ + "m"@ {
        assert(key =~= seq!['s', '2', '2', 'm']);
        assert(key.len() == 4 && key[0] == 's' && key[1] == '2' && key[2] == '2' && key[3] == 'm');
        assert(part_role(key) is None);
        assert(key_role(key) is None);
        lemma_not_prefix(key, "s11"@, 1);
        lemma_not_suffix(key, "s11"@, 0);
        assert(key.subrange(0, 3) =~= "s22"@);
        assert(key.skip(3) =~= "m"@);
        assert(role_spec(name) == Role::GammaMagnitude);
    }
    if key == "gamma"@ + "re"@ {
        assert(key =~= seq!['g', 'a', 'm', 'm', 'a', 'r', 'e']);
        assert(key.len() == 7 && key[0] == 'g' && key[1] == 'a' && key[2] == 'm' && key[3] == 'm' && key[4] == 'a' && key[5] == 'r' && key[6] == 'e');
        assert(part_role(key) is None);
        assert(key_role(key) is None);
        assert(key.subrange(0, 5) =~= "gamma"@);
        assert(key.skip(5) =~= "re"@);
        assert(role_spec(name) == Role::GammaReal);
    }
    if key == "gamma"@ + "real"@ {
        assert(key =~= seq!['g', 'a', 'm', 'm', 'a', 'r', 'e', 'a', 'l']);
        assert(key.len() == 9 && key[0] == 'g' && key[1] == 'a' && key[2] == 'm' && key[3] == 'm' && key[4] == 'a' && key[5] == 'r' && key[6] == 'e' && key[7] == 'a' && key[8] == 'l');
        assert(part_role(key) is None);
        assert(key_role(key) is None);
        assert(key.subrange(0, 5) =~= "gamma"@);
        assert(key.skip(5) =~= "real"@);
        assert(role_spec(name) == Role::GammaReal);
    }
    if key == "s11"@ + "re"@ {
        assert(key =~= seq!['s', '1', '1', 'r', 'e']);
        assert(key.len() == 5 && key[0] == 's' && key[1] == '1' && key[2] == '1' && key[3] == 'r' && key[4] == 'e');
        assert(part_role(key) is None);
        assert(key_role(key) is None);
        lemma_not_prefix(key, "gamma"@, 0);
        lemma_not_suffix(key, "gamma"@, 0);
        assert(key.subrange(0, 3) =~= "s11"@);
        assert(key.skip(3) =~= "re"@);
        assert(role_spec(name) == Role::GammaReal);
    }
    if key == "s11"@ + "real"@ {
        assert(key =~= seq!['s', '1', '1', 'r', 'e', 'a', 'l']);
        assert(key.len() == 7 && key[0] == 's' && key[1] == '1' && key[2] == '1' && key[3] == 'r' && key[4] == 'e' && key[5] == 'a' && key[6] == 'l');
        assert(part_role(key) is None);
        assert(key_role(key) is None);
        lemma_not_prefix(key, "gamma"@, 0);
        lemma_not_suffix(key, "gamma"@, 0);
        assert(key.subrange(0, 3) =~= "s11"@);
        assert(key.skip(3) =~= "real"@);
        assert(role_spec(name) == Role::GammaReal);
    }
    if key == "s22"@ + "re"@ {
        assert(key =~= seq!['s', '2', '2', 'r', 'e']);
        assert(key.len() == 5 && key[0] == 's' && key[1] == '2' && key[2] == '2' && key[3] == 'r' && key[4] == 'e');
        assert(part_role(key) is None);
        assert(key_role(key) is None);
        lemma_not_prefix(key, "gamma"@, 0);
        lemma_not_suffix(key, "gamma"@, 0);
        lemma_not_prefix(key, "s11"@, 1);
        lemma_not_suffix(key, "s11"@, 0);
        assert(key.subrange(0, 3) =~= "s22"@);
        assert(key.skip(3) =~= "re"@);
        assert(role_spec(name) == Role::GammaReal);
    }
    if key == "s22"@ + "real"@ {
        assert(key =~= seq!['s', '2', '2', 'r', 'e', 'a', 'l']);
        assert(key.len() == 7 && key[0] == 's' && key[1] == '2' && key[2] == '2' && key[3] == 'r' && key[4] == 'e' && key[5] == 'a' && key[6] == 'l');
        assert(part_role(key) is None);
        assert(key_role(key) is None);
        lemma_not_prefix(key, "gamma"@, 0);
        lemma_not_suffix(key, "gamma"@, 0);
        lemma_not_prefix(key, "s11"@, 1);
        lemma_not_suffix(key, "s11"@, 0);
        assert(key.subrange(0, 3) =~= "s22"@);
        assert(key.skip(3) =~= "real"@);
        assert(role_spec(name) == Role::GammaReal);
    }
    if key == "gamma"@ + "im"@ {
        assert(key =~= seq!['g', 'a', 'm', 'm', 'a', 'i', 'm']);
        assert(key.len() == 7 && key[0] == 'g' && key[1] == 'a' && key[2] == 'm' && key[3] == 'm' && key[4] == 'a' && key[5] == 'i' && key[6] == 'm');
        assert(part_role(key) is None);
        assert(key_role(key) is None);
        assert(key.subrange(0, 5) =~= "gamma"@);
        assert(key.skip(5) =~= "im"@);
        assert(role_spec(name) == Role::GammaImaginary);
    }
    if key == "gamma"@ + "imag"@ {
        assert(key =~= seq!['g', 'a', 'm', 'm', 'a', 'i', 'm', 'a', 'g']);
        assert(key.len() == 9 && key[0] == 'g' && key[1] == 'a' && key[2] == 'm' && key[3] == 'm' && key[4] == 'a' && key[5] == 'i' && key[6] == 'm' && key[7] == 'a' && key[8] == 'g');
        assert(part_role(key) is None);
        assert(key_role(key) is None);
        assert(key.subrange(0, 5) =~= "gamma"@);
        assert(key.skip(5) =~= "imag"@);
        assert(role_spec(name) == Role::GammaImaginary);
    }
    if key == "gamma"@ + "imaginary"@ {
        assert(key =~= seq!['g', 'a', 'm', 'm', 'a', 'i', 'm', 'a', 'g', 'i', 'n', 'a', 'r', 'y']);
        assert(key.len() == 14 && key[0] == 'g' && key[1] == 'a' && key[2] == 'm' && key[3] == 'm' && key[4] == 'a' && key[5] == 'i' && key[6] == 'm' && key[7] == 'a' && key[8] == 'g' && key[9] == 'i' && key[10] == 'n' && key[11] == 'a' && key[12] == 'r' && key[13] == 'y');
        assert(part_role(key) is None);
        assert(key_role(key) is None);
        assert(key.subrange(0, 5) =~= "gamma"@);
        assert(key.skip(5) =~= "imaginary"@);
        assert(role_spec(name) == Role::GammaImaginary);
    }
    if key == "s11"@ + "im"@ {
        assert(key =~= seq!['s', '1', '1', 'i', 'm']);
        assert(key.len() == 5 && key[0] == 's' && key[1] == '1' && key[2] == '1' && key[3] == 'i' && key[4] == 'm');
        assert(part_role(key) is None);
        assert(key_role(key) is None);
        lemma_not_prefix(key, "gamma"@, 0);
        lemma_not_suffix(key, "gamma"@, 0);
        assert(key.subrange(0, 3) =~= "s11"@);
        assert(key.skip(3) =~= "im"@);
        assert(role_spec(name) == Role::GammaImaginary);
    }
    if key == "s11"@ + "imag"@ {
        assert(key =~= seq!['s', '1', '1', 'i', 'm', 'a', 'g']);
        assert(key.len() == 7 && key[0] == 's' && key[1] == '1' && key[2] == '1' && key[3] == 'i' && key[4] == 'm' && key[5] == 'a' && key[6] == 'g');
        assert(part_role(key) is None);
        assert(key_role(key) is None);
        lemma_not_prefix(key, "gamma"@, 0);
        lemma_not_suffix(key, "gamma"@, 0);
        assert(key.subrange(0, 3) =~= "s11"@);
        assert(key.skip(3) =~= "imag"@);
        assert(role_spec(name) == Role::GammaImaginary);
    }
    if key == "s11"@ + "imaginary"@ {
        assert(key =~= seq!['s', '1', '1', 'i', 'm', 'a', 'g', 'i', 'n', 'a', 'r', 'y']);
        assert(key.len() == 12 && key[0] == 's' && key[1] == '1' && key[2] == '1' && key[3] == 'i' && key[4] == 'm' && key[5] == 'a' && key[6] == 'g' && key[7] == 'i' && key[8] == 'n' && key[9] == 'a' && key[10] == 'r' && key[11] == 'y');
        assert(part_role(key) is None);
        assert(key_role(key) is None);
        lemma_not_prefix(key, "gamma"@, 0);
        lemma_not_suffix(key, "gamma"@, 0);
        assert(key.subrange(0, 3) =~= "s11"@);
        assert(key.skip(3) =~= "imaginary"@);
        assert(role_spec(name) == Role::GammaImaginary);
    }
    if key == "s22"@ + "im"@ {
        assert(key =~= seq!['s', '2', '2', 'i', 'm']);
        assert(key.len() == 5 && key[0] == 's' && key[1] == '2' && key[2] == '2' && key[3] == 'i' && key[4] == 'm');
        assert(part_role(key) is None);
        assert(key_role(key) is None);
        lemma_not_prefix(key, "gamma"@, 0);
        lemma_not_suffix(key, "gamma"@, 0);
        lemma_not_prefix(key, "s11"@, 1);
        lemma_not_suffix(key, "s11"@, 0);
        assert(key.subrange(0, 3) =~= "s22"@);
        assert(key.skip(3) =~= "im"@);
        assert(role_spec(name) == Role::GammaImaginary);
    }
    if key == "s22"@ + "imag"@ {
        assert(key =~= seq!['s', '2', '2', 'i', 'm', 'a', 'g']);
        assert(key.len() == 7 && key[0] == 's' && key[1] == '2' && key[2] == '2' && key[3] == 'i' && key[4] == 'm' && key[5] == 'a' && key[6] == 'g');
        assert(part_role(key) is None);
        assert(key_role(key) is None);
        lemma_not_prefix(key, "gamma"@, 0);
        lemma_not_suffix(key, "gamma"@, 0);
        lemma_not_prefix(key, "s11"@, 1);
        lemma_not_suffix(key, "s11"@, 0);
        assert(key.subrange(0, 3) =~= "s22"@);
        assert(key.skip(3) =~= "imag"@);
        assert(role_spec(name) == Role::GammaImaginary);
    }
    if key == "s22"@ + "imaginary"@ {
        assert(key =~= seq!['s', '2', '2', 'i', 'm', 'a', 'g', 'i', 'n', 'a', 'r', 'y']);
        assert(key.len() == 12 && key[0] == 's' && key[1] == '2' && key[2] == '2' && key[3] == 'i' && key[4] == 'm' && key[5] == 'a' && key[6] == 'g' && key[7] == 'i' && key[8] == 'n' && key[9] == 'a' && key[10] == 'r' && key[11] == 'y');
        assert(part_role(key) is None);
        assert(key_role(key) is None);
        lemma_not_prefix(key, "gamma"@, 0);
        lemma_not_suffix(key, "gamma"@, 0);
        lemma_not_prefix(key, "s11"@, 1);
        lemma_not_suffix(key, "s11"@, 0);
        assert(key.subrange(0, 3) =~= "s22"@);
        assert(key.skip(3) =~= "imaginary"@);
        assert(role_spec(name) == Role::GammaImaginary);
    }
    if key == "gamma"@ + "db"@ {
        assert(key =~= seq!['g', 'a', 'm', 'm', 'a', 'd', 'b']);
        assert(key.len() == 7 && key[0] == 'g' && key[1] == 'a' && key[2] == 'm' && key[3] == 'm' && key[4] == 'a' && key[5] == 'd' && key[6] == 'b');
        assert(part_role(key) is None);
        assert(key_role(key) is None);
        assert(key.subrange(0, 5) =~= "gamma"@);
        assert(key.skip(5) =~= "db"@);
        assert(role_spec(name) == Role::GammaDecibel);
    }
    if key == "gamma"@ + "logmag"@ {
        assert(key =~= seq!['g', 'a', 'm', 'm', 'a', 'l', 'o', 'g', 'm', 'a', 'g']);
        assert(key.len() == 11 && key[0] == 'g' && key[1] == 'a' && key[2] == 'm' && key[3] == 'm' && key[4] == 'a' && key[5] == 'l' && key[6] == 'o' && key[7] == 'g' && key[8] == 'm' && key[9] == 'a' && key[10] == 'g');
        assert(part_role(key) is None);
        assert(key_role(key) is None);
        assert(key.subrange(0, 5) =~= "gamma"@);
        assert(key.skip(5) =~= "logmag"@);
        assert(role_spec(name) == Role::GammaDecibel);
    }
    if key == "s11"@ + "db"@ {
        assert(key =~= seq!['s', '1', '1', 'd', 'b']);
        assert(key.len() == 5 && key[0] == 's' && key[1] == '1' && key[2] == '1' && key[3] == 'd' && key[4] == 'b');
        assert(part_role(key) is None);
        assert(key_role(key) is None);
        lemma_not_prefix(key, "gamma"@, 0);
        lemma_not_suffix(key, "gamma"@, 0);
        assert(key.subrange(0, 3) =~= "s11"@);
        assert(key.skip(3) =~= "db"@);
        assert(role_spec(name) == Role::GammaDecibel);
    }
    if key == "s11"@ + "logmag"@ {
        assert(key =~= seq!['s', '1', '1', 'l', 'o', 'g', 'm', 'a', 'g']);
        assert(key.len() == 9 && key[0] == 's' && key[1] == '1' && key[2] == '1' && key[3] == 'l' && key[4] == 'o' && key[5] == 'g' && key[6] == 'm' && key[7] == 'a' && key[8] == 'g');
        assert(part_role(key) is None);
        assert(key_role(key) is None);
        lemma_not_prefix(key, "gamma"@, 0);
        lemma_not_suffix(key, "gamma"@, 0);
        assert(key.subrange(0, 3) =~= "s11"@);
        assert(key.skip(3) =~= "logmag"@);
        assert(role_spec(name) == Role::GammaDecibel);
    }
    if key == "s22"@ + "db"@ {
        assert(key =~= seq!['s', '2', '2', 'd', 'b']);
        assert(key.len() == 5 && key[0] == 's' && key[1] == '2' && key[2] == '2' && key[3] == 'd' && key[4] == 'b');
        assert(part_role(key) is None);
        assert(key_role(key) is None);
        lemma_not_prefix(key, "gamma"@, 0);
        lemma_not_suffix(key, "gamma"@, 0);
        lemma_not_prefix(key, "s11"@, 1);
        lemma_not_suffix(key, "s11"@, 0);
        assert(key.subrange(0, 3) =~= "s22"@);
        assert(key.skip(3) =~= "db"@);
        assert(role_spec(name) == Role::GammaDecibel);
    }
    if key == "s22"@ + "logmag"@ {
        assert(key =~= seq!['s', '2', '2', 'l', 'o', 'g', 'm', 'a', 'g']);
        assert(key.len() == 9 && key[0] == 's' && key[1] == '2' && key[2] == '2' && key[3] == 'l' && key[4] == 'o' && key[5] == 'g' && key[6] == 'm' && key[7] == 'a' && key[8] == 'g');
        assert(part_role(key) is None);
        assert(key_role(key) is None);
        lemma_not_prefix(key, "gamma"@, 0);
        lemma_not_suffix(key, "gamma"@, 0);
        lemma_not_prefix(key, "s11"@, 1);
        lemma_not_suffix(key, "s11"@, 0);
        assert(key.subrange(0, 3) =~= "s22"@);
        assert(key.skip(3) =~= "logmag"@);
        assert(role_spec(name) == Role::GammaDecibel);
    }
    if key == "gamma"@ + "ang"@ {
        assert(key =~= seq!['g', 'a', 'm', 'm', 'a', 'a', 'n', 'g']);
        assert(key.len() == 8 && key[0] == 'g' && key[1] == 'a' && key[2] == 'm' && key[3] == 'm' && key[4] == 'a' && key[5] == 'a' && key[6] == 'n' && key[7] == 'g');
        assert(part_role(key) is None);
        assert(key_role(key) is None);
        assert(key.subrange(0, 5) =~= "gamma"@);
        assert(key.skip(5) =~= "ang"@);
        assert(role_spec(name) == Role::GammaPhase);
    }
    if key == "gamma"@ + "angle"@ {
        assert(key =~= seq!['g', 'a', 'm', 'm', 'a', 'a', 'n', 'g', 'l', 'e']);
        assert(key.len() == 10 && key[0] == 'g' && key[1] == 'a' && key[2] == 'm' && key[3] == 'm' && key[4] == 'a' && key[5] == 'a' && key[6] == 'n' && key[7] == 'g' && key[8] == 'l' && key[9] == 'e');
        assert(part_role(key) is None);
        assert(key_role(key) is None);
        assert(key.subrange(0, 5) =~= "gamma"@);
        assert(key.skip(5) =~= "angle"@);
        assert(role_spec(name) == Role::GammaPhase);
    }
    if key == "gamma"@ + "phase"@ {
        assert(key =~= seq!['g', 'a', 'm', 'm', 'a', 'p', 'h', 'a', 's', 'e']);
        assert(key.len() == 10 && key[0] == 'g' && key[1] == 'a' && key[2] == 'm' && key[3] == 'm' && key[4] == 'a' && key[5] == 'p' && key[6] == 'h' && key[7] == 'a' && key[8] == 's' && key[9] == 'e');
        assert(part_role(key) is None);
        assert(key_role(key) is None);
        assert(key.subrange(0, 5) =~= "gamma"@);
        assert(key.skip(5) =~= "phase"@);
        assert(role_spec(name) == Role::GammaPhase);
    }
    if key == "gamma"@ + "deg"@ {
        assert(key =~= seq!['g', 'a', 'm', 'm', 'a', 'd', 'e', 'g']);
        assert(key.len() == 8 && key[0] == 'g' && key[1] == 'a' && key[2] == 'm' && key[3] == 'm' && key[4] == 'a' && key[5] == 'd' && key[6] == 'e' && key[7] == 'g');
        assert(part_role(key) is None);
        assert(key_role(key) is None);
        assert(key.subrange(0, 5) =~= "gamma"@);
        assert(key.skip(5) =~= "deg"@);
        assert(role_spec(name) == Role::GammaPhase);
    }
    if key == "gamma"@ + "arg"@ {
        assert(key =~= seq!['g', 'a', 'm', 'm', 'a', 'a', 'r', 'g']);
        assert(key.len() == 8 && key[0] == 'g' && key[1] == 'a' && key[2] == 'm' && key[3] == 'm' && key[4] == 'a' && key[5] == 'a' && key[6] == 'r' && key[7] == 'g');
        assert(part_role(key) is None);
        assert(key_role(key) is None);
        assert(key.subrange(0, 5) =~= "gamma"@);
        assert(key.skip(5) =~= "arg"@);
        assert(role_spec(name) == Role::GammaPhase);
    }
    if key == "gamma"@ + "ph"@ {
        assert(key =~= seq!['g', 'a', 'm', 'm', 'a', 'p', 'h']);
        assert(key.len() == 7 && key[0] == 'g' && key[1] == 'a' && key[2] == 'm' && key[3] == 'm' && key[4] == 'a' && key[5] == 'p' && key[6] == 'h');
        assert(part_role(key) is None);
        assert(key_role(key) is None);
        assert(key.subrange(0, 5) =~= "gamma"@);
        assert(key.skip(5) =~= "ph"@);
        assert(role_spec(name) == Role::GammaPhase);
    }
    if key == "gamma"@ + "rad"@ {
        assert(key =~= seq!['g', 'a', 'm', 'm', 'a', 'r', 'a', 'd']);
        assert(key.len() == 8 && key[0] == 'g' && key[1] == 'a' && key[2] == 'm' && key[3] == 'm' && key[4] == 'a' && key[5] == 'r' && key[6] == 'a' && key[7] == 'd');
        assert(part_role(key) is None);
        assert(key_role(key) is None);
        assert(key.subrange(0, 5) =~= "gamma"@);
        assert(key.skip(5) =~= "rad"@);
        assert(role_spec(name) == Role::GammaPhase);
    }
    if key == "s11"@ + "ang"@ {
        assert(key =~= seq!['s', '1', '1', 'a', 'n', 'g']);
        assert(key.len() == 6 && key[0] == 's' && key[1] == '1' && key[2] == '1' && key[3] == 'a' && key[4] == 'n' && key[5] == 'g');
        assert(part_role(key) is None);
        assert(key_role(key) is None);
        lemma_not_prefix(key, "gamma"@, 0);
        lemma_not_suffix(key, "gamma"@, 0);
        assert(key.subrange(0, 3) =~= "s11"@);
        assert(key.skip(3) =~= "ang"@);
        assert(role_spec(name) == Role::GammaPhase);
    }
    if key == "s11"@ + "angle"@ {
        assert(key =~= seq!['s', '1', '1', 'a', 'n', 'g', 'l', 'e']);
        assert(key.len() == 8 && key[0] == 's' && key[1] == '1' && key[2] == '1' && key[3] == 'a' && key[4] == 'n' && key[5] == 'g' && key[6] == 'l' && key[7] == 'e');
        assert(part_role(key) is None);
        assert(key_role(key) is None);
        lemma_not_prefix(key, "gamma"@, 0);
        lemma_not_suffix(key, "gamma"@, 0);
        assert(key.subrange(0, 3) =~= "s11"@);
        assert(key.skip(3) =~= "angle"@);
        assert(role_spec(name) == Role::GammaPhase);
    }
    if key == "s11"@ + "phase"@ {
        assert(key =~= seq!['s', '1', '1', 'p', 'h', 'a', 's', 'e']);
        assert(key.len() == 8 && key[0] == 's' && key[1] == '1' && key[2] == '1' && key[3] == 'p' && key[4] == 'h' && key[5] == 'a' && key[6] == 's' && key[7] == 'e');
        assert(part_role(key) is None);
        assert(key_role(key) is None);
        lemma_not_prefix(key, "gamma"@, 0);
        lemma_not_suffix(key, "gamma"@, 0);
        assert(key.subrange(0, 3) =~= "s11"@);
        assert(key.skip(3) =~= "phase"@);
        assert(role_spec(name) == Role::GammaPhase);
    }
    if key == "s11"@ + "deg"@ {
        assert(key =~= seq!['s', '1', '1', 'd', 'e', 'g']);
        assert(key.len() == 6 && key[0] == 's' && key[1] == '1' && key[2] == '1' && key[3] == 'd' && key[4] == 'e' && key[5] == 'g');
        assert(part_role(key) is None);
        assert(key_role(key) is None);
        lemma_not_prefix(key, "gamma"@, 0);
        lemma_not_suffix(key, "gamma"@, 0);
        assert(key.subrange(0, 3) =~= "s11"@);
        assert(key.skip(3) =~= "deg"@);
        assert(role_spec(name) == Role::GammaPhase);
    }
    if key == "s11"@ + "arg"@ {
        assert(key =~= seq!['s', '1', '1', 'a', 'r', 'g']);
        assert(key.len() == 6 && key[0] == 's' && key[1] == '1' && key[2] == '1' && key[3] == 'a' && key[4] == 'r' && key[5] == 'g');
        assert(part_role(key) is None);
        assert(key_role(key) is None);
        lemma_not_prefix(key, "gamma"@, 0);
        lemma_not_suffix(key, "gamma"@, 0);
        assert(key.subrange(0, 3) =~= "s11"@);
        assert(key.skip(3) =~= "arg"@);
        assert(role_spec(name) == Role::GammaPhase);
    }
    if key == "s11"@ + "ph"@ {
        assert(key =~= seq!['s', '1', '1', 'p', 'h']);
        assert(key.len() == 5 && key[0] == 's' && key[1] == '1' && key[2] == '1' && key[3] == 'p' && key[4] == 'h');
        assert(part_role(key) is None);
        assert(key_role(key) is None);
        lemma_not_prefix(key, "gamma"@, 0);
        lemma_not_suffix(key, "gamma"@, 0);
        assert(key.subrange(0, 3) =~= "s11"@);
        assert(key.skip(3) =~= "ph"@);
        assert(role_spec(name) == Role::GammaPhase);
    }
    if key == "s11"@ + "rad"@ {
        assert(key =~= seq!['s', '1', '1', 'r', 'a', 'd']);
        assert(key.len() == 6 && key[0] == 's' && key[1] == '1' && key[2] == '1' && key[3] == 'r' && key[4] == 'a' && key[5] == 'd');
        assert(part_role(key) is None);
        assert(key_role(key) is None);
        lemma_not_prefix(key, "gamma"@, 0);
        lemma_not_suffix(key, "gamma"@, 0);
        assert(key.subrange(0, 3) =~= "s11"@);
        assert(key.skip(3) =~= "rad"@);
        assert(role_spec(name) == Role::GammaPhase);
    }
    if key == "s22"@ + "ang"@ {
        assert(key =~= seq!['s', '2', '2', 'a', 'n', 'g']);
        assert(key.len() == 6 && key[0] == 's' && key[1] == '2' && key[2] == '2' && key[3] == 'a' && key[4] == 'n' && key[5] == 'g');
        assert(part_role(key) is None);
        assert(key_role(key) is None);
        lemma_not_prefix(key, "gamma"@, 0);
        lemma_not_suffix(key, "gamma"@, 0);
        lemma_not_prefix(key, "s11"@, 1);
        lemma_not_suffix(key, "s11"@, 0);
        assert(key.subrange(0, 3) =~= "s22"@);
        assert(key.skip(3) =~= "ang"@);
        assert(role_spec(name) == Role::GammaPhase);
    }
    if key == "s22"@ + "angle"@ {
        assert(key =~= seq!['s', '2', '2', 'a', 'n', 'g', 'l', 'e']);
        assert(key.len() == 8 && key[0] == 's' && key[1] == '2' && key[2] == '2' && key[3] == 'a' && key[4] == 'n' && key[5] == 'g' && key[6] == 'l' && key[7] == 'e');
        assert(part_role(key) is None);
        assert(key_role(key) is None);
        lemma_not_prefix(key, "gamma"@, 0);
        lemma_not_suffix(key, "gamma"@, 0);
        lemma_not_prefix(key, "s11"@, 1);
        lemma_not_suffix(key, "s11"@, 0);
        assert(key.subrange(0, 3) =~= "s22"@);
        assert(key.skip(3) =~= "angle"@);
        assert(role_spec(name) == Role::GammaPhase);
    }
    if key == "s22"@ + "phase"@ {
        assert(key =~= seq!['s', '2', '2', 'p', 'h', 'a', 's', 'e']);
        assert(key.len() == 8 && key[0] == 's' && key[1] == '2' && key[2] == '2' && key[3] == 'p' && key[4] == 'h' && key[5] == 'a' && key[6] == 's' && key[7] == 'e');
        assert(part_role(key) is None);
        assert(key_role(key) is None);
        lemma_not_prefix(key, "gamma"@, 0);
        lemma_not_suffix(key, "gamma"@, 0);
        lemma_not_prefix(key, "s11"@, 1);
        lemma_not_suffix(key, "s11"@, 0);
        assert(key.subrange(0, 3) =~= "s22"@);
        assert(key.skip(3) =~= "phase"@);
        assert(role_spec(name) == Role::GammaPhase);
    }
    if key == "s22"@ + "deg"@ {
        assert(key =~= seq!['s', '2', '2', 'd', 'e', 'g']);
        assert(key.len() == 6 && key[0] == 's' && key[1] == '2' && key[2] == '2' && key[3] == 'd' && key[4] == 'e' && key[5] == 'g');
        assert(part_role(key) is None);
        assert(key_role(key) is None);
        lemma_not_prefix(key, "gamma"@, 0);
        lemma_not_suffix(key, "gamma"@, 0);
        lemma_not_prefix(key, "s11"@, 1);
        lemma_not_suffix(key, "s11"@, 0);
        assert(key.subrange(0, 3) =~= "s22"@);
        assert(key.skip(3) =~= "deg"@);
        assert(role_spec(name) == Role::GammaPhase);
    }
    if key == "s22"@ + "arg"@ {
        assert(key =~= seq!['s', '2', '2', 'a', 'r', 'g']);
        assert(key.len() == 6 && key[0] == 's' && key[1] == '2' && key[2] == '2' && key[3] == 'a' && key[4] == 'r' && key[5] == 'g');
        assert(part_role(key) is None);
        assert(key_role(key) is None);
        lemma_not_prefix(key, "gamma"@, 0);
        lemma_not_suffix(key, "gamma"@, 0);
        lemma_not_prefix(key, "s11"@, 1);
        lemma_not_suffix(key, "s11"@, 0);
        assert(key.subrange(0, 3) =~= "s22"@);
        assert(key.skip(3) =~= "arg"@);
        assert(role_spec(name) == Role::GammaPhase);
    }
    if key == "s22"@ + "ph"@ {
        assert(key =~= seq!['s', '2', '2', 'p', 'h']);
        assert(key.len() == 5 && key[0] == 's' && key[1] == '2' && key[2] == '2' && key[3] == 'p' && key[4] == 'h');
        assert(part_role(key) is None);
        assert(key_role(key) is None);
        lemma_not_prefix(key, "gamma"@, 0);
        lemma_not_suffix(key, "gamma"@, 0);
        lemma_not_prefix(key, "s11"@, 1);
        lemma_not_suffix(key, "s11"@, 0);
        assert(key.subrange(0, 3) =~= "s22"@);
        assert(key.skip(3) =~= "ph"@);
        assert(role_spec(name) == Role::GammaPhase);
    }
    if key == "s22"@ + "rad"@ {
        assert(key =~= seq!['s', '2', '2', 'r', 'a', 'd']);
        assert(key.len() == 6 && key[0] == 's' && key[1] == '2' && key[2] == '2' && key[3] == 'r' && key[4] == 'a' && key[5] == 'd');
        assert(part_role(key) is None);
        assert(key_role(key) is None);
        lemma_not_prefix(key, "gamma"@, 0);
        lemma_not_suffix(key, "gamma"@, 0);
        lemma_not_prefix(key, "s11"@, 1);
        lemma_not_suffix(key, "s11"@, 0);
        assert(key.subrange(0, 3) =~= "s22"@);
        assert(key.skip(3) =~= "rad"@);
        assert(role_spec(name) == Role::GammaPhase);
    }
    if key == "mag"@ + "s11"@ {
        assert(key =~= seq!['m', 'a', 'g', 's', '1', '1']);
        assert(key.len() == 6 && key[0] == 'm' && key[1] == 'a' && key[2] == 'g' && key[3] == 's' && key[4] == '1' && key[5] == '1');
        assert(part_role(key) is None);
        assert(key_role(key) is None);
        lemma_not_prefix(key, "gamma"@, 0);
        lemma_not_suffix(key, "gamma"@, 0);
        lemma_not_prefix(key, "s11"@, 0);
        assert(key.subrange(3, 6) =~= "s11"@);
        assert(key.take(3) =~= "mag"@);
        assert(role_spec(name) == Role::GammaMagnitude);
    }
    if key == "magnitude"@ + "s11"@ {
        assert(key =~= seq!['m', 'a', 'g', 'n', 'i', 't', 'u', 'd', 'e', 's', '1', '1']);
        assert(key.len() == 12 && key[0] == 'm' && key[1] == 'a' && key[2] == 'g' && key[3] == 'n' && key[4] == 'i' && key[5] == 't' && key[6] == 'u' && key[7] == 'd' && key[8] == 'e' && key[9] == 's' && key[10] == '1' && key[11] == '1');
        assert(part_role(key) is None);
        assert(key_role(key) is None);
        lemma_not_prefix(key, "gamma"@, 0);
        lemma_not_suffix(key, "gamma"@, 0);
        lemma_not_prefix(key, "s11"@, 0);
        assert(key.subrange(9, 12) =~= "s11"@);
        assert(key.take(9) =~= "magnitude"@);
        assert(role_spec(name) == Role::GammaMagnitude);
    }
    if key == "abs"@ + "s11"@ {
        assert(key =~= seq!['a', 'b', 's', 's', '1', '1']);
        assert(key.len() == 6 && key[0] == 'a' && key[1] == 'b' && key[2] == 's' && key[3] == 's' && key[4] == '1' && key[5] == '1');
        assert(part_role(key) is None);
        assert(key_role(key) is None);
        lemma_not_prefix(key, "gamma"@, 0);
        lemma_not_suffix(key, "gamma"@, 0);
        lemma_not_prefix(key, "s11"@, 0);
        assert(key.subrange(3, 6) =~= "s11"@);
        assert(key.take(3) =~= "abs"@);
        assert(role_spec(name) == Role::GammaMagnitude);
    }
    if key == "mag"@ + "s22"@ {
        assert(key =~= seq!['m', 'a', 'g', 's', '2', '2']);
        assert(key.len() == 6 && key[0] == 'm' && key[1] == 'a' && key[2] == 'g' && key[3] == 's' && key[4] == '2' && key[5] == '2');
        assert(part_role(key) is None);
        assert(key_role(key) is None);
        lemma_not_prefix(key, "gamma"@, 0);
        lemma_not_suffix(key, "gamma"@, 0);
        lemma_not_prefix(key, "s11"@, 0);
        lemma_not_suffix(key, "s11"@, 1);
        lemma_not_prefix(key, "s22"@, 0);
        assert(key.subrange(3, 6) =~= "s22"@);
        assert(key.take(3) =~= "mag"@);
        assert(role_spec(name) == Role::GammaMagnitude);
    }
    if key == "magnitude"@ + "s22"@ {
        assert(key =~= seq!['m', 'a', 'g', 'n', 'i', 't', 'u', 'd', 'e', 's', '2', '2']);
        assert(key.len() == 12 && key[0] == 'm' && key[1] == 'a' && key[2] == 'g' && key[3] == 'n' && key[4] == 'i' && key[5] == 't' && key[6] == 'u' && key[7] == 'd' && key[8] == 'e' && key[9] == 's' && key[10] == '2' && key[11] == '2');
        assert(part_role(key) is None);
        assert(key_role(key) is None);
        lemma_not_prefix(key, "gamma"@, 0);
        lemma_not_suffix(key, "gamma"@, 0);
        lemma_not_prefix(key, "s11"@, 0);
        lemma_not_suffix(key, "s11"@, 1);
        lemma_not_prefix(key, "s22"@, 0);
        assert(key.subrange(9, 12) =~= "s22"@);
        assert(key.take(9) =~= "magnitude"@);
        assert(role_spec(name) == Role::GammaMagnitude);
    }
    if key == "abs"@ + "s22"@ {
        assert(key =~= seq!['a', 'b', 's', 's', '2', '2']);
        assert(key.len() == 6 && key[0] == 'a' && key[1] == 'b' && key[2] == 's' && key[3] == 's' && key[4] == '2' && key[5] == '2');
        assert(part_role(key) is None);
        assert(key_role(key) is None);
        lemma_not_prefix(key, "gamma"@, 0);
        lemma_not_suffix(key, "gamma"@, 0);
        lemma_not_prefix(key, "s11"@, 0);
        lemma_not_suffix(key, "s11"@, 1);
        lemma_not_prefix(key, "s22"@, 0);
        assert(key.subrange(3, 6) =~= "s22"@);
        assert(key.take(3) =~= "abs"@);
        assert(role_spec(name) == Role::GammaMagnitude);
    }
    if key == "re"@ + "s11"@ {
        assert(key =~= seq!['r', 'e', 's', '1', '1']);
        assert(key.len() == 5 && key[0] == 'r' && key[1] == 'e' && key[2] == 's' && key[3] == '1' && key[4] == '1');
        assert(part_role(key) is None);
        assert(key_role(key) is None);
        lemma_not_prefix(key, "gamma"@, 0);
        lemma_not_suffix(key, "gamma"@, 0);
        lemma_not_prefix(key, "s11"@, 0);
        assert(key.subrange(2, 5) =~= "s11"@);
        assert(key.take(2) =~= "re"@);
        assert(role_spec(name) == Role::GammaReal);
    }
    if key == "real"@ + "s11"@ {
        assert(key =~= seq!['r', 'e', 'a', 'l', 's', '1', '1']);
        assert(key.len() == 7 && key[0] == 'r' && key[1] == 'e' && key[2] == 'a' && key[3] == 'l' && key[4] == 's' && key[5] == '1' && key[6] == '1');
        assert(part_role(key) is None);
        assert(key_role(key) is None);
        lemma_not_prefix(key, "gamma"@, 0);
        lemma_not_suffix(key, "gamma"@, 0);
        lemma_not_prefix(key, "s11"@, 0);
        assert(key.subrange(4, 7) =~= "s11"@);
        assert(key.take(4) =~= "real"@);
        assert(role_spec(name) == Role::GammaReal);
    }
    if key == "re"@ + "s22"@ {
        assert(key =~= seq!['r', 'e', 's', '2', '2']);
        assert(key.len() == 5 && key[0] == 'r' && key[1] == 'e' && key[2] == 's' && key[3] == '2' && key[4] == '2');
        assert(part_role(key) is None);
        assert(key_role(key) is None);
        lemma_not_prefix(key, "gamma"@, 0);
        lemma_not_suffix(key, "gamma"@, 0);
        lemma_not_prefix(key, "s11"@, 0);
        lemma_not_suffix(key, "s11"@, 1);
        lemma_not_prefix(key, "s22"@, 0);
        assert(key.subrange(2, 5) =~= "s22"@);
        assert(key.take(2) =~= "re"@);
        assert(role_spec(name) == Role::GammaReal);
    }
    if key == "real"@ + "s22"@ {
        assert(key =~= seq!['r', 'e', 'a', 'l', 's', '2', '2']);
        assert(key.len() == 7 && key[0] == 'r' && key[1] == 'e' && key[2] == 'a' && key[3] == 'l' && key[4] == 's' && key[5] == '2' && key[6] == '2');
        assert(part_role(key) is None);
        assert(key_role(key) is None);
        lemma_not_prefix(key, "gamma"@, 0);
        lemma_not_suffix(key, "gamma"@, 0);
        lemma_not_prefix(key, "s11"@, 0);
        lemma_not_suffix(key, "s11"@, 1);
        lemma_not_prefix(key, "s22"@, 0);
        assert(key.subrange(4, 7) =~= "s22"@);
        assert(key.take(4) =~= "real"@);
        assert(role_spec(name) == Role::GammaReal);
    }
    if key == "im"@ + "s11"@ {
        assert(key =~= seq!['i', 'm', 's', '1', '1']);
        assert(key.len() == 5 && key[0] == 'i' && key[1] == 'm' && key[2] == 's' && key[3] == '1' && key[4] == '1');
        assert(part_role(key) is None);
        assert(key_role(key) is None);
        lemma_not_prefix(key, "gamma"@, 0);
        lemma_not_suffix(key, "gamma"@, 0);
        lemma_not_prefix(key, "s11"@, 0);
        assert(key.subrange(2, 5) =~= "s11"@);
        assert(key.take(2) =~= "im"@);
        assert(role_spec(name) == Role::GammaImaginary);
    }
    if key == "imag"@ + "s11"@ {
        assert(key =~= seq!['i', 'm', 'a', 'g', 's', '1', '1']);
        assert(key.len() == 7 && key[0] == 'i' && key[1] == 'm' && key[2] == 'a' && key[3] == 'g' && key[4] == 's' && key[5] == '1' && key[6] == '1');
        assert(part_role(key) is None);
        assert(key_role(key) is None);
        lemma_not_prefix(key, "gamma"@, 0);
        lemma_not_suffix(key, "gamma"@, 0);
        lemma_not_prefix(key, "s11"@, 0);
        assert(key.subrange(4, 7) =~= "s11"@);
        assert(key.take(4) =~= "imag"@);
        assert(role_spec(name) == Role::GammaImaginary);
    }
    if key == "imaginary"@ + "s11"@ {
        assert(key =~= seq!['i', 'm', 'a', 'g', 'i', 'n', 'a', 'r', 'y', 's', '1', '1']);
        assert(key.len() == 12 && key[0] == 'i' && key[1] == 'm' && key[2] == 'a' && key[3] == 'g' && key[4] == 'i' && key[5] == 'n' && key[6] == 'a' && key[7] == 'r' && key[8] == 'y' && key[9] == 's' && key[10] == '1' && key[11] == '1');
        assert(part_role(key) is None);
        assert(key_role(key) is None);
        lemma_not_prefix(key, "gamma"@, 0);
        lemma_not_suffix(key, "gamma"@, 0);
        lemma_not_prefix(key, "s11"@, 0);
        assert(key.subrange(9, 12) =~= "s11"@);
        assert(key.take(9) =~= "imaginary"@);
        assert(role_spec(name) == Role::GammaImaginary);
    }
    if key == "im"@ + "s22"@ {
        assert(key =~= seq!['i', 'm', 's', '2', '2']);
        assert(key.len() == 5 && key[0] == 'i' && key[1] == 'm' && key[2] == 's' && key[3] == '2' && key[4] == '2');
        assert(part_role(key) is None);
        assert(key_role(key) is None);
        lemma_not_prefix(key, "gamma"@, 0);
        lemma_not_suffix(key, "gamma"@, 0);
        lemma_not_prefix(key, "s11"@, 0);
        lemma_not_suffix(key, "s11"@, 1);
        lemma_not_prefix(key, "s22"@, 0);
        assert(key.subrange(2, 5) =~= "s22"@);
        assert(key.take(2) =~= "im"@);
        assert(role_spec(name) == Role::GammaImaginary);
    }
    if key == "imag"@ + "s22"@ {
        assert(key =~= seq!['i', 'm', 'a', 'g', 's', '2', '2']);
        assert(key.len() == 7 && key[0] == 'i' && key[1] == 'm' && key[2] == 'a' && key[3] == 'g' && key[4] == 's' && key[5] == '2' && key[6] == '2');
        assert(part_role(key) is None);
        assert(key_role(key) is None);
        lemma_not_prefix(key, "gamma"@, 0);
        lemma_not_suffix(key, "gamma"@, 0);
        lemma_not_prefix(key, "s11"@, 0);
        lemma_not_suffix(key, "s11"@, 1);
        lemma_not_prefix(key, "s22"@, 0);
        assert(key.subrange(4, 7) =~= "s22"@);
        assert(key.take(4) =~= "imag"@);
        assert(role_spec(name) == Role::GammaImaginary);
    }
    if key == "imaginary"@ + "s22"@ {
        assert(key =~= seq!['i', 'm', 'a', 'g', 'i', 'n', 'a', 'r', 'y', 's', '2', '2']);
        assert(key.len() == 12 && key[0] == 'i' && key[1] == 'm' && key[2] == 'a' && key[3] == 'g' && key[4] == 'i' && key[5] == 'n' && key[6] == 'a' && key[7] == 'r' && key[8] == 'y' && key[9] == 's' && key[10] == '2' && key[11] == '2');
        assert(part_role(key) is None);
        assert(key_role(key) is None);
        lemma_not_prefix(key, "gamma"@, 0);
        lemma_not_suffix(key, "gamma"@, 0);
        lemma_not_prefix(key, "s11"@, 0);
        lemma_not_suffix(key, "s11"@, 1);
        lemma_not_prefix(key, "s22"@, 0);
        assert(key.subrange(9, 12) =~= "s22"@);
        assert(key.take(9) =~= "imaginary"@);
        assert(role_spec(name) == Role::GammaImaginary);
    }
    if key == "db"@ + "s11"@ {
        assert(key =~= seq!['d', 'b', 's', '1', '1']);
        assert(key.len() == 5 && key[0] == 'd' && key[1] == 'b' && key[2] == 's' && key[3] == '1' && key[4] == '1');
        assert(part_role(key) is None);
        assert(key_role(key) is None);
        lemma_not_prefix(key, "gamma"@, 0);
        lemma_not_suffix(key, "gamma"@, 0);
        lemma_not_prefix(key, "s11"@, 0);
        assert(key.subrange(2, 5) =~= "s11"@);
        assert(key.take(2) =~= "db"@);
        assert(role_spec(name) == Role::GammaDecibel);
    }
    if key == "db"@ + "s22"@ {
        assert(key =~= seq!['d', 'b', 's', '2', '2']);
        assert(key.len() == 5 && key[0] == 'd' && key[1] == 'b' && key[2] == 's' && key[3] == '2' && key[4] == '2');
        assert(part_role(key) is None);
        assert(key_role(key) is None);
        lemma_not_prefix(key, "gamma"@, 0);
        lemma_not_suffix(key, "gamma"@, 0);
        lemma_not_prefix(key, "s11"@, 0);
        lemma_not_suffix(key, "s11"@, 1);
        lemma_not_prefix(key, "s22"@, 0);
        assert(key.subrange(2, 5) =~= "s22"@);
        assert(key.take(2) =~= "db"@);
        assert(role_spec(name) == Role::GammaDecibel);
    }
    if key == "ang"@ + "s11"@ {
        assert(key =~= seq!['a', 'n', 'g', 's', '1', '1']);
        assert(key.len() == 6 && key[0] == 'a' && key[1] == 'n' && key[2] == 'g' && key[3] == 's' && key[4] == '1' && key[5] == '1');
        assert(part_role(key) is None);
        assert(key_role(key) is None);
        lemma_not_prefix(key, "gamma"@, 0);
        lemma_not_suffix(key, "gamma"@, 0);
        lemma_not_prefix(key, "s11"@, 0);
        assert(key.subrange(3, 6) =~= "s11"@);
        assert(key.take(3) =~= "ang"@);
        assert(role_spec(name) == Role::GammaPhase);
    }
    if key == "angle"@ + "s11"@ {
        assert(key =~= seq!['a', 'n', 'g', 'l', 'e', 's', '1', '1']);
        assert(key.len() == 8 && key[0] == 'a' && key[1] == 'n' && key[2] == 'g' && key[3] == 'l' && key[4] == 'e' && key[5] == 's' && key[6] == '1' && key[7] == '1');
        assert(part_role(key) is None);
        assert(key_role(key) is None);
        lemma_not_prefix(key, "gamma"@, 0);
        lemma_not_suffix(key, "gamma"@, 0);
        lemma_not_prefix(key, "s11"@, 0);
        assert(key.subrange(5, 8) =~= "s11"@);
        assert(key.take(5) =~= "angle"@);
        assert(role_spec(name) == Role::GammaPhase);
    }
    if key == "phase"@ + "s11"@ {
        assert(key =~= seq!['p', 'h', 'a', 's', 'e', 's', '1', '1']);
        assert(key.len() == 8 && key[0] == 'p' && key[1] == 'h' && key[2] == 'a' && key[3] == 's' && key[4] == 'e' && key[5] == 's' && key[6] == '1' && key[7] == '1');
        assert(part_role(key) is None);
        assert(key_role(key) is None);
        lemma_not_prefix(key, "gamma"@, 0);
        lemma_not_suffix(key, "gamma"@, 0);
        lemma_not_prefix(key, "s11"@, 0);
        assert(key.subrange(5, 8) =~= "s11"@);
        assert(key.take(5) =~= "phase"@);
        assert(role_spec(name) == Role::GammaPhase);
    }
    if key == "deg"@ + "s11"@ {
        assert(key =~= seq!['d', 'e', 'g', 's', '1', '1']);
        assert(key.len() == 6 && key[0] == 'd' && key[1] == 'e' && key[2] == 'g' && key[3] == 's' && key[4] == '1' && key[5] == '1');
        assert(part_role(key) is None);
        assert(key_role(key) is None);
        lemma_not_prefix(key, "gamma"@, 0);
        lemma_not_suffix(key, "gamma"@, 0);
        lemma_not_prefix(key, "s11"@, 0);
        assert(key.subrange(3, 6) =~= "s11"@);
        assert(key.take(3) =~= "deg"@);
        assert(role_spec(name) == Role::GammaPhase);
    }
    if key == "arg"@ + "s11"@ {
        assert(key =~= seq!['a', 'r', 'g', 's', '1', '1']);
        assert(key.len() == 6 && key[0] == 'a' && key[1] == 'r' && key[2] == 'g' && key[3] == 's' && key[4] == '1' && key[5] == '1');
        assert(part_role(key) is None);
        assert(key_role(key) is None);
        lemma_not_prefix(key, "gamma"@, 0);
        lemma_not_suffix(key, "gamma"@, 0);
        lemma_not_prefix(key, "s11"@, 0);
        assert(key.subrange(3, 6) =~= "s11"@);
        assert(key.take(3) =~= "arg"@);
        assert(role_spec(name) == Role::GammaPhase);
    }
    if key == "ang"@ + "s22"@ {
        assert(key =~= seq!['a', 'n', 'g', 's', '2', '2']);
        assert(key.len() == 6 && key[0] == 'a' && key[1] == 'n' && key[2] == 'g' && key[3] == 's' && key[4] == '2' && key[5] == '2');
        assert(part_role(key) is None);
        assert(key_role(key) is None);
        lemma_not_prefix(key, "gamma"@, 0);
        lemma_not_suffix(key, "gamma"@, 0);
        lemma_not_prefix(key, "s11"@, 0);
        lemma_not_suffix(key, "s11"@, 1);
        lemma_not_prefix(key, "s22"@, 0);
        assert(key.subrange(3, 6) =~= "s22"@);
        assert(key.take(3) =~= "ang"@);
        assert(role_spec(name) == Role::GammaPhase);
    }
    if key == "angle"@ + "s22"@ {
        assert(key =~= seq!['a', 'n', 'g', 'l', 'e', 's', '2', '2']);
        assert(key.len() == 8 && key[0] == 'a' && key[1] == 'n' && key[2] == 'g' && key[3] == 'l' && key[4] == 'e' && key[5] == 's' && key[6] == '2' && key[7] == '2');
        assert(part_role(key) is None);
        assert(key_role(key) is None);
        lemma_not_prefix(key, "gamma"@, 0);
        lemma_not_suffix(key, "gamma"@, 0);
        lemma_not_prefix(key, "s11"@, 0);
        lemma_not_suffix(key, "s11"@, 1);
        lemma_not_prefix(key, "s22"@, 0);
        assert(key.subrange(5, 8) =~= "s22"@);
        assert(key.take(5) =~= "angle"@);
        assert(role_spec(name) == Role::GammaPhase);
    }
    if key == "phase"@ + "s22"@ {
        assert(key =~= seq!['p', 'h', 'a', 's', 'e', 's', '2', '2']);
        assert(key.len() == 8 && key[0] == 'p' && key[1] == 'h' && key[2] == 'a' && key[3] == 's' && key[4] == 'e' && key[5] == 's' && key[6] == '2' && key[7] == '2');
        assert(part_role(key) is None);
        assert(key_role(key) is None);
        lemma_not_prefix(key, "gamma"@, 0);
        lemma_not_suffix(key, "gamma"@, 0);
        lemma_not_prefix(key, "s11"@, 0);
        lemma_not_suffix(key, "s11"@, 1);
        lemma_not_prefix(key, "s22"@, 0);
        assert(key.subrange(5, 8) =~= "s22"@);
        assert(key.take(5) =~= "phase"@);
        assert(role_spec(name) == Role::GammaPhase);
    }
    if key == "deg"@ + "s22"@ {
        assert(key =~= seq!['d', 'e', 'g', 's', '2', '2']);
        assert(key.len() == 6 && key[0] == 'd' && key[1] == 'e' && key[2] == 'g' && key[3] == 's' && key[4] == '2' && key[5] == '2');
        assert(part_role(key) is None);
        assert(key_role(key) is None);
        lemma_not_prefix(key, "gamma"@, 0);
        lemma_not_suffix(key, "gamma"@, 0);
        lemma_not_prefix(key, "s11"@, 0);
        lemma_not_suffix(key, "s11"@, 1);
        lemma_not_prefix(key, "s22"@, 0);
        assert(key.subrange(3, 6) =~= "s22"@);
        assert(key.take(3) =~= "deg"@);
        assert(role_spec(name) == Role::GammaPhase);
    }
    if key == "arg"@ + "s22"@ {
        assert(key =~= seq!['a', 'r', 'g', 's', '2', '2']);
        assert(key.len() == 6 && key[0] == 'a' && key[1] == 'r' && key[2] == 'g' && key[3] == 's' && key[4] == '2' && key[5] == '2');
        assert(part_role(key) is None);
        assert(key_role(key) is None);
        lemma_not_prefix(key, "gamma"@, 0);
        lemma_not_suffix(key, "gamma"@, 0);
        lemma_not_prefix(key, "s11"@, 0);
        lemma_not_suffix(key, "s11"@, 1);
        lemma_not_prefix(key, "s22"@, 0);
        assert(key.subrange(3, 6) =~= "s22"@);
        assert(key.take(3) =~= "arg"@);
        assert(role_spec(name) == Role::GammaPhase);
    }
}

/// Roles of all header cells.
pub open spec fn roles_of(header: Seq<Seq<char>>) -> Seq<Role> {
    header.map_values(|h: Seq<char>| role_spec(h))
}

pub fn header_roles(header: &Vec<Vec<char>>) -> (roles: Vec<Role>)
    ensures
        roles@ == roles_of(header@.map_values(|v: Vec<char>| v@)),
{
    let ghost h = header@.map_values(|v: Vec<char>| v@);
    let mut roles: Vec<Role> = Vec::new();
    let mut i: usize = 0;
    while i < header.len()
        invariant
            h == header@.map_values(|v: Vec<char>| v@),
            i <= header.len(),
            roles@ == roles_of(h).take(i as int),
        decreases header.len() - i,
    {
        roles.push(role_of(&header[i]));
        i += 1;
        assert(roles@ =~= roles_of(h).take(i as int));
    }
    assert(roles_of(h).take(i as int) =~= roles_of(h));
    roles
}

/// Index of the first column with role `r`, or -1.
pub open spec fn role_index(roles: Seq<Role>, r: Role) -> int
    decreases roles.len(),
{
    if roles.len() == 0 {
        -1
    } else if roles[0] == r {
        0
    } else {
        let k = role_index(roles.drop_first(), r);
        if k < 0 {
            -1
        } else {
            k + 1
        }
    }
}

proof fn lemma_role_index(roles: Seq<Role>, r: Role, k: int)
    requires
        0 <= k <= roles.len(),
        forall|j: int| 0 <= j < k ==> roles[j] != r,
        k < roles.len() ==> roles[k] == r,
    ensures
        role_index(roles, r) == (if k < roles.len() {
            k
        } else {
            -1
        }),
    decreases roles.len(),
{
    if roles.len() > 0 && k > 0 {
        lemma_role_index(roles.drop_first(), r, k - 1);
    }
}

/// The first column with role `r`.
pub open spec fn find_role(roles: Seq<Role>, r: Role) -> Option<usize> {
    let k = role_index(roles, r);
    if k >= 0 {
        Some(k as usize)
    } else {
        None
    }
}

fn find_role_exec(roles: &Vec<Role>, r: Role) -> (found: Option<usize>)
    ensures
        found == find_role(roles@, r),
        found matches Some(k) ==> k < roles.len(),
{
    let mut i: usize = 0;
    while i < roles.len()
        invariant
            i <= roles.len(),
            forall|j: int| 0 <= j < i ==> roles@[j] != r,
        decreases roles.len() - i,
    {
        if roles[i] == r {
            proof {
                lemma_role_index(roles@, r, i as int);
            }
            return Some(i);
        }
        i += 1;
    }
    proof {
        lemma_role_index(roles@, r, i as int);
    }
    None
}

/// Column roles recovered from a table: frequency column, its declared
/// unit, the value columns, and the column declaring the reference
/// impedance.
#[derive(Clone, Copy, Debug, PartialEq, Eq, Structural)]
pub struct ColumnAssignment {
    pub frequency_column: Option<usize>,
    pub frequency_unit: Option<FrequencyUnit>,
    pub values: ValueColumns,
    pub reference_column: Option<usize>,
}

/// The text that names the magnitude column when no phase column exists.
pub open spec fn missing_phase_message(with_frequency: bool, column: Seq<char>) -> Seq<char> {
    "找到了"@ + (if with_frequency {
        "频率列和"@
    } else {
        Seq::empty()
    }) + "幅度列“"@ + column
        + "”，还需要相位列。只有幅度、VSWR 或回波损耗时缺少相位，无法确定唯一位置。"@
}

pub open spec fn unknown_header_message(header: Seq<Seq<char>>) -> Seq<char> {
    "无法识别表头："@ + join_seq(header, "、"@) + "。"@
}

/// Value columns of a header without resistance and reactance columns.
pub open spec fn reflection_columns_spec(roles: Seq<Role>, header: Seq<Seq<char>>) -> Result<
    ValueColumns,
    ErrorText,
> {
    let real_col = find_role(roles, Role::GammaReal);
    let imaginary_col = find_role(roles, Role::GammaImaginary);
    let phase = find_role(roles, Role::GammaPhase);
    let magnitude = find_role(roles, Role::GammaMagnitude);
    let decibel = find_role(roles, Role::GammaDecibel);
    if real_col is Some && imaginary_col is Some {
        Ok(
            ValueColumns::ReflectionRealImaginary {
                real: real_col->0,
                imaginary: imaginary_col->0,
            },
        )
    } else if phase is Some {
        let radians = contains_seq(lower_seq(header[phase->0 as int]), "rad"@);
        if magnitude is Some {
            Ok(
                ValueColumns::ReflectionPolar {
                    magnitude: magnitude->0,
                    phase: phase->0,
                    decibel: false,
                    radians,
                },
            )
        } else if decibel is Some {
            Ok(
                ValueColumns::ReflectionPolar {
                    magnitude: decibel->0,
                    phase: phase->0,
                    decibel: true,
                    radians,
                },
            )
        } else {
            Err(error_text("找到了相位列，还需要幅度列。"@, Some("表头可写为 mag、|S11| 或 dB。"@)))
        }
    } else {
        let only = if magnitude is Some {
            magnitude
        } else if decibel is Some {
            decibel
        } else {
            find_role(roles, Role::MagnitudeOnly)
        };
        if only is Some {
            Err(
                error_text(
                    missing_phase_message(
                        find_role(roles, Role::Frequency) is Some,
                        header[only->0 as int],
                    ),
                    Some("请补充 phase、angle 或 deg 列，或者改为提供 R、X 阻抗列。"@),
                ),
            )
        } else {
            Err(
                error_text(
                    unknown_header_message(header),
                    Some("需要 frequency、R、X 三列，或反射系数的实部/虚部、幅度/相位列。"@),
                ),
            )
        }
    }
}

fn push_str(out: &mut Vec<char>, lit: &str)
    ensures
        final(out)@ == old(out)@ + lit@,
{
    let mut c = chars_of(lit);
    out.append(&mut c);
}

fn push_chars(out: &mut Vec<char>, more: &Vec<char>)
    ensures
        final(out)@ == old(out)@ + more@,
{
    let mut c = copy_range(more, 0, more.len());
    assert(c@ =~= more@);
    out.append(&mut c);
}

/// Value columns of a header without resistance and reactance columns;
/// `roles[i]` is the role of header cell `i`.
pub fn classify_reflection_columns(roles: &Vec<Role>, header: &Vec<Vec<char>>) -> (r: Result<
    ValueColumns,
    ParseError,
>)
    requires
        roles.len() == header.len(),
    ensures
        same_outcome(r, reflection_columns_spec(roles@, header@.map_values(|v: Vec<char>| v@))),
{
    let ghost h = header@.map_values(|v: Vec<char>| v@);
    assert(roles.len() == header.len());
    let real_col = find_role_exec(roles, Role::GammaReal);
    let imaginary_col = find_role_exec(roles, Role::GammaImaginary);
    let phase = find_role_exec(roles, Role::GammaPhase);
    let magnitude = find_role_exec(roles, Role::GammaMagnitude);
    let decibel = find_role_exec(roles, Role::GammaDecibel);
    if let (Some(re_col), Some(im_col)) = (real_col, imaginary_col) {
        return Ok(ValueColumns::ReflectionRealImaginary { real: re_col, imaginary: im_col });
    }
    if let Some(phase) = phase {
        let lower = lowercase(&header[phase]);
        assert(h[phase as int] == header@[phase as int]@);
        let radians = contains_str(&lower, "rad");
        if let Some(magnitude) = magnitude {
            return Ok(ValueColumns::ReflectionPolar { magnitude, phase, decibel: false, radians });
        }
        if let Some(magnitude) = decibel {
            return Ok(ValueColumns::ReflectionPolar { magnitude, phase, decibel: true, radians });
        }
        return Err(error_with_hint("找到了相位列，还需要幅度列。", "表头可写为 mag、|S11| 或 dB。"));
    }
    let only = if magnitude.is_some() {
        magnitude
    } else if decibel.is_some() {
        decibel
    } else {
        find_role_exec(roles, Role::MagnitudeOnly)
    };
    if let Some(index) = only {
        let with_frequency = find_role_exec(roles, Role::Frequency).is_some();
        let mut message: Vec<char> = Vec::new();
        push_str(&mut message, "找到了");
        if with_frequency {
            push_str(&mut message, "频率列和");
        }
        push_str(&mut message, "幅度列“");
        push_chars(&mut message, &header[index]);
        push_str(
            &mut message,
            "”，还需要相位列。只有幅度、VSWR 或回波损耗时缺少相位，无法确定唯一位置。",
        );
        assert(h[index as int] == header@[index as int]@);
        assert(message@ =~= missing_phase_message(with_frequency, h[index as int]));
        return Err(
            error_chars(&message, Some("请补充 phase、angle 或 deg 列，或者改为提供 R、X 阻抗列。")),
        );
    }
    let mut message: Vec<char> = Vec::new();
    push_str(&mut message, "无法识别表头：");
    let names = join_chars(header, "、");
    push_chars(&mut message, &names);
    push_str(&mut message, "。");
    assert(message@ =~= unknown_header_message(h));
    Err(error_chars(&message, Some("需要 frequency、R、X 三列，或反射系数的实部/虚部、幅度/相位列。")))
}

/// Column roles of a table with a header.
pub open spec fn header_columns_spec(header: Seq<Seq<char>>) -> Result<ColumnAssignment, ErrorText> {
    let roles = roles_of(header);
    let frequency_column = find_role(roles, Role::Frequency);
    let frequency_unit = match frequency_column {
        Some(i) => unit_in_text(header[i as int]),
        None => None,
    };
    let reference_column = find_role(roles, Role::Reference);
    let resistance = find_role(roles, Role::Resistance);
    let reactance = find_role(roles, Role::Reactance);
    if resistance is Some && reactance is Some {
        Ok(
            ColumnAssignment {
                frequency_column,
                frequency_unit,
                values: ValueColumns::Impedance {
                    resistance: resistance->0,
                    reactance: reactance->0,
                },
                reference_column,
            },
        )
    } else if resistance is Some {
        Err(error_text("找到了电阻 R 列，还需要电抗 X 列。"@, Some("表头可写为 X、reactance 或 Im(Z)。"@)))
    } else if reactance is Some {
        Err(error_text("找到了电抗 X 列，还需要电阻 R 列。"@, Some("表头可写为 R、resistance 或 Re(Z)。"@)))
    } else {
        match reflection_columns_spec(roles, header) {
            Ok(values) => Ok(
                ColumnAssignment { frequency_column, frequency_unit, values, reference_column },
            ),
            Err(e) => Err(e),
        }
    }
}

/// The first header cell of role `r`, if any.
pub open spec fn first_of(roles: Seq<Role>, r: Role, i: int) -> bool {
    &&& 0 <= i < roles.len()
    &&& roles[i] == r
    &&& forall|j: int| 0 <= j < i ==> roles[j] != r
}

/// Some header cell has role `r`.
pub open spec fn has_role(roles: Seq<Role>, r: Role) -> bool {
    exists|j: int| 0 <= j < roles.len() && roles[j] == r
}

proof fn lemma_role_index_first(roles: Seq<Role>, r: Role)
    ensures
        role_index(roles, r) >= 0 ==> role_index(roles, r) < roles.len() && roles[role_index(
            roles,
            r,
        )] == r && forall|j: int| 0 <= j < role_index(roles, r) ==> roles[j] != r,
        role_index(roles, r) < 0 ==> forall|j: int| 0 <= j < roles.len() ==> roles[j] != r,
    decreases roles.len(),
{
    if roles.len() > 0 && roles[0] != r {
        let rest = roles.drop_first();
        lemma_role_index_first(rest, r);
        assert forall|j: int| 0 < j < roles.len() implies roles[j] == rest[j - 1] by {}
    }
}

proof fn lemma_find_role_first(roles: Seq<Role>, r: Role)
    requires
        roles.len() <= usize::MAX,
    ensures
        find_role(roles, r) matches Some(i) ==> first_of(roles, r, i as int),
        find_role(roles, r) is None <==> !has_role(roles, r),
{
    lemma_role_index_first(roles, r);
    if role_index(roles, r) >= 0 {
        assert(roles[role_index(roles, r)] == r);
    }
}

/// Every column the header reading assigns is the first header cell of its
/// role: the frequency and reference columns; resistance and reactance; the
/// real and imaginary parts; the phase and the magnitude, which is a dB
/// column exactly when the result says so, with the phase in radians exactly
/// when its header mentions `rad`. Resistance and reactance columns win
/// over reflection columns, and the header is accepted exactly when it holds
/// both impedance columns, or neither and a full pair of reflection
/// columns. The header is one held in a vector.
pub proof fn header_columns_are_first_of_their_role(header: Seq<Seq<char>>)
    requires
        header.len() <= usize::MAX,
    ensures
        ({
            let roles = roles_of(header);
            let r = header_columns_spec(header);
            let impedance = has_role(roles, Role::Resistance) && has_role(roles, Role::Reactance);
            let reflection = (has_role(roles, Role::GammaReal) && has_role(roles, Role::GammaImaginary))
                || (has_role(roles, Role::GammaPhase) && (has_role(roles, Role::GammaMagnitude)
                || has_role(roles, Role::GammaDecibel)));
            &&& r is Ok <==> (impedance || (!has_role(roles, Role::Resistance) && !has_role(
                roles,
                Role::Reactance,
            ) && reflection))
            &&& r matches Ok(a) ==> {
                &&& a.frequency_column matches Some(i) ==> first_of(roles, Role::Frequency, i as int)
                &&& a.frequency_column is None ==> !has_role(roles, Role::Frequency)
                &&& a.reference_column matches Some(i) ==> first_of(roles, Role::Reference, i as int)
                &&& a.reference_column is None ==> !has_role(roles, Role::Reference)
                &&& impedance ==> a.values is Impedance
                &&& a.values matches ValueColumns::Impedance { resistance, reactance } ==> first_of(
                    roles,
                    Role::Resistance,
                    resistance as int,
                ) && first_of(roles, Role::Reactance, reactance as int)
                &&& a.values matches ValueColumns::ReflectionRealImaginary {
                    real: real_part,
                    imaginary,
                } ==> first_of(roles, Role::GammaReal, real_part as int) && first_of(
                    roles,
                    Role::GammaImaginary,
                    imaginary as int,
                )
                &&& a.values matches ValueColumns::ReflectionPolar {
                    magnitude,
                    phase,
                    decibel,
                    radians,
                } ==> {
                    &&& first_of(roles, Role::GammaPhase, phase as int)
                    &&& decibel ==> first_of(roles, Role::GammaDecibel, magnitude as int)
                    &&& !decibel ==> first_of(roles, Role::GammaMagnitude, magnitude as int)
                    &&& radians == contains_seq(lower_seq(header[phase as int]), "rad"@)
                }
            }
        }),
{
    let roles = roles_of(header);
    lemma_find_role_first(roles, Role::Frequency);
    lemma_find_role_first(roles, Role::Reference);
    lemma_find_role_first(roles, Role::Resistance);
    lemma_find_role_first(roles, Role::Reactance);
    lemma_find_role_first(roles, Role::GammaReal);
    lemma_find_role_first(roles, Role::GammaImaginary);
    lemma_find_role_first(roles, Role::GammaPhase);
    lemma_find_role_first(roles, Role::GammaMagnitude);
    lemma_find_role_first(roles, Role::GammaDecibel);
}

pub fn classify_header(header: &Vec<Vec<char>>) -> (r: Result<ColumnAssignment, ParseError>)
    ensures
        same_outcome(r, header_columns_spec(header@.map_values(|v: Vec<char>| v@))),
{
    let ghost h = header@.map_values(|v: Vec<char>| v@);
    let roles = header_roles(header);
    assert(roles.len() == header.len());
    let frequency_column = find_role_exec(&roles, Role::Frequency);
    let frequency_unit = match frequency_column {
        Some(i) => {
            assert(h[i as int] == header@[i as int]@);
            let text = string_of(&header[i]);
            FrequencyUnit::find_in(text.as_str())
        },
        None => None,
    };
    let reference_column = find_role_exec(&roles, Role::Reference);
    let resistance = find_role_exec(&roles, Role::Resistance);
    let reactance = find_role_exec(&roles, Role::Reactance);
    match (resistance, reactance) {
        (Some(resistance), Some(reactance)) => Ok(
            ColumnAssignment {
                frequency_column,
                frequency_unit,
                values: ValueColumns::Impedance { resistance, reactance },
                reference_column,
            },
        ),
        (Some(_), None) => Err(
            error_with_hint("找到了电阻 R 列，还需要电抗 X 列。", "表头可写为 X、reactance 或 Im(Z)。"),
        ),
        (None, Some(_)) => Err(
            error_with_hint("找到了电抗 X 列，还需要电阻 R 列。", "表头可写为 R、resistance 或 Re(Z)。"),
        ),
        (None, None) => match classify_reflection_columns(&roles, header) {
            Ok(values) => Ok(
                ColumnAssignment { frequency_column, frequency_unit, values, reference_column },
            ),
            Err(e) => Err(e),
        },
    }
}

/// Column roles of a table without a header: only three columns are read,
/// as frequency, R, X.
pub open spec fn headerless_spec(columns: nat) -> Result<ColumnAssignment, ErrorText> {
    if columns == 3 {
        Ok(
            ColumnAssignment {
                frequency_column: Some(0),
                frequency_unit: None,
                values: ValueColumns::Impedance { resistance: 1, reactance: 2 },
                reference_column: None,
            },
        )
    } else if columns == 2 {
        Err(error_text("表格只有两列且没有表头。"@, Some("请添加表头（例如 frequency,R,X），或补充频率列。"@)))
    } else {
        Err(
            error_text(
                "表格有 "@ + decimal_text(columns) + " 列但没有表头，无法确定各列含义。"@,
                Some("请在第一行添加表头，例如 frequency(MHz),R,X。"@),
            ),
        )
    }
}

pub fn classify_headerless(columns: usize) -> (r: Result<ColumnAssignment, ParseError>)
    ensures
        same_outcome(r, headerless_spec(columns as nat)),
{
    match columns {
        3 => Ok(
            ColumnAssignment {
                frequency_column: Some(0),
                frequency_unit: None,
                values: ValueColumns::Impedance { resistance: 1, reactance: 2 },
                reference_column: None,
            },
        ),
        2 => Err(error_with_hint("表格只有两列且没有表头。", "请添加表头（例如 frequency,R,X），或补充频率列。")),
        _ => {
            let mut message: Vec<char> = Vec::new();
            push_str(&mut message, "表格有 ");
            let digits = decimal_chars(columns);
            push_chars(&mut message, &digits);
            push_str(&mut message, " 列但没有表头，无法确定各列含义。");
            Err(error_chars(&message, Some("请在第一行添加表头，例如 frequency(MHz),R,X。")))
        },
    }
}

// ---------------------------------------------------------------------------
// Lines, delimiter, cells
// ---------------------------------------------------------------------------

/// A line without a leading byte order mark and surrounding whitespace.
pub open spec fn clean_line(l: Seq<char>) -> Seq<char> {
    trim(trim_front(l, Strip::Bom), Strip::Space)
}

/// Blank lines and `#` or `//` comments carry no data.
pub open spec fn is_data_line(l: Seq<char>) -> bool {
    l.len() > 0 && !has_prefix(l, "#"@) && !has_prefix(l, "//"@)
}

pub open spec fn keep_data(ls: Seq<Seq<char>>) -> Seq<Seq<char>> {
    ls.map_values(|l: Seq<char>| clean_line(l)).filter(|l: Seq<char>| is_data_line(l))
}

/// The cleaned data lines of a table, in order.
pub open spec fn data_lines(text: Seq<char>) -> Seq<Seq<char>> {
    keep_data(lines_of(text))
}

fn table_lines(text: &Vec<char>) -> (out: Vec<Vec<char>>)
    ensures
        out@.map_values(|v: Vec<char>| v@) == data_lines(text@),
{
    let all = lines(text);
    let ghost ls = all@.map_values(|v: Vec<char>| v@);
    let mut out: Vec<Vec<char>> = Vec::new();
    let mut i: usize = 0;
    assert(keep_data(ls.take(0)) =~= Seq::<Seq<char>>::empty()) by {
        reveal_with_fuel(Seq::filter, 1);
        assert(ls.take(0).map_values(|l: Seq<char>| clean_line(l)) =~= Seq::<Seq<char>>::empty());
    }
    assert(out@.map_values(|v: Vec<char>| v@) =~= Seq::<Seq<char>>::empty());
    while i < all.len()
        invariant
            ls == all@.map_values(|v: Vec<char>| v@),
            ls == lines_of(text@),
            i <= all.len(),
            out@.map_values(|v: Vec<char>| v@) == keep_data(ls.take(i as int)),
        decreases all.len() - i,
    {
        let no_bom = strip_front(&all[i], Strip::Bom);
        let line = strip(&no_bom, Strip::Space);
        assert(line@ == clean_line(ls[i as int]));
        let ghost mapped = ls.take(i + 1).map_values(|l: Seq<char>| clean_line(l));
        assert(mapped.drop_last() =~= ls.take(i as int).map_values(|l: Seq<char>| clean_line(l)));
        assert(mapped.last() == line@);
        reveal_with_fuel(Seq::filter, 1);
        let keep = line.len() > 0 && !starts_with_str(&line, "#") && !starts_with_str(&line, "//");
        let ghost before = out@;
        if keep {
            out.push(line);
            assert(out@.map_values(|v: Vec<char>| v@) =~= before.map_values(|v: Vec<char>| v@).push(
                mapped.last(),
            ));
        }
        i += 1;
    }
    assert(ls.take(i as int) =~= ls);
    out
}

pub open spec fn count_of(s: Seq<char>, c: char) -> nat {
    s.filter(|d: char| d == c).len()
}

fn count_char(s: &Vec<char>, c: char) -> (n: usize)
    ensures
        n == count_of(s@, c),
{
    let mut n: usize = 0;
    let mut i: usize = 0;
    while i < s.len()
        invariant
            i <= s.len(),
            n == count_of(s@.take(i as int), c),
            n <= i,
        decreases s.len() - i,
    {
        assert(s@.take(i + 1).drop_last() =~= s@.take(i as int));
        reveal_with_fuel(Seq::filter, 1);
        if s[i] == c {
            n += 1;
        }
        i += 1;
    }
    assert(s@.take(i as int) =~= s@);
    n
}

/// Keeps the best candidate so far; a later candidate wins a tie, as
/// `Iterator::max_by_key` returns the last maximum.
pub open spec fn prefer(best: Option<(char, nat)>, c: char, n: nat) -> Option<(char, nat)> {
    if n == 0 {
        best
    } else {
        match best {
            None => Some((c, n)),
            Some((b, m)) => if n >= m {
                Some((c, n))
            } else {
                best
            },
        }
    }
}

/// The most frequent of `,`, tab, `;`, `|` in the first line, if any occurs.
pub open spec fn delimiter_of(line: Seq<char>) -> Option<char> {
    let best = prefer(
        prefer(
            prefer(prefer(None, ',', count_of(line, ',')), '\t', count_of(line, '\t')),
            ';',
            count_of(line, ';'),
        ),
        '|',
        count_of(line, '|'),
    );
    match best {
        Some((c, _)) => Some(c),
        None => None,
    }
}

fn prefer_exec(best: Option<(char, usize)>, c: char, n: usize) -> (out: Option<(char, usize)>)
    ensures
        (match out {
            Some((d, k)) => Some((d, k as nat)),
            None => None,
        }) == prefer(
            match best {
                Some((d, k)) => Some((d, k as nat)),
                None => None,
            },
            c,
            n as nat,
        ),
{
    if n == 0 {
        best
    } else {
        match best {
            None => Some((c, n)),
            Some((b, m)) => if n >= m {
                Some((c, n))
            } else {
                best
            },
        }
    }
}

pub fn detect_delimiter(line: &Vec<char>) -> (d: Option<char>)
    ensures
        d == delimiter_of(line@),
{
    let best = prefer_exec(None, ',', count_char(line, ','));
    let best = prefer_exec(best, '\t', count_char(line, '\t'));
    let best = prefer_exec(best, ';', count_char(line, ';'));
    let best = prefer_exec(best, '|', count_char(line, '|'));
    match best {
        Some((c, _)) => Some(c),
        None => None,
    }
}

/// A cell between delimiters: trimmed, then stripped of quotes.
pub open spec fn clean_cell(c: Seq<char>) -> Seq<char> {
    trim(trim(c, Strip::Space), Strip::Quote)
}

/// Cells of one line: split at the delimiter, or at whitespace when the
/// first line has none.
pub open spec fn cells_of(line: Seq<char>, delimiter: Option<char>) -> Seq<Seq<char>> {
    match delimiter {
        Some(d) => split_on(line, d).map_values(|c: Seq<char>| clean_cell(c)),
        None => words(line).map_values(|w: Seq<char>| trim(w, Strip::Quote)),
    }
}

fn split_cells(line: &Vec<char>, delimiter: Option<char>) -> (cells: Vec<Vec<char>>)
    ensures
        cells@.map_values(|v: Vec<char>| v@) == cells_of(line@, delimiter),
{
    let pieces = match delimiter {
        Some(d) => split_char(line, d),
        None => split_words(line),
    };
    let ghost ps = pieces@.map_values(|v: Vec<char>| v@);
    let ghost target = cells_of(line@, delimiter);
    let mut cells: Vec<Vec<char>> = Vec::new();
    let mut i: usize = 0;
    while i < pieces.len()
        invariant
            ps == pieces@.map_values(|v: Vec<char>| v@),
            target == cells_of(line@, delimiter),
            target == match delimiter {
                Some(d) => ps.map_values(|c: Seq<char>| clean_cell(c)),
                None => ps.map_values(|w: Seq<char>| trim(w, Strip::Quote)),
            },
            i <= pieces.len(),
            cells@.map_values(|v: Vec<char>| v@) == target.take(i as int),
        decreases pieces.len() - i,
    {
        let cell = match delimiter {
            Some(_) => strip(&strip(&pieces[i], Strip::Space), Strip::Quote),
            None => strip(&pieces[i], Strip::Quote),
        };
        assert(ps[i as int] == pieces@[i as int]@);
        assert(cell@ == target[i as int]);
        let ghost before = cells@;
        cells.push(cell);
        assert(cells@.map_values(|v: Vec<char>| v@) =~= before.map_values(|v: Vec<char>| v@).push(
            target[i as int],
        ));
        assert(target.take(i + 1) =~= target.take(i as int).push(target[i as int]));
        i += 1;
    }
    assert(target.take(i as int) =~= target);
    cells
}

/// The first line is a header when one of its cells is not a number.
pub open spec fn has_header(first: Seq<Seq<char>>) -> bool {
    exists|i: int| 0 <= i < first.len() && !is_float_text(first[i])
}

fn any_non_number(cells: &Vec<Vec<char>>) -> (r: bool)
    ensures
        r == has_header(cells@.map_values(|v: Vec<char>| v@)),
{
    let ghost cs = cells@.map_values(|v: Vec<char>| v@);
    let mut i: usize = 0;
    while i < cells.len()
        invariant
            cs == cells@.map_values(|v: Vec<char>| v@),
            i <= cells.len(),
            forall|j: int| 0 <= j < i ==> is_float_text(cs[j]),
        decreases cells.len() - i,
    {
        assert(cs[i as int] == cells@[i as int]@);
        if !is_float(&cells[i]) {
            return true;
        }
        i += 1;
    }
    false
}

// ---------------------------------------------------------------------------
// Table layout
// ---------------------------------------------------------------------------

/// Result of inspecting a table before its cells are read as numbers.
#[derive(Clone, Debug, PartialEq, Eq)]
pub struct CsvLayout {
    pub file_name: String,
    pub header: Option<Vec<String>>,
    pub frequency_column: Option<usize>,
    /// Unit declared in the header, if any.
    pub frequency_unit: Option<FrequencyUnit>,
    pub values: ValueColumns,
    /// Column that declares the reference impedance, if any.
    pub reference_column: Option<usize>,
    pub rows: Vec<Vec<String>>,
}

/// The contents of a layout as plain sequences.
pub struct LayoutText {
    pub file_name: Seq<char>,
    pub header: Option<Seq<Seq<char>>>,
    pub columns: ColumnAssignment,
    pub rows: Seq<Seq<Seq<char>>>,
}

pub open spec fn texts(v: Seq<String>) -> Seq<Seq<char>> {
    v.map_values(|s: String| s@)
}

impl View for CsvLayout {
    type V = LayoutText;

    open spec fn view(&self) -> LayoutText {
        LayoutText {
            file_name: self.file_name@,
            header: match self.header {
                Some(h) => Some(texts(h@)),
                None => None,
            },
            columns: ColumnAssignment {
                frequency_column: self.frequency_column,
                frequency_unit: self.frequency_unit,
                values: self.values,
                reference_column: self.reference_column,
            },
            rows: self.rows@.map_values(|r: Vec<String>| texts(r@)),
        }
    }
}

impl CsvLayout {
    /// True when the interface must ask for a frequency unit.
    pub fn needs_unit(&self) -> (ask: bool)
        ensures
            ask == (self.frequency_column is Some && self.frequency_unit is None),
    {
        self.frequency_column.is_some() && self.frequency_unit.is_none()
    }

    /// True when the interface must ask for a reference impedance: the
    /// columns hold a reflection coefficient and `declared` says the table's
    /// `Z0` column gives no positive number.
    pub fn needs_reference(&self, declared: bool) -> (ask: bool)
        ensures
            ask == (self.values.is_reflection_spec() && !declared),
    {
        self.values.is_reflection() && !declared
    }
}

/// What inspecting `text` yields: the layout, or the reason there is none.
pub open spec fn layout_spec(text: Seq<char>, file_name: Seq<char>) -> Result<LayoutText, ErrorText> {
    let ls = data_lines(text);
    if ls.len() == 0 {
        Err(error_text("表格是空的。"@, Some("需要至少一行 frequency、R、X 数据。"@)))
    } else {
        let delimiter = delimiter_of(ls[0]);
        let first = cells_of(ls[0], delimiter);
        let headed = has_header(first);
        let body = if headed {
            ls.skip(1)
        } else {
            ls
        };
        let rows = body.map_values(|l: Seq<char>| cells_of(l, delimiter));
        if rows.len() == 0 {
            Err(error_text("表格只有表头，没有数据行。"@, None))
        } else {
            let assigned = if headed {
                header_columns_spec(first)
            } else {
                headerless_spec(rows[0].len())
            };
            match assigned {
                Ok(columns) => Ok(
                    LayoutText {
                        file_name,
                        header: if headed {
                            Some(first)
                        } else {
                            None
                        },
                        columns,
                        rows,
                    },
                ),
                Err(e) => Err(e),
            }
        }
    }
}

/// The layout agrees with the specified one.
pub open spec fn layout_outcome(r: Result<CsvLayout, ParseError>, s: Result<LayoutText, ErrorText>) -> bool {
    match (r, s) {
        (Ok(a), Ok(b)) => a@ == b,
        (Err(e), Err(t)) => e@ == t,
        _ => false,
    }
}

fn strings_of(cells: &Vec<Vec<char>>) -> (out: Vec<String>)
    ensures
        texts(out@) == cells@.map_values(|v: Vec<char>| v@),
{
    let mut out: Vec<String> = Vec::new();
    let mut i: usize = 0;
    while i < cells.len()
        invariant
            i <= cells.len(),
            texts(out@) == cells@.map_values(|v: Vec<char>| v@).take(i as int),
        decreases cells.len() - i,
    {
        let ghost before = out@;
        out.push(string_of(&cells[i]));
        assert(texts(out@) =~= texts(before).push(cells@[i as int]@));
        i += 1;
        assert(texts(out@) =~= cells@.map_values(|v: Vec<char>| v@).take(i as int));
    }
    assert(cells@.map_values(|v: Vec<char>| v@).take(i as int) =~= cells@.map_values(
        |v: Vec<char>| v@,
    ));
    out
}

fn empty_error(message: &str) -> (e: ParseError)
    ensures
        e@ == error_text(message@, None),
{
    let m = chars_of(message);
    error_chars(&m, None)
}

/// Inspects delimited text and identifies its columns.
pub fn inspect_csv(text: &str, file_name: &str) -> (r: Result<CsvLayout, ParseError>)
    ensures
        layout_outcome(r, layout_spec(text@, file_name@)),
{
    let chars = chars_of(text);
    let ls = table_lines(&chars);
    let ghost lv = ls@.map_values(|v: Vec<char>| v@);
    if ls.len() == 0 {
        return Err(error_with_hint("表格是空的。", "需要至少一行 frequency、R、X 数据。"));
    }
    assert(lv[0] == ls@[0]@);
    let delimiter = detect_delimiter(&ls[0]);
    let first = split_cells(&ls[0], delimiter);
    let ghost fv = first@.map_values(|v: Vec<char>| v@);
    let headed = any_non_number(&first);
    let start: usize = if headed {
        1
    } else {
        0
    };
    let ghost body = if headed {
        lv.skip(1)
    } else {
        lv
    };
    let ghost target = body.map_values(|l: Seq<char>| cells_of(l, delimiter));
    let mut rows: Vec<Vec<String>> = Vec::new();
    let mut i: usize = start;
    while i < ls.len()
        invariant
            lv == ls@.map_values(|v: Vec<char>| v@),
            start <= i <= ls.len(),
            start == (if headed {
                1usize
            } else {
                0usize
            }),
            ls.len() > 0,
            body == (if headed {
                lv.skip(1)
            } else {
                lv
            }),
            target == body.map_values(|l: Seq<char>| cells_of(l, delimiter)),
            rows@.map_values(|r: Vec<String>| texts(r@)) == target.take(i - start),
        decreases ls.len() - i,
    {
        let cells = split_cells(&ls[i], delimiter);
        let row = strings_of(&cells);
        assert(lv[i as int] == ls@[i as int]@);
        assert(body[i - start] == lv[i as int]);
        let ghost before = rows@;
        rows.push(row);
        assert(rows@.map_values(|r: Vec<String>| texts(r@)) =~= before.map_values(
            |r: Vec<String>| texts(r@),
        ).push(target[i - start]));
        assert(target.take(i - start + 1) =~= target.take(i - start).push(target[i - start]));
        i += 1;
    }
    assert(target.take(i - start) =~= target);
    if rows.len() == 0 {
        return Err(empty_error("表格只有表头，没有数据行。"));
    }
    let assigned = if headed {
        classify_header(&first)
    } else {
        assert(target[0].len() == rows@[0]@.len());
        classify_headerless(rows[0].len())
    };
    match assigned {
        Ok(columns) => {
            let header = if headed {
                Some(strings_of(&first))
            } else {
                None
            };
            Ok(
                CsvLayout {
                    file_name: string_of(&chars_of(file_name)),
                    header,
                    frequency_column: columns.frequency_column,
                    frequency_unit: columns.frequency_unit,
                    values: columns.values,
                    reference_column: columns.reference_column,
                    rows,
                },
            )
        },
        Err(e) => Err(e),
    }
}


// ---------------------------------------------------------------------------
// Building the document
// ---------------------------------------------------------------------------

/// The unit frequencies are read in: the one the header declares, else the
/// one the user chose; none without a frequency column.
pub open spec fn unit_choice(
    frequency_column: Option<usize>,
    declared: Option<FrequencyUnit>,
    chosen: Option<FrequencyUnit>,
) -> Result<Option<FrequencyUnit>, ErrorText> {
    let unit = if declared is Some {
        declared
    } else {
        chosen
    };
    if frequency_column is None {
        Ok(None)
    } else if unit is Some {
        Ok(unit)
    } else {
        Err(error_text("表格没有声明频率单位。"@, Some("请选择 Hz、kHz、MHz 或 GHz。"@)))
    }
}

impl CsvLayout {
    /// The unit frequency cells are scaled by, given the unit the user chose.
    pub fn frequency_unit_with(&self, chosen: Option<FrequencyUnit>) -> (r: Result<
        Option<FrequencyUnit>,
        ParseError,
    >)
        ensures
            same_outcome(r, unit_choice(self.frequency_column, self.frequency_unit, chosen)),
    {
        let unit = match self.frequency_unit {
            Some(u) => Some(u),
            None => chosen,
        };
        match self.frequency_column {
            None => Ok(None),
            Some(_) => match unit {
                Some(u) => Ok(Some(u)),
                None => Err(error_with_hint("表格没有声明频率单位。", "请选择 Hz、kHz、MHz 或 GHz。")),
            },
        }
    }
}

/// A table whose frequency column declares no unit is not read until a unit
/// is chosen, and then in the chosen unit; a declared unit always wins.
pub proof fn missing_unit_is_asked_for(
    frequency_column: Option<usize>,
    declared: Option<FrequencyUnit>,
    chosen: Option<FrequencyUnit>,
)
    ensures
        frequency_column is Some && declared is None ==> (unit_choice(
            frequency_column,
            declared,
            None,
        ) is Err && (chosen is Some ==> unit_choice(frequency_column, declared, chosen) == Ok::<
            Option<FrequencyUnit>,
            ErrorText,
        >(chosen))),
        frequency_column is Some && declared is Some ==> unit_choice(
            frequency_column,
            declared,
            chosen,
        ) == Ok::<Option<FrequencyUnit>, ErrorText>(declared),
{
}

/// What the caller found in the reference impedance the user gave.
#[derive(Clone, Copy, Debug, PartialEq, Eq, Structural)]
pub enum GivenReference {
    /// A finite positive number.
    Usable,
    /// Positive but not finite.
    PositiveInfinite,
    /// Zero, negative, or not a number.
    Unusable,
}

/// Where the reference impedance of a table comes from.
#[derive(Clone, Copy, Debug, PartialEq, Eq, Structural)]
pub enum ReferenceSource {
    /// The `Z0` column of the table.
    Declared,
    /// The value the user gave.
    Given,
    /// 50 Ω.
    Default,
}

/// The reference impedance of a table: a declared `Z0` wins, then a usable
/// value the user gave. Reflection columns cannot be read without one; an
/// impedance table falls back on a positive given value, else on 50 Ω.
pub open spec fn reference_choice(
    reflection: bool,
    declared: bool,
    given: Option<GivenReference>,
) -> Result<ReferenceSource, ErrorText> {
    if declared {
        Ok(ReferenceSource::Declared)
    } else if given == Some(GivenReference::Usable) {
        Ok(ReferenceSource::Given)
    } else if reflection {
        Err(error_text("反射系数需要一个正的参考阻抗 Z0。"@, None))
    } else if given == Some(GivenReference::PositiveInfinite) {
        Ok(ReferenceSource::Given)
    } else {
        Ok(ReferenceSource::Default)
    }
}

/// Chooses the reference impedance of a table; `declared` says whether the
/// table's `Z0` column holds a positive number in its first row.
pub fn csv_reference(values: ValueColumns, declared: bool, given: Option<GivenReference>) -> (r:
    Result<ReferenceSource, ParseError>)
    ensures
        same_outcome(r, reference_choice(values.is_reflection_spec(), declared, given)),
{
    if declared {
        return Ok(ReferenceSource::Declared);
    }
    match given {
        Some(GivenReference::Usable) => Ok(ReferenceSource::Given),
        _ => if values.is_reflection() {
            Err(empty_error("反射系数需要一个正的参考阻抗 Z0。"))
        } else {
            match given {
                Some(GivenReference::PositiveInfinite) => Ok(ReferenceSource::Given),
                _ => Ok(ReferenceSource::Default),
            }
        },
    }
}

/// Number of rows that could not be read.
pub open spec fn unread_count(read: Seq<bool>) -> nat
    decreases read.len(),
{
    if read.len() == 0 {
        0
    } else {
        unread_count(read.drop_last()) + if read.last() {
            0nat
        } else {
            1nat
        }
    }
}

/// Notes on a table whose rows were read, `read[i]` telling whether row `i`
/// gave a value; an error when none did.
pub open spec fn table_notes(read: Seq<bool>, has_frequency_column: bool) -> Result<
    Seq<Seq<char>>,
    ErrorText,
> {
    if forall|i: int| 0 <= i < read.len() ==> !read[i] {
        Err(error_text("没有一行数据能读成数值。"@, Some("检查小数点、分隔符和列顺序。"@)))
    } else {
        let skipped = unread_count(read);
        let first: Seq<Seq<char>> = if skipped > 0 {
            seq![decimal_text(skipped) + " 行无法读取，已作为断点处理，不会连线。"@]
        } else {
            Seq::empty()
        };
        if has_frequency_column {
            Ok(first)
        } else {
            Ok(first.push("表格没有频率列，各点按行顺序显示，不提供频率滑块。"@))
        }
    }
}

proof fn lemma_unread_bound(read: Seq<bool>)
    ensures
        unread_count(read) <= read.len(),
    decreases read.len(),
{
    if read.len() > 0 {
        lemma_unread_bound(read.drop_last());
    }
}

/// The notes of a table document, from which rows gave a value.
pub fn csv_notes(read: &Vec<bool>, has_frequency_column: bool) -> (r: Result<Vec<String>, ParseError>)
    ensures
        match (r, table_notes(read@, has_frequency_column)) {
            (Ok(notes), Ok(expected)) => texts(notes@) == expected,
            (Err(e), Err(expected)) => e@ == expected,
            _ => false,
        },
{
    let mut skipped: usize = 0;
    let mut any_read = false;
    let mut i: usize = 0;
    while i < read.len()
        invariant
            i <= read.len(),
            skipped == unread_count(read@.take(i as int)),
            any_read == exists|j: int| 0 <= j < i && read@[j],
        decreases read.len() - i,
    {
        assert(read@.take(i + 1).drop_last() =~= read@.take(i as int));
        proof {
            lemma_unread_bound(read@.take(i as int));
        }
        if read[i] {
            any_read = true;
        } else {
            skipped += 1;
        }
        i += 1;
    }
    assert(read@.take(i as int) =~= read@);
    if !any_read {
        return Err(error_with_hint("没有一行数据能读成数值。", "检查小数点、分隔符和列顺序。"));
    }
    let mut notes: Vec<String> = Vec::new();
    if skipped > 0 {
        let mut m = decimal_chars(skipped);
        crate::text::push_lit(&mut m, " 行无法读取，已作为断点处理，不会连线。");
        notes.push(string_of(&m));
    }
    if !has_frequency_column {
        let m = chars_of("表格没有频率列，各点按行顺序显示，不提供频率滑块。");
        notes.push(string_of(&m));
    }
    assert(texts(notes@) =~= table_notes(read@, has_frequency_column)->Ok_0);
    Ok(notes)
}

/// Origin and label of the one trace of a table.
pub fn csv_trace(values: ValueColumns) -> (r: (TraceOrigin, &'static str))
    ensures
        values is Impedance ==> r.0 == TraceOrigin::ImpedanceColumns && r.1@ == "Z"@,
        !(values is Impedance) ==> r.0 == TraceOrigin::ReflectionColumns && r.1@ == "Γ"@,
{
    match values {
        ValueColumns::Impedance { .. } => (TraceOrigin::ImpedanceColumns, "Z"),
        _ => (TraceOrigin::ReflectionColumns, "Γ"),
    }
}


proof fn lemma_contains_suffix(a: Seq<char>, b: Seq<char>, q: Seq<char>)
    requires
        contains_seq(b, q),
    ensures
        contains_seq(a + b, q),
{
    let k = choose|k: int| crate::text::occurs_at(b, q, k);
    assert((a + b).subrange(a.len() + k, a.len() + k + q.len()) =~= b.subrange(k, k + q.len()));
    assert(crate::text::occurs_at(a + b, q, a.len() + k));
}

/// A header with a magnitude, dB, VSWR or return-loss column but no phase
/// column (and neither impedance columns nor both reflection parts) is
/// rejected with a message that says the phase is missing and a hint that
/// asks for a phase column.
pub proof fn missing_phase_is_explained(header: Seq<Seq<char>>)
    requires
        find_role(roles_of(header), Role::Resistance) is None,
        find_role(roles_of(header), Role::Reactance) is None,
        find_role(roles_of(header), Role::GammaPhase) is None,
        find_role(roles_of(header), Role::GammaReal) is None || find_role(
            roles_of(header),
            Role::GammaImaginary,
        ) is None,
        find_role(roles_of(header), Role::GammaMagnitude) is Some || find_role(
            roles_of(header),
            Role::GammaDecibel,
        ) is Some || find_role(roles_of(header), Role::MagnitudeOnly) is Some,
    ensures
        header_columns_spec(header) matches Err(e) && contains_seq(e.message, "缺少相位"@) && (
        e.hint matches Some(h) && contains_seq(h, "phase"@)),
{
    let tail = "”，还需要相位列。只有幅度、VSWR 或回波损耗时缺少相位，无法确定唯一位置。"@;
    let hint = "请补充 phase、angle 或 deg 列，或者改为提供 R、X 阻抗列。"@;
    reveal_strlit("”，还需要相位列。只有幅度、VSWR 或回波损耗时缺少相位，无法确定唯一位置。");
    reveal_strlit("缺少相位");
    reveal_strlit("请补充 phase、angle 或 deg 列，或者改为提供 R、X 阻抗列。");
    reveal_strlit("phase");
    assert(tail.subrange(25, 29) =~= "缺少相位"@);
    assert(crate::text::occurs_at(tail, "缺少相位"@, 25));
    assert(hint.subrange(4, 9) =~= "phase"@);
    assert(crate::text::occurs_at(hint, "phase"@, 4));
    let roles = roles_of(header);
    let magnitude = find_role(roles, Role::GammaMagnitude);
    let decibel = find_role(roles, Role::GammaDecibel);
    let only = if magnitude is Some {
        magnitude
    } else if decibel is Some {
        decibel
    } else {
        find_role(roles, Role::MagnitudeOnly)
    };
    let pre = "找到了"@ + (if find_role(roles, Role::Frequency) is Some {
        "频率列和"@
    } else {
        Seq::empty()
    }) + "幅度列“"@ + header[only->0 as int];
    lemma_contains_suffix(pre, tail, "缺少相位"@);
    assert(missing_phase_message(find_role(roles, Role::Frequency) is Some, header[only->0 as int])
        == pre + tail);
}

} // verus!
