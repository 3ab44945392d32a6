//! Complex numbers written the way engineers type them.
//!
//! Accepted forms include `25+j30`, `25 - j30`, `25+30j`, `j30`, `-15i`,
//! `25`, `25, 30`, `(25, 30)`, and any of these with an `Ω` or `ohm` suffix.
//!
//! The grammar is read here: the text is cleaned, split into its real and
//! imaginary parts, and every rule on their shape is checked. Reading the
//! number texts of the parts is left to the caller, which hands back for
//! each part whether its number read, and learns which part is which.

use crate::text::{
    Strip, char_is_space, chars_of, copy_range, find_char, index_of, is_digit, is_space,
    remove_all, remove_char, remove_char_exec, remove_str, string_of, strip, trim,
};
use vstd::prelude::*;

verus! {

// ---------------------------------------------------------------------------
// Cleaning
// ---------------------------------------------------------------------------

pub open spec fn without_spaces(s: Seq<char>) -> Seq<char> {
    s.filter(|c: char| !is_space(c))
}

/// The text with whitespace, `Ω` and the words `ohms`, `ohm`, `Ohm`, `OHM`
/// removed, then round brackets trimmed from both ends.
pub open spec fn cleaned(text: Seq<char>) -> Seq<char> {
    let a = remove_char(without_spaces(text), 'Ω');
    let b = remove_all(remove_all(remove_all(remove_all(a, "ohms"@), "ohm"@), "Ohm"@), "OHM"@);
    trim(b, Strip::Paren)
}

fn drop_spaces(s: &Vec<char>) -> (out: Vec<char>)
    ensures
        out@ == without_spaces(s@),
{
    let mut out: Vec<char> = Vec::new();
    let mut i: usize = 0;
    while i < s.len()
        invariant
            i <= s.len(),
            out@ == without_spaces(s@.take(i as int)),
        decreases s.len() - i,
    {
        assert(s@.take(i + 1).drop_last() =~= s@.take(i as int));
        reveal_with_fuel(Seq::filter, 1);
        if !char_is_space(s[i]) {
            out.push(s[i]);
        }
        i += 1;
    }
    assert(s@.take(i as int) =~= s@);
    out
}

fn clean(text: &str) -> (c: Vec<char>)
    ensures
        c@ == cleaned(text@),
{
    proof {
        reveal_strlit("ohms");
        reveal_strlit("ohm");
        reveal_strlit("Ohm");
        reveal_strlit("OHM");
    }
    let chars = chars_of(text);
    let a = remove_char_exec(&drop_spaces(&chars), 'Ω');
    let b = remove_str(&remove_str(&remove_str(&remove_str(&a, "ohms"), "ohm"), "Ohm"), "OHM");
    strip(&b, Strip::Paren)
}

// ---------------------------------------------------------------------------
// Terms
// ---------------------------------------------------------------------------

pub open spec fn is_unit(c: char) -> bool {
    c == 'j' || c == 'J' || c == 'i' || c == 'I'
}

fn char_is_unit(c: char) -> (b: bool)
    ensures
        b == is_unit(c),
{
    c == 'j' || c == 'J' || c == 'i' || c == 'I'
}

pub open spec fn is_plus_minus(c: char) -> bool {
    c == '+' || c == '-'
}

/// A new term starts at `i`: a sign that follows neither another sign nor
/// the `e` of an exponent after a digit or a point.
pub open spec fn cuts_at(s: Seq<char>, i: int) -> bool {
    &&& 1 <= i < s.len()
    &&& is_plus_minus(s[i])
    &&& !is_plus_minus(s[i - 1])
    &&& !((s[i - 1] == 'e' || s[i - 1] == 'E') && i >= 2 && (is_digit(s[i - 2]) || s[i - 2]
        == '.'))
}

/// Terms completed among the first `n` characters, and where the open one
/// starts.
pub open spec fn split_state(s: Seq<char>, n: nat) -> (Seq<Seq<char>>, int)
    decreases n,
{
    if n == 0 {
        (seq![], 0)
    } else {
        let (done, start) = split_state(s, (n - 1) as nat);
        if cuts_at(s, n - 1) {
            (done.push(s.subrange(start, n - 1)), n - 1)
        } else {
            (done, start)
        }
    }
}

/// The text cut before every sign that starts a term.
pub open spec fn terms_of(s: Seq<char>) -> Seq<Seq<char>> {
    let (done, start) = split_state(s, s.len());
    done.push(s.subrange(start, s.len() as int))
}

proof fn lemma_split_start(s: Seq<char>, n: nat)
    requires
        n <= s.len(),
    ensures
        0 <= split_state(s, n).1 <= n,
    decreases n,
{
    if n > 0 {
        lemma_split_start(s, (n - 1) as nat);
    }
}

fn split_terms(s: &Vec<char>) -> (terms: Vec<Vec<char>>)
    ensures
        terms@.map_values(|t: Vec<char>| t@) == terms_of(s@),
{
    let mut terms: Vec<Vec<char>> = Vec::new();
    let mut start: usize = 0;
    let mut i: usize = 0;
    assert(terms@.map_values(|t: Vec<char>| t@) =~= split_state(s@, 0).0);
    while i < s.len()
        invariant
            i <= s.len(),
            start <= i,
            (terms@.map_values(|t: Vec<char>| t@), start as int) == split_state(s@, i as nat),
        decreases s.len() - i,
    {
        let c = s[i];
        let cut = i >= 1 && (c == '+' || c == '-') && !(s[i - 1] == '+' || s[i - 1] == '-') && !((
        s[i - 1] == 'e' || s[i - 1] == 'E') && i >= 2 && ((s[i - 2] >= '0' && s[i - 2] <= '9')
            || s[i - 2] == '.'));
        assert(cut == cuts_at(s@, i as int));
        if cut {
            let ghost before = terms@;
            terms.push(copy_range(s, start, i));
            assert(terms@.map_values(|t: Vec<char>| t@) =~= before.map_values(|t: Vec<char>| t@).push(
                s@.subrange(start as int, i as int),
            ));
            start = i;
        }
        i += 1;
    }
    let ghost before = terms@;
    terms.push(copy_range(s, start, s.len()));
    assert(terms@.map_values(|t: Vec<char>| t@) =~= before.map_values(|t: Vec<char>| t@).push(
        s@.subrange(start as int, s@.len() as int),
    ));
    terms
}

// ---------------------------------------------------------------------------
// Parts
// ---------------------------------------------------------------------------

/// Magnitude of an imaginary part: a bare unit is one, a unit after `-`
/// minus one, otherwise the number text is read.
#[derive(Clone, Copy, Debug, PartialEq, Eq, Structural)]
pub enum Magnitude {
    One,
    MinusOne,
    Number,
}

/// A part of an expression, with the message given when its number text
/// does not read.
#[derive(Clone, Debug, PartialEq, Eq)]
pub enum Piece {
    /// A term whose shape is wrong, with the message for it.
    Invalid { message: String },
    Real { number: String, failure: String },
    Imaginary { magnitude: Magnitude, number: String, failure: String },
}

pub enum PieceText {
    Invalid { message: Seq<char> },
    Real { number: Seq<char>, failure: Seq<char> },
    Imaginary { magnitude: Magnitude, number: Seq<char>, failure: Seq<char> },
}

impl View for Piece {
    type V = PieceText;

    open spec fn view(&self) -> PieceText {
        match self {
            Piece::Invalid { message } => PieceText::Invalid { message: message@ },
            Piece::Real { number, failure } => PieceText::Real {
                number: number@,
                failure: failure@,
            },
            Piece::Imaginary { magnitude, number, failure } => PieceText::Imaginary {
                magnitude: *magnitude,
                number: number@,
                failure: failure@,
            },
        }
    }
}

/// Position of the first imaginary unit, or the length.
pub open spec fn unit_index(s: Seq<char>) -> int
    decreases s.len(),
{
    if s.len() == 0 {
        0
    } else if is_unit(s[0]) {
        0
    } else {
        1 + unit_index(s.drop_first())
    }
}

pub open spec fn unit_count(s: Seq<char>) -> nat {
    s.filter(|c: char| is_unit(c)).len()
}

/// Reads one term: a real number, or an imaginary one whose single unit
/// stands first, last, or right after a leading sign.
pub open spec fn term_piece(term: Seq<char>) -> PieceText {
    let count = unit_count(term);
    if count > 1 {
        PieceText::Invalid { message: "项“"@ + term + "”包含多个虚数单位"@ }
    } else if count == 0 {
        PieceText::Real { number: term, failure: "无法读取“"@ + term + "”"@ }
    } else {
        let k = unit_index(term);
        let placed = k == term.len() - 1 || k == 0 || (k == 1 && is_plus_minus(term[0]));
        if !placed {
            PieceText::Invalid {
                message: "虚数单位在“"@ + term + "”中的位置无法识别，请写成 j30 或 30j"@,
            }
        } else {
            let rest = term.filter(|c: char| !is_unit(c));
            let magnitude = if rest.len() == 0 || rest == seq!['+'] {
                Magnitude::One
            } else if rest == seq!['-'] {
                Magnitude::MinusOne
            } else {
                Magnitude::Number
            };
            PieceText::Imaginary {
                magnitude,
                number: rest,
                failure: "无法读取虚部“"@ + term + "”"@,
            }
        }
    }
}

proof fn lemma_unit_index(s: Seq<char>, k: int)
    requires
        0 <= k <= s.len(),
        forall|j: int| 0 <= j < k ==> !is_unit(s[j]),
        k < s.len() ==> is_unit(s[k]),
    ensures
        unit_index(s) == k,
    decreases s.len(),
{
    if s.len() > 0 && k > 0 {
        lemma_unit_index(s.drop_first(), k - 1);
    }
}

proof fn lemma_filter_keeps_all(s: Seq<char>, pred: spec_fn(char) -> bool)
    requires
        forall|j: int| 0 <= j < s.len() ==> pred(s[j]),
    ensures
        s.filter(pred) == s,
    decreases s.len(),
{
    reveal(Seq::filter);
    if s.len() > 0 {
        lemma_filter_keeps_all(s.drop_last(), pred);
        assert(s.drop_last().push(s.last()) =~= s);
    }
}

proof fn lemma_filter_keeps_none(s: Seq<char>, pred: spec_fn(char) -> bool)
    requires
        forall|j: int| 0 <= j < s.len() ==> !pred(s[j]),
    ensures
        s.filter(pred) == Seq::<char>::empty(),
    decreases s.len(),
{
    reveal(Seq::filter);
    if s.len() > 0 {
        lemma_filter_keeps_none(s.drop_last(), pred);
    }
}

proof fn lemma_filter_one(s: Seq<char>, p: int, pred: spec_fn(char) -> bool)
    requires
        0 <= p < s.len(),
        pred(s[p]),
        forall|q: int| 0 <= q < s.len() && q != p ==> !pred(s[q]),
    ensures
        s.filter(pred) == seq![s[p]],
        s.filter(|c: char| !pred(c)) == s.take(p) + s.skip(p + 1),
{
    let a = s.take(p);
    let b = s.skip(p + 1);
    let x = seq![s[p]];
    let not_pred = |c: char| !pred(c);
    assert(s =~= a + x + b);
    Seq::filter_distributes_over_add(a + x, b, pred);
    Seq::filter_distributes_over_add(a, x, pred);
    Seq::filter_distributes_over_add(a + x, b, not_pred);
    Seq::filter_distributes_over_add(a, x, not_pred);
    lemma_filter_keeps_none(a, pred);
    lemma_filter_keeps_none(b, pred);
    lemma_filter_keeps_all(x, pred);
    lemma_filter_keeps_all(a, not_pred);
    lemma_filter_keeps_all(b, not_pred);
    lemma_filter_keeps_none(x, not_pred);
    assert(s.filter(pred) =~= x);
    assert(s.filter(not_pred) =~= a + b);
}

/// `j`, `J`, `i` and `I` all stand for the imaginary unit. A term that holds
/// exactly one of them is an imaginary part whose number text is the term
/// without it when the unit stands first, last, or right after a leading
/// sign, and is rejected when it stands anywhere else.
pub proof fn any_unit_letter_makes_an_imaginary_part(term: Seq<char>, p: int)
    requires
        0 <= p < term.len(),
        term[p] == 'j' || term[p] == 'J' || term[p] == 'i' || term[p] == 'I',
        forall|q: int|
            0 <= q < term.len() && q != p ==> !(term[q] == 'j' || term[q] == 'J' || term[q] == 'i'
                || term[q] == 'I'),
    ensures
        (p == 0 || p == term.len() - 1 || (p == 1 && (term[0] == '+' || term[0] == '-')))
            ==> term_piece(term) is Imaginary && term_piece(term)->Imaginary_number == term.take(p)
            + term.skip(p + 1),
        !(p == 0 || p == term.len() - 1 || (p == 1 && (term[0] == '+' || term[0] == '-')))
            ==> term_piece(term) is Invalid,
{
    let pred = |c: char| is_unit(c);
    lemma_filter_one(term, p, pred);
    assert(unit_count(term) == 1);
    lemma_unit_index(term, p);
    assert((|c: char| !pred(c)) =~= (|c: char| !is_unit(c)));
}

/// A term with none of `j`, `J`, `i`, `I` is a real part whose number text
/// is the whole term.
pub proof fn terms_without_a_unit_are_real(term: Seq<char>)
    requires
        forall|q: int|
            0 <= q < term.len() ==> !(term[q] == 'j' || term[q] == 'J' || term[q] == 'i' || term[q]
                == 'I'),
    ensures
        term_piece(term) is Real && term_piece(term)->Real_number == term,
{
    lemma_filter_keeps_none(term, |c: char| is_unit(c));
}

fn quoted(before: &str, term: &Vec<char>, after: &str) -> (s: String)
    ensures
        s@ == before@ + term@ + after@,
{
    let mut m = chars_of(before);
    crate::text::push_seq(&mut m, term);
    crate::text::push_lit(&mut m, after);
    string_of(&m)
}

fn read_term(term: &Vec<char>) -> (p: Piece)
    ensures
        p@ == term_piece(term@),
{
    let mut count: usize = 0;
    let mut first: usize = term.len();
    let mut rest: Vec<char> = Vec::new();
    let mut i: usize = 0;
    while i < term.len()
        invariant
            i <= term.len(),
            count == term@.take(i as int).filter(|c: char| is_unit(c)).len(),
            rest@ == term@.take(i as int).filter(|c: char| !is_unit(c)),
            count <= i,
            count == 0 ==> first == term.len() && forall|j: int| 0 <= j < i ==> !is_unit(term@[j]),
            count > 0 ==> first < i && is_unit(term@[first as int]) && forall|j: int|
                0 <= j < first ==> !is_unit(term@[j]),
        decreases term.len() - i,
    {
        assert(term@.take(i + 1).drop_last() =~= term@.take(i as int));
        reveal_with_fuel(Seq::filter, 1);
        if char_is_unit(term[i]) {
            if count == 0 {
                first = i;
            }
            count += 1;
        } else {
            rest.push(term[i]);
        }
        i += 1;
    }
    assert(term@.take(i as int) =~= term@);
    proof {
        lemma_unit_index(term@, first as int);
    }
    if count > 1 {
        return Piece::Invalid { message: quoted("项“", term, "”包含多个虚数单位") };
    }
    if count == 0 {
        return Piece::Real { number: string_of(term), failure: quoted("无法读取“", term, "”") };
    }
    let placed = first == term.len() - 1 || first == 0 || (first == 1 && (term[0] == '+' || term[0]
        == '-'));
    if !placed {
        return Piece::Invalid {
            message: quoted("虚数单位在“", term, "”中的位置无法识别，请写成 j30 或 30j"),
        };
    }
    let magnitude = if rest.len() == 0 || (rest.len() == 1 && rest[0] == '+') {
        Magnitude::One
    } else if rest.len() == 1 && rest[0] == '-' {
        Magnitude::MinusOne
    } else {
        Magnitude::Number
    };
    assert(rest.len() == 1 && rest[0] == '+' ==> rest@ =~= seq!['+']);
    assert(rest.len() == 1 && rest[0] == '-' ==> rest@ =~= seq!['-']);
    Piece::Imaginary {
        magnitude,
        number: string_of(&rest),
        failure: quoted("无法读取虚部“", term, "”"),
    }
}

// ---------------------------------------------------------------------------
// Whole expression
// ---------------------------------------------------------------------------

/// The parts of an expression, or why it has none: `re, im` with a comma,
/// otherwise at most two terms.
pub open spec fn form_spec(text: Seq<char>) -> Result<Seq<PieceText>, Seq<char>> {
    let c = cleaned(text);
    if c.len() == 0 {
        Err("请输入一个数值，例如 25+j30"@)
    } else if index_of(c, ',') >= 0 {
        let k = index_of(c, ',');
        let left = c.take(k);
        let right = c.skip(k + 1);
        Ok(
            seq![
                PieceText::Real { number: left, failure: "无法读取实部“"@ + left + "”"@ },
                PieceText::Imaginary {
                    magnitude: Magnitude::Number,
                    number: right,
                    failure: "无法读取虚部“"@ + right + "”"@,
                },
            ],
        )
    } else {
        let ts = terms_of(c);
        if ts.len() > 2 {
            Err("表达式包含太多项，请使用 R+jX 的形式"@)
        } else {
            Ok(ts.map_values(|t: Seq<char>| term_piece(t)))
        }
    }
}

/// Splits an expression into its parts.
pub fn complex_form(text: &str) -> (r: Result<Vec<Piece>, String>)
    ensures
        match (r, form_spec(text@)) {
            (Ok(pieces), Ok(expected)) => pieces@.map_values(|p: Piece| p@) == expected,
            (Err(e), Err(expected)) => e@ == expected,
            _ => false,
        },
{
    let c = clean(text);
    if c.len() == 0 {
        let m = chars_of("请输入一个数值，例如 25+j30");
        return Err(string_of(&m));
    }
    if let Some(k) = find_char(&c, ',') {
        let left = copy_range(&c, 0, k);
        let right = copy_range(&c, k + 1, c.len());
        assert(left@ =~= c@.take(k as int));
        assert(right@ =~= c@.skip(k + 1));
        let mut pieces: Vec<Piece> = Vec::new();
        pieces.push(
            Piece::Real { number: string_of(&left), failure: quoted("无法读取实部“", &left, "”") },
        );
        pieces.push(
            Piece::Imaginary {
                magnitude: Magnitude::Number,
                number: string_of(&right),
                failure: quoted("无法读取虚部“", &right, "”"),
            },
        );
        assert(pieces@.map_values(|p: Piece| p@) =~= form_spec(text@)->Ok_0);
        return Ok(pieces);
    }
    let terms = split_terms(&c);
    let ghost tv = terms@.map_values(|t: Vec<char>| t@);
    if terms.len() > 2 {
        let m = chars_of("表达式包含太多项，请使用 R+jX 的形式");
        return Err(string_of(&m));
    }
    let mut pieces: Vec<Piece> = Vec::new();
    let mut i: usize = 0;
    while i < terms.len()
        invariant
            tv == terms@.map_values(|t: Vec<char>| t@),
            i <= terms.len(),
            pieces@.map_values(|p: Piece| p@) == tv.take(i as int).map_values(
                |t: Seq<char>| term_piece(t),
            ),
        decreases terms.len() - i,
    {
        let piece = read_term(&terms[i]);
        assert(tv[i as int] == terms@[i as int]@);
        let ghost before = pieces@;
        pieces.push(piece);
        assert(pieces@.map_values(|p: Piece| p@) =~= before.map_values(|p: Piece| p@).push(
            term_piece(tv[i as int]),
        ));
        assert(tv.take(i + 1).map_values(|t: Seq<char>| term_piece(t)) =~= tv.take(
            i as int,
        ).map_values(|t: Seq<char>| term_piece(t)).push(term_piece(tv[i as int])));
        i += 1;
    }
    assert(tv.take(i as int) =~= tv);
    Ok(pieces)
}

pub open spec fn duplicate_message() -> Seq<char> {
    "表达式包含重复的实部或虚部"@
}

/// Which parts give the real and the imaginary value after the first `n`
/// parts, `reads[k]` telling whether the number text of part `k` read;
/// parts are taken in order and the first failure is reported.
pub open spec fn outcome_spec(pieces: Seq<PieceText>, reads: Seq<bool>, n: nat) -> Result<
    (Option<nat>, Option<nat>),
    Seq<char>,
>
    decreases n,
{
    if n == 0 {
        Ok((None, None))
    } else {
        match outcome_spec(pieces, reads, (n - 1) as nat) {
            Err(e) => Err(e),
            Ok((re, im)) => {
                let k = (n - 1) as nat;
                match pieces[k as int] {
                    PieceText::Invalid { message } => Err(message),
                    PieceText::Real { failure, .. } => if !reads[k as int] {
                        Err(failure)
                    } else if re is Some {
                        Err(duplicate_message())
                    } else {
                        Ok((Some(k), im))
                    },
                    PieceText::Imaginary { magnitude, failure, .. } => if magnitude
                        == Magnitude::Number && !reads[k as int] {
                        Err(failure)
                    } else if im is Some {
                        Err(duplicate_message())
                    } else {
                        Ok((re, Some(k)))
                    },
                }
            },
        }
    }
}

/// Decides the expression once its number texts are read: the indices of
/// the real and the imaginary part (each missing one is zero), or the
/// message of the first failure.
pub fn complex_outcome(pieces: &Vec<Piece>, reads: &Vec<bool>) -> (r: Result<
    (Option<usize>, Option<usize>),
    String,
>)
    requires
        reads.len() == pieces.len(),
    ensures
        match (r, outcome_spec(pieces@.map_values(|p: Piece| p@), reads@, pieces.len() as nat)) {
            (Ok((re, im)), Ok((sre, sim))) => {
                &&& re matches Some(a) ==> sre == Some(a as nat)
                &&& re is None ==> sre is None
                &&& im matches Some(b) ==> sim == Some(b as nat)
                &&& im is None ==> sim is None
            },
            (Err(e), Err(expected)) => e@ == expected,
            _ => false,
        },
{
    let ghost pv = pieces@.map_values(|p: Piece| p@);
    let mut re: Option<usize> = None;
    let mut im: Option<usize> = None;
    let mut k: usize = 0;
    while k < pieces.len()
        invariant
            pv == pieces@.map_values(|p: Piece| p@),
            reads.len() == pieces.len(),
            k <= pieces.len(),
            outcome_spec(pv, reads@, k as nat) == Ok::<(Option<nat>, Option<nat>), Seq<char>>(
                (
                    match re {
                        Some(a) => Some(a as nat),
                        None => None,
                    },
                    match im {
                        Some(b) => Some(b as nat),
                        None => None,
                    },
                ),
            ),
        decreases pieces.len() - k,
    {
        assert(pv[k as int] == pieces@[k as int]@);
        match &pieces[k] {
            Piece::Invalid { message } => {
                proof {
                    lemma_outcome_stays_failed(pv, reads@, (k + 1) as nat, pv.len(), message@);
                }
                return Err(message.clone());
            },
            Piece::Real { failure, .. } => {
                if !reads[k] {
                    proof {
                        lemma_outcome_stays_failed(pv, reads@, (k + 1) as nat, pv.len(), failure@);
                    }
                    return Err(failure.clone());
                }
                if re.is_some() {
                    proof {
                        lemma_outcome_stays_failed(pv, reads@, (k + 1) as nat, pv.len(), duplicate_message());
                    }
                    return Err(duplicate());
                }
                re = Some(k);
            },
            Piece::Imaginary { magnitude, failure, .. } => {
                if *magnitude == Magnitude::Number && !reads[k] {
                    proof {
                        lemma_outcome_stays_failed(pv, reads@, (k + 1) as nat, pv.len(), failure@);
                    }
                    return Err(failure.clone());
                }
                if im.is_some() {
                    proof {
                        lemma_outcome_stays_failed(pv, reads@, (k + 1) as nat, pv.len(), duplicate_message());
                    }
                    return Err(duplicate());
                }
                im = Some(k);
            },
        }
        k += 1;
    }
    Ok((re, im))
}

fn duplicate() -> (m: String)
    ensures
        m@ == duplicate_message(),
{
    let c = chars_of("表达式包含重复的实部或虚部");
    string_of(&c)
}

proof fn lemma_outcome_stays_failed(
    pieces: Seq<PieceText>,
    reads: Seq<bool>,
    k: nat,
    n: nat,
    e: Seq<char>,
)
    requires
        k <= n,
        outcome_spec(pieces, reads, k) == Err::<(Option<nat>, Option<nat>), Seq<char>>(e),
    ensures
        outcome_spec(pieces, reads, n) == Err::<(Option<nat>, Option<nat>), Seq<char>>(e),
    decreases n - k,
{
    if k < n {
        lemma_outcome_stays_failed(pieces, reads, k, (n - 1) as nat, e);
    }
}


/// When an expression is read, the real value comes from a real part and
/// the imaginary value from an imaginary part, each of whose number text
/// read when it has one to read.
pub proof fn parts_keep_their_kind(pieces: Seq<PieceText>, reads: Seq<bool>, n: nat)
    requires
        n <= pieces.len(),
        reads.len() == pieces.len(),
    ensures
        outcome_spec(pieces, reads, n) matches Ok((re, im)) ==> {
            &&& re matches Some(k) ==> k < n && pieces[k as int] is Real && reads[k as int]
            &&& im matches Some(k) ==> k < n && pieces[k as int] is Imaginary && (
            pieces[k as int]->Imaginary_magnitude == Magnitude::Number ==> reads[k as int])
        },
    decreases n,
{
    if n > 0 {
        parts_keep_their_kind(pieces, reads, (n - 1) as nat);
    }
}

} // verus!
