//! Provenance of loaded data, and the rules that pick which traces of a
//! document are shown.

use crate::i18n::Lang;
use crate::text::{chars_of, decimal_text, push_lit, push_number, string_of};
use vstd::prelude::*;

verus! {

/// Which two-port reflection a trace was derived from.
#[derive(Clone, Copy, Debug, PartialEq, Eq, Structural)]
pub enum PortVariant {
    S11,
    S22,
}

impl PortVariant {
    pub fn label(self) -> (label: &'static str)
        ensures
            label@ == (match self {
                PortVariant::S11 => "S11"@,
                PortVariant::S22 => "S22"@,
            }),
    {
        match self {
            PortVariant::S11 => "S11",
            PortVariant::S22 => "S22",
        }
    }

    pub fn port_number(self) -> (port: u8)
        ensures
            port == (match self {
                PortVariant::S11 => 1u8,
                PortVariant::S22 => 2u8,
            }),
    {
        match self {
            PortVariant::S11 => 1,
            PortVariant::S22 => 2,
        }
    }
}

/// How the physical impedance of a trace was obtained.
#[derive(Clone, Copy, Debug, PartialEq, Eq, Structural)]
pub enum TraceOrigin {
    /// Entered as `R + jX` by hand.
    ManualImpedance,
    /// Entered as a complex reflection coefficient by hand.
    ManualReflection,
    /// Frequency, R, X columns from a table.
    ImpedanceColumns,
    /// Reflection-coefficient columns from a table.
    ReflectionColumns,
    /// Touchstone one-port S parameter.
    OnePortS,
    /// Touchstone one-port normalized Z parameter.
    OnePortZ,
    /// Touchstone one-port normalized Y parameter.
    OnePortY,
    /// Touchstone two-port reflection at one port with the other port matched.
    TwoPortS(PortVariant),
    /// Analytic demonstration model.
    Demo,
}

/// One line that says what a trace is.
pub open spec fn description_of(label: Seq<char>, origin: TraceOrigin, lang: Lang) -> Seq<char> {
    let zh = lang == Lang::Chinese;
    match origin {
        TraceOrigin::TwoPortS(variant) => {
            let name = match variant {
                PortVariant::S11 => "S11"@,
                PortVariant::S22 => "S22"@,
            };
            let port = decimal_text(
                match variant {
                    PortVariant::S11 => 1nat,
                    PortVariant::S22 => 2nat,
                },
            );
            if zh {
                name + "：端口 "@ + port + " 的反射，另一端口匹配终接"@
            } else {
                name + ": port "@ + port + " reflection, the other port matched"@
            }
        },
        TraceOrigin::OnePortS => if zh {
            "S11：单端口反射"@
        } else {
            "S11: one-port reflection"@
        },
        TraceOrigin::OnePortZ => if zh {
            "Z11：单端口归一化阻抗"@
        } else {
            "Z11: one-port normalized impedance"@
        },
        TraceOrigin::OnePortY => if zh {
            "Y11：单端口归一化导纳"@
        } else {
            "Y11: one-port normalized admittance"@
        },
        TraceOrigin::ImpedanceColumns => label + if zh {
            "：表格 R、X 列"@
        } else {
            ": table R, X columns"@
        },
        TraceOrigin::ReflectionColumns => label + if zh {
            "：表格反射系数列"@
        } else {
            ": table reflection columns"@
        },
        TraceOrigin::ManualImpedance | TraceOrigin::ManualReflection => label + if zh {
            "：手动输入"@
        } else {
            ": manual entry"@
        },
        TraceOrigin::Demo => label + if zh {
            "：演示数据"@
        } else {
            ": demo data"@
        },
    }
}

/// Describes a trace by its label and origin.
pub fn trace_description(label: &str, origin: TraceOrigin, lang: Lang) -> (text: String)
    ensures
        text@ == description_of(label@, origin, lang),
{
    let m = match origin {
        TraceOrigin::TwoPortS(variant) => {
            let mut m = chars_of(variant.label());
            push_lit(&mut m, lang.pick("：端口 ", ": port "));
            push_number(&mut m, variant.port_number() as usize);
            push_lit(
                &mut m,
                lang.pick(" 的反射，另一端口匹配终接", " reflection, the other port matched"),
            );
            m
        },
        TraceOrigin::OnePortS => chars_of(lang.pick("S11：单端口反射", "S11: one-port reflection")),
        TraceOrigin::OnePortZ => chars_of(
            lang.pick("Z11：单端口归一化阻抗", "Z11: one-port normalized impedance"),
        ),
        TraceOrigin::OnePortY => chars_of(
            lang.pick("Y11：单端口归一化导纳", "Y11: one-port normalized admittance"),
        ),
        TraceOrigin::ImpedanceColumns => {
            let mut m = chars_of(label);
            push_lit(&mut m, lang.pick("：表格 R、X 列", ": table R, X columns"));
            m
        },
        TraceOrigin::ReflectionColumns => {
            let mut m = chars_of(label);
            push_lit(&mut m, lang.pick("：表格反射系数列", ": table reflection columns"));
            m
        },
        TraceOrigin::ManualImpedance | TraceOrigin::ManualReflection => {
            let mut m = chars_of(label);
            push_lit(&mut m, lang.pick("：手动输入", ": manual entry"));
            m
        },
        TraceOrigin::Demo => {
            let mut m = chars_of(label);
            push_lit(&mut m, lang.pick("：演示数据", ": demo data"));
            m
        },
    };
    proof {
        if origin is TwoPortS {
            assert(m@ =~= description_of(label@, origin, lang));
        }
    }
    string_of(&m)
}

/// Where a document came from.
#[derive(Clone, Debug, PartialEq, Eq)]
pub enum DataSource {
    Manual,
    /// Built-in demonstration data with a human-readable description.
    Demo { description: String },
    Csv { file_name: String, detail: String },
    Touchstone { file_name: String, detail: String },
}

/// `file_name: detail`.
pub open spec fn joined_detail(file_name: Seq<char>, detail: Seq<char>) -> Seq<char> {
    file_name + ": "@ + detail
}

impl DataSource {
    pub open spec fn kind_label_spec(&self) -> Seq<char> {
        match self {
            DataSource::Manual => "手动输入"@,
            DataSource::Demo { .. } => "演示数据"@,
            DataSource::Csv { .. } => "CSV 表格"@,
            DataSource::Touchstone { .. } => "Touchstone"@,
        }
    }

    pub fn kind_label(&self) -> (label: &'static str)
        ensures
            label@ == self.kind_label_spec(),
    {
        match self {
            DataSource::Manual => "手动输入",
            DataSource::Demo { .. } => "演示数据",
            DataSource::Csv { .. } => "CSV 表格",
            DataSource::Touchstone { .. } => "Touchstone",
        }
    }

    pub open spec fn detail_spec(&self) -> Seq<char> {
        match self {
            DataSource::Manual => "手动输入"@,
            DataSource::Demo { description } => description@,
            DataSource::Csv { file_name, detail } => joined_detail(file_name@, detail@),
            DataSource::Touchstone { file_name, detail } => joined_detail(file_name@, detail@),
        }
    }

    /// One line describing the source.
    pub fn detail(&self) -> (text: String)
        ensures
            text@ == self.detail_spec(),
    {
        match self {
            DataSource::Manual => {
                let c = chars_of("手动输入");
                string_of(&c)
            },
            DataSource::Demo { description } => description.clone(),
            DataSource::Csv { file_name, detail } => join_detail(file_name, detail),
            DataSource::Touchstone { file_name, detail } => join_detail(file_name, detail),
        }
    }

    pub fn is_demo(&self) -> (demo: bool)
        ensures
            demo == (self is Demo),
    {
        match self {
            DataSource::Demo { .. } => true,
            _ => false,
        }
    }
}

fn join_detail(file_name: &String, detail: &String) -> (text: String)
    ensures
        text@ == joined_detail(file_name@, detail@),
{
    let mut all = chars_of(file_name.as_str());
    let mut sep = chars_of(": ");
    let mut rest = chars_of(detail.as_str());
    all.append(&mut sep);
    all.append(&mut rest);
    string_of(&all)
}

// ---------------------------------------------------------------------------
// Traces and variants
// ---------------------------------------------------------------------------

/// Number of readable samples, given for each sample whether it holds an
/// impedance.
pub open spec fn count_true(flags: Seq<bool>) -> nat
    decreases flags.len(),
{
    if flags.len() == 0 {
        0
    } else {
        count_true(flags.drop_last()) + if flags.last() {
            1nat
        } else {
            0nat
        }
    }
}

proof fn lemma_count_true_bound(flags: Seq<bool>)
    ensures
        count_true(flags) <= flags.len(),
    decreases flags.len(),
{
    if flags.len() > 0 {
        lemma_count_true_bound(flags.drop_last());
    }
}

/// How many samples of a trace hold an impedance; `has_impedance[i]` says
/// whether sample `i` does.
pub fn valid_sample_count(has_impedance: &Vec<bool>) -> (count: usize)
    ensures
        count == count_true(has_impedance@),
{
    let mut count: usize = 0;
    let mut i: usize = 0;
    while i < has_impedance.len()
        invariant
            i <= has_impedance.len(),
            count == count_true(has_impedance@.take(i as int)),
        decreases has_impedance.len() - i,
    {
        assert(has_impedance@.take(i + 1).drop_last() =~= has_impedance@.take(i as int));
        proof {
            lemma_count_true_bound(has_impedance@.take(i as int));
        }
        if has_impedance[i] {
            count += 1;
        }
        i += 1;
    }
    assert(has_impedance@.take(i as int) =~= has_impedance@);
    count
}

/// A trace has a frequency axis when it holds more than one sample and every
/// sample carries a frequency.
pub open spec fn frequency_axis(has_frequency: Seq<bool>) -> bool {
    has_frequency.len() > 1 && forall|i: int| 0 <= i < has_frequency.len() ==> has_frequency[i]
}

pub fn has_frequency_axis(has_frequency: &Vec<bool>) -> (axis: bool)
    ensures
        axis == frequency_axis(has_frequency@),
{
    if has_frequency.len() <= 1 {
        return false;
    }
    let mut i: usize = 0;
    while i < has_frequency.len()
        invariant
            i <= has_frequency.len(),
            forall|j: int| 0 <= j < i ==> has_frequency@[j],
        decreases has_frequency.len() - i,
    {
        if !has_frequency[i] {
            return false;
        }
        i += 1;
    }
    true
}

/// Whether trace `index` is displayed: with a variant selection only the
/// selected trace is, otherwise all are.
pub open spec fn is_visible(selection: Option<usize>, index: usize) -> bool {
    match selection {
        Some(selected) => selected == index,
        None => true,
    }
}

pub fn trace_visible(selection: Option<usize>, index: usize) -> (visible: bool)
    ensures
        visible == is_visible(selection, index),
{
    match selection {
        Some(selected) => selected == index,
        None => true,
    }
}

/// Indices of the displayed traces among `trace_count`, in order.
pub fn visible_traces(selection: Option<usize>, trace_count: usize) -> (indices: Vec<usize>)
    ensures
        forall|k: int| 0 <= k < indices.len() ==> #[trigger] indices@[k] < trace_count,
        forall|k: int, l: int| 0 <= k < l < indices.len() ==> indices@[k] < indices@[l],
        forall|i: usize| i < trace_count ==> (indices@.contains(i) <==> is_visible(selection, i)),
{
    let mut indices: Vec<usize> = Vec::new();
    let mut i: usize = 0;
    while i < trace_count
        invariant
            i <= trace_count,
            forall|k: int| 0 <= k < indices.len() ==> #[trigger] indices@[k] < i,
            forall|k: int, l: int| 0 <= k < l < indices.len() ==> indices@[k] < indices@[l],
            forall|j: usize| j < i ==> (indices@.contains(j) <==> is_visible(selection, j)),
        decreases trace_count - i,
    {
        let ghost before = indices@;
        if trace_visible(selection, i) {
            indices.push(i);
            assert(indices@.last() == i);
        }
        assert forall|j: usize| j < i + 1 implies (indices@.contains(j) <==> is_visible(
            selection,
            j,
        )) by {
            if j < i {
                if indices@.contains(j) {
                    let k = choose|k: int| 0 <= k < indices@.len() && indices@[k] == j;
                    if k < before.len() {
                        assert(before[k] == j);
                    }
                } else {
                    if before.contains(j) {
                        let k = choose|k: int| 0 <= k < before.len() && before[k] == j;
                        assert(indices@[k] == j);
                    }
                }
            } else {
                if indices@.contains(j) {
                    let k = choose|k: int| 0 <= k < indices@.len() && indices@[k] == j;
                    if k < before.len() {
                        assert(before[k] < i);
                    }
                }
            }
        }
        i += 1;
    }
    indices
}

/// A document offers a choice when it has a selection and several traces.
pub fn has_variants(selection: Option<usize>, trace_count: usize) -> (offers: bool)
    ensures
        offers == (selection is Some && trace_count > 1),
{
    selection.is_some() && trace_count > 1
}

/// Switches to variant `index` when it exists and the document offers a
/// choice; otherwise the selection is unchanged.
pub fn select_variant(selection: &mut Option<usize>, trace_count: usize, index: usize)
    ensures
        *final(selection) == (if index < trace_count && old(selection).is_some() {
            Some(index)
        } else {
            *old(selection)
        }),
{
    if index < trace_count && selection.is_some() {
        *selection = Some(index);
    }
}

/// Index of the first `true`, or -1.
pub open spec fn first_true(flags: Seq<bool>) -> int
    decreases flags.len(),
{
    if flags.len() == 0 {
        -1
    } else if flags[0] {
        0
    } else {
        let r = first_true(flags.drop_first());
        if r < 0 {
            -1
        } else {
            r + 1
        }
    }
}

proof fn lemma_first_true(flags: Seq<bool>, k: int)
    requires
        0 <= k <= flags.len(),
        forall|j: int| 0 <= j < k ==> !flags[j],
        k < flags.len() ==> flags[k],
    ensures
        first_true(flags) == (if k < flags.len() {
            k
        } else {
            -1
        }),
    decreases flags.len(),
{
    if flags.len() > 0 && k > 0 {
        lemma_first_true(flags.drop_first(), k - 1);
    }
}

/// The sample selected when a document is loaded: the first one of its
/// primary trace that holds an impedance, if any does.
pub fn first_valid_sample(has_impedance: &Vec<bool>) -> (index: Option<usize>)
    ensures
        match index {
            Some(k) => first_true(has_impedance@) == k as int,
            None => first_true(has_impedance@) == -1,
        },
{
    let mut i: usize = 0;
    while i < has_impedance.len()
        invariant
            i <= has_impedance.len(),
            forall|j: int| 0 <= j < i ==> !has_impedance@[j],
        decreases has_impedance.len() - i,
    {
        if has_impedance[i] {
            proof {
                lemma_first_true(has_impedance@, i as int);
            }
            return Some(i);
        }
        i += 1;
    }
    proof {
        lemma_first_true(has_impedance@, i as int);
    }
    None
}

/// The trace the frequency slider follows: the selected variant, or else the
/// first trace with a frequency axis, or else the first trace.
pub open spec fn primary_index(selection: Option<usize>, axes: Seq<bool>) -> int {
    match selection {
        Some(selected) => selected as int,
        None => if first_true(axes) >= 0 {
            first_true(axes)
        } else {
            0
        },
    }
}

/// `has_axis[i]` says whether trace `i` has a frequency axis.
pub fn primary_trace_index(selection: Option<usize>, has_axis: &Vec<bool>) -> (index: usize)
    ensures
        index == primary_index(selection, has_axis@),
{
    match selection {
        Some(selected) => selected,
        None => {
            let mut i: usize = 0;
            while i < has_axis.len()
                invariant
                    selection.is_none(),
                    i <= has_axis.len(),
                    forall|j: int| 0 <= j < i ==> !has_axis@[j],
                decreases has_axis.len() - i,
            {
                if has_axis[i] {
                    proof {
                        lemma_first_true(has_axis@, i as int);
                    }
                    return i;
                }
                i += 1;
            }
            proof {
                lemma_first_true(has_axis@, i as int);
            }
            0
        },
    }
}

} // verus!
