//! State and rules of the input forms: manual entry and pasted text.

use crate::i18n::Lang;
use crate::io::LoadedFile;
use crate::parse::FrequencyUnit;
use crate::text::{Strip, chars_of, has_prefix, string_of, strip, trim, starts_with_str};
use vstd::prelude::*;

verus! {

/// Which parser to apply to pasted text.
#[derive(Clone, Copy, Debug, PartialEq, Eq, Structural)]
pub enum PasteFormat {
    Auto,
    TouchstoneOnePort,
    TouchstoneTwoPort,
    Csv,
}

impl PasteFormat {
    pub open spec fn label_spec(self, lang: Lang) -> Seq<char> {
        match (self, lang) {
            (PasteFormat::Auto, Lang::Chinese) => "自动识别"@,
            (PasteFormat::Auto, Lang::English) => "Auto detect"@,
            (PasteFormat::TouchstoneOnePort, Lang::Chinese) => "Touchstone 1 端口 (.s1p)"@,
            (PasteFormat::TouchstoneOnePort, Lang::English) => "Touchstone one-port (.s1p)"@,
            (PasteFormat::TouchstoneTwoPort, Lang::Chinese) => "Touchstone 2 端口 (.s2p)"@,
            (PasteFormat::TouchstoneTwoPort, Lang::English) => "Touchstone two-port (.s2p)"@,
            (PasteFormat::Csv, Lang::Chinese) => "CSV / 表格"@,
            (PasteFormat::Csv, Lang::English) => "CSV / table"@,
        }
    }

    pub fn label(self, lang: Lang) -> (label: &'static str)
        ensures
            label@ == self.label_spec(lang),
    {
        match self {
            PasteFormat::Auto => lang.pick("自动识别", "Auto detect"),
            PasteFormat::TouchstoneOnePort => lang.pick(
                "Touchstone 1 端口 (.s1p)",
                "Touchstone one-port (.s1p)",
            ),
            PasteFormat::TouchstoneTwoPort => lang.pick(
                "Touchstone 2 端口 (.s2p)",
                "Touchstone two-port (.s2p)",
            ),
            PasteFormat::Csv => lang.pick("CSV / 表格", "CSV / table"),
        }
    }

    /// The extension that makes format detection pick this format.
    pub open spec fn extension_spec(self) -> Seq<char> {
        match self {
            PasteFormat::Auto => Seq::empty(),
            PasteFormat::TouchstoneOnePort => ".s1p"@,
            PasteFormat::TouchstoneTwoPort => ".s2p"@,
            PasteFormat::Csv => ".csv"@,
        }
    }

    /// A file name for pasted text: `base` plus the extension of the chosen
    /// format, or `base` alone for automatic detection.
    pub fn file_name(self, base: &str) -> (name: String)
        ensures
            name@ == base@ + self.extension_spec(),
    {
        let mut all = chars_of(base);
        let mut ext = match self {
            PasteFormat::Auto => Vec::new(),
            PasteFormat::TouchstoneOnePort => chars_of(".s1p"),
            PasteFormat::TouchstoneTwoPort => chars_of(".s2p"),
            PasteFormat::Csv => chars_of(".csv"),
        };
        assert(ext@ == self.extension_spec());
        all.append(&mut ext);
        string_of(&all)
    }
}

/// Pasted Touchstone or table text.
#[derive(Debug)]
pub struct PasteForm {
    pub text: String,
    pub format: PasteFormat,
    pub name: String,
}

impl Default for PasteForm {
    fn default() -> (form: PasteForm)
        ensures
            form.text@ == Seq::<char>::empty(),
            form.format == PasteFormat::Auto,
            form.name@ == "pasted"@,
    {
        let empty: Vec<char> = Vec::new();
        let name = chars_of("pasted");
        PasteForm {
            text: string_of(&empty),
            format: PasteFormat::Auto,
            name: string_of(&name),
        }
    }
}

/// The base of the file name given to pasted text: the trimmed name, or
/// `pasted` when the name is blank.
pub open spec fn paste_base(name: Seq<char>) -> Seq<char> {
    if trim(name, Strip::Space).len() == 0 {
        "pasted"@
    } else {
        trim(name, Strip::Space)
    }
}

impl PasteForm {
    /// What the import button hands on: nothing while the text is blank,
    /// otherwise the text under a name that carries the chosen format.
    pub fn submit(&self) -> (file: Option<LoadedFile>)
        ensures
            file is None <==> trim(self.text@, Strip::Space).len() == 0,
            file matches Some(f) ==> {
                &&& f.name@ == paste_base(self.name@) + self.format.extension_spec()
                &&& f.text@ == self.text@
            },
    {
        let text = chars_of(self.text.as_str());
        if strip(&text, Strip::Space).len() == 0 {
            return None;
        }
        let name = chars_of(self.name.as_str());
        let trimmed = strip(&name, Strip::Space);
        let base = if trimmed.len() == 0 {
            chars_of("pasted")
        } else {
            trimmed
        };
        let base_text = string_of(&base);
        Some(LoadedFile { name: self.format.file_name(base_text.as_str()), text: self.text.clone() })
    }
}

/// Whether the manual form takes an impedance or a reflection coefficient.
#[derive(Clone, Copy, Debug, PartialEq, Eq, Structural)]
pub enum EntryMode {
    Impedance,
    Reflection,
}

/// How a reflection coefficient is entered.
#[derive(Clone, Copy, Debug, PartialEq, Eq, Structural)]
pub enum ReflectionForm {
    RealImaginary,
    MagnitudePhase,
}

/// Manual entry of one impedance or reflection coefficient.
#[derive(Debug)]
pub struct ImpedanceForm {
    pub mode: EntryMode,
    pub expression: String,
    pub resistance: String,
    pub reactance: String,
    pub reflection_form: ReflectionForm,
    pub reflection_a: String,
    pub reflection_b: String,
    pub reference: String,
    pub frequency: String,
    pub frequency_unit: FrequencyUnit,
    pub label: String,
    pub error: Option<String>,
}

fn owned(lit: &str) -> (s: String)
    ensures
        s@ == lit@,
{
    let c = chars_of(lit);
    string_of(&c)
}

/// `R+jX` (or `R-jX` when X carries its own minus sign) from the trimmed
/// resistance and reactance fields.
pub open spec fn expression_of(resistance: Seq<char>, reactance: Seq<char>) -> Seq<char> {
    let r = trim(resistance, Strip::Space);
    let x = trim(reactance, Strip::Space);
    let sign = if has_prefix(x, "-"@) {
        Seq::<char>::empty()
    } else {
        "+"@
    };
    r + sign + "j"@ + x
}

impl ImpedanceForm {
    /// A fresh form. `reference` is the text shown for the reference
    /// impedance, normally the current plot Z0.
    pub fn new(reference: String) -> (form: ImpedanceForm)
        ensures
            form.mode == EntryMode::Impedance,
            form.expression@ == "25+j30"@,
            form.resistance@ == "25"@,
            form.reactance@ == "30"@,
            form.reflection_form == ReflectionForm::MagnitudePhase,
            form.reflection_a@ == "0.5"@,
            form.reflection_b@ == "45"@,
            form.reference@ == reference@,
            form.frequency@ == Seq::<char>::empty(),
            form.frequency_unit == FrequencyUnit::MHz,
            form.label@ == Seq::<char>::empty(),
            form.error is None,
    {
        let empty: Vec<char> = Vec::new();
        ImpedanceForm {
            mode: EntryMode::Impedance,
            expression: owned("25+j30"),
            resistance: owned("25"),
            reactance: owned("30"),
            reflection_form: ReflectionForm::MagnitudePhase,
            reflection_a: owned("0.5"),
            reflection_b: owned("45"),
            reference,
            frequency: string_of(&empty),
            frequency_unit: FrequencyUnit::MHz,
            label: string_of(&empty),
            error: None,
        }
    }

    /// Rewrites the expression after the R or X field was edited.
    pub fn sync_expression(&mut self)
        ensures
            final(self).expression@ == expression_of(old(self).resistance@, old(self).reactance@),
            final(self).resistance == old(self).resistance,
            final(self).reactance == old(self).reactance,
            final(self).mode == old(self).mode,
            final(self).label == old(self).label,
            final(self).reflection_form == old(self).reflection_form,
            final(self).reflection_a == old(self).reflection_a,
            final(self).reflection_b == old(self).reflection_b,
            final(self).reference == old(self).reference,
            final(self).frequency == old(self).frequency,
            final(self).frequency_unit == old(self).frequency_unit,
            final(self).error == old(self).error,
    {
        let r = strip(&chars_of(self.resistance.as_str()), Strip::Space);
        let x = strip(&chars_of(self.reactance.as_str()), Strip::Space);
        let mut all = r;
        if !starts_with_str(&x, "-") {
            let mut plus = chars_of("+");
            all.append(&mut plus);
        }
        let mut j = chars_of("j");
        all.append(&mut j);
        let mut xs = x;
        all.append(&mut xs);
        assert(all@ =~= expression_of(self.resistance@, self.reactance@));
        self.expression = string_of(&all);
    }

    /// The name of the new trace: the trimmed name field, or `default_label`
    /// when that is blank.
    pub fn trace_label(&self, default_label: String) -> (label: String)
        ensures
            label@ == (if trim(self.label@, Strip::Space).len() == 0 {
                default_label@
            } else {
                trim(self.label@, Strip::Space)
            }),
    {
        let trimmed = strip(&chars_of(self.label.as_str()), Strip::Space);
        if trimmed.len() == 0 {
            default_label
        } else {
            string_of(&trimmed)
        }
    }
}

} // verus!
