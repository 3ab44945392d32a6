//! Interface language and a two-language string picker.
//!
//! The selected language is carried explicitly and passed to every function
//! that produces human-readable text.

use crate::text::{Strip, chars_of, lower_seq, lowercase, has_prefix, starts_with_str, strip, trim};
use vstd::prelude::*;

verus! {

/// The languages the interface speaks.
#[derive(Clone, Copy, Debug, PartialEq, Eq, Structural)]
pub enum Lang {
    /// Simplified Chinese.
    Chinese,
    /// English.
    English,
}

impl Default for Lang {
    fn default() -> (lang: Lang)
        ensures
            lang == Lang::Chinese,
    {
        Lang::Chinese
    }
}

/// The language a locale code names: a code that begins with `zh` or `en`
/// after trimming and ASCII lowercasing.
pub open spec fn lang_of_code(code: Seq<char>) -> Option<Lang> {
    let lower = lower_seq(trim(code, Strip::Space));
    if has_prefix(lower, "zh"@) {
        Some(Lang::Chinese)
    } else if has_prefix(lower, "en"@) {
        Some(Lang::English)
    } else {
        None
    }
}

impl Lang {
    /// Every language, in menu order.
    pub fn all() -> (langs: Vec<Lang>)
        ensures
            langs@ == seq![Lang::Chinese, Lang::English],
    {
        let mut langs = Vec::new();
        langs.push(Lang::Chinese);
        langs.push(Lang::English);
        assert(langs@ =~= seq![Lang::Chinese, Lang::English]);
        langs
    }

    /// Returns the Chinese or English argument for the current language.
    pub fn pick<'a>(self, chinese: &'a str, english: &'a str) -> (picked: &'a str)
        ensures
            picked@ == (match self {
                Lang::Chinese => chinese@,
                Lang::English => english@,
            }),
    {
        match self {
            Lang::Chinese => chinese,
            Lang::English => english,
        }
    }

    /// The word for a points count, as in "77 points".
    pub fn points_word(self) -> (word: &'static str)
        ensures
            word@ == (match self {
                Lang::Chinese => "个频点"@,
                Lang::English => "points"@,
            }),
    {
        self.pick("个频点", "points")
    }

    /// The name of the language in its own script, for a language menu.
    pub fn endonym(self) -> (name: &'static str)
        ensures
            name@ == (match self {
                Lang::Chinese => "中文"@,
                Lang::English => "English"@,
            }),
    {
        match self {
            Lang::Chinese => "中文",
            Lang::English => "English",
        }
    }

    /// Maps a BCP-47 or POSIX locale code such as `zh-CN` or `en_US` to a
    /// language. Returns `None` when the code names neither.
    pub fn from_code(code: &str) -> (lang: Option<Lang>)
        ensures
            lang == lang_of_code(code@),
    {
        let chars = chars_of(code);
        let trimmed = strip(&chars, Strip::Space);
        let lower = lowercase(&trimmed);
        if starts_with_str(&lower, "zh") {
            Some(Lang::Chinese)
        } else if starts_with_str(&lower, "en") {
            Some(Lang::English)
        } else {
            None
        }
    }
}

} // verus!
