//! Frontend languages.
use vstd::prelude::*;

use crate::text::str_eq;

verus! {

#[derive(Clone, Copy, Debug, PartialEq, Eq, Hash, Structural)]
pub enum Language {
    English,
    SimplifiedChinese,
}

pub open spec fn language_tag(language: Language) -> Seq<char> {
    match language {
        Language::English => "en"@,
        Language::SimplifiedChinese => "zh-CN"@,
    }
}

impl Language {
    /// Every supported language, in menu order.
    pub fn all() -> (r: [Language; 2])
        ensures
            r@ == seq![Language::English, Language::SimplifiedChinese],
    {
        [Language::English, Language::SimplifiedChinese]
    }

    pub fn as_str(self) -> (r: &'static str)
        ensures
            r@ == language_tag(self),
    {
        match self {
            Language::English => "en",
            Language::SimplifiedChinese => "zh-CN",
        }
    }

    /// Parse a language tag; anything but the two tags is unsupported.
    pub fn from_tag(value: &str) -> (r: Option<Language>)
        ensures
            r matches Some(l) ==> language_tag(l) == value@,
            r is None <==> (value@ != "en"@ && value@ != "zh-CN"@),
    {
        if str_eq(value, "en") {
            Some(Language::English)
        } else if str_eq(value, "zh-CN") {
            Some(Language::SimplifiedChinese)
        } else {
            None
        }
    }
}

impl Default for Language {
    fn default() -> (r: Language)
        ensures
            r == Language::English,
    {
        Language::English
    }
}

} // verus!
