//! The interface texts, one table per language.
use vstd::prelude::*;

verus! {

/// The texts of the bottom navigation.
pub struct Text {
    pub bottom_to_bookshelf_page: &'static str,
    pub bottom_to_discovery_page: &'static str,
    pub bottom_to_message_page: &'static str,
    pub bottom_to_my_page: &'static str,
}

/// The languages the interface is written in.
pub enum Language {
    Zh,
    En,
    Ja,
}

/// The table of the client's language.
pub fn text_for(language: Language, zh: Text, en: Text, ja: Text) -> (r: Text)
    ensures
        language is Zh ==> r == zh,
        language is En ==> r == en,
        language is Ja ==> r == ja,
{
    match language {
        Language::Zh => zh,
        Language::En => en,
        Language::Ja => ja,
    }
}

} // verus!
