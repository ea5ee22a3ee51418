//! A vocabulary word on its way from raw highlight to flashcard.

use crate::definitions::Definitions;
use crate::model::{cloned_text, DefinitionCategory, DefinitionView};
use vstd::prelude::*;
use vstd::string::*;

verus! {

/// A word: the text it currently goes by, the highlight it came from, and
/// what has been found out about it.
///
/// `original_text` never changes and is what identifies the word;
/// `text` is replaced when the dictionary or the operator knows better.
#[derive(Debug)]
pub struct Word {
    pub text: String,
    pub original_text: String,
    pub translation: Option<String>,
    pub definitions: Option<Definitions>,
}

/// The mathematical content of a `Word`.
pub struct WordView {
    pub text: Seq<char>,
    pub original_text: Seq<char>,
    pub translation: Option<Seq<char>>,
    pub definitions: Option<Map<DefinitionCategory, Seq<DefinitionView>>>,
}

impl View for Word {
    type V = WordView;

    open spec fn view(&self) -> WordView {
        WordView {
            text: self.text@,
            original_text: self.original_text@,
            translation: self.translation.deep_view(),
            definitions: self.definitions.deep_view(),
        }
    }
}

impl DeepView for Word {
    type V = WordView;

    open spec fn deep_view(&self) -> WordView {
        self.view()
    }
}

impl WordView {
    /// A word fresh from a highlight: nothing is known of it yet.
    pub open spec fn fresh(text: Seq<char>) -> WordView {
        WordView { text, original_text: text, translation: None, definitions: None }
    }

    /// The word after the operator gave it a new text: it starts over.
    pub open spec fn redacted(self, text: Seq<char>) -> WordView {
        WordView {
            text,
            original_text: self.original_text,
            translation: None,
            definitions: None,
        }
    }

    /// The word with what was found out about it taken away.
    pub open spec fn cleared(self) -> WordView {
        WordView {
            text: self.text,
            original_text: self.original_text,
            translation: None,
            definitions: None,
        }
    }

    /// Whether two words are the same item: they came from the same
    /// highlight, whatever became of them since.
    pub open spec fn same_item(self, other: WordView) -> bool {
        self.original_text == other.original_text
    }
}

/// No two of the words came from the same highlight.
pub open spec fn distinct_keys(words: Seq<WordView>) -> bool {
    forall|i: int, j: int|
        0 <= i < j < words.len() ==> (#[trigger] words[i]).original_text != (
        #[trigger] words[j]).original_text
}

impl Word {
    /// The word of a raw highlight, untranslated and undefined.
    pub fn from_text(text: &str) -> (word: Word)
        ensures
            word@ == WordView::fresh(text@),
    {
        Word {
            text: String::from_str(text),
            original_text: String::from_str(text),
            translation: None,
            definitions: None,
        }
    }

    /// Whether `self` and `other` are the same item.
    pub fn same_item(&self, other: &Word) -> (same: bool)
        ensures
            same == self@.same_item(other@),
    {
        self.original_text == other.original_text
    }

    /// Forgets the word's translation and definitions.
    pub fn clear(&mut self)
        ensures
            final(self)@ == old(self)@.cleared(),
    {
        self.translation = None;
        self.definitions = None;
    }

    /// Takes the operator's correction: the word goes by `text` from now on
    /// and loses its translation and definitions.
    pub fn redact(&mut self, text: String)
        ensures
            final(self)@ == old(self)@.redacted(text@),
    {
        self.text = text;
        self.translation = None;
        self.definitions = None;
    }
}

impl Clone for Word {
    fn clone(&self) -> (copy: Word)
        ensures
            copy@ == self@,
    {
        let definitions = match &self.definitions {
            Some(definitions) => Some(definitions.clone()),
            None => None,
        };
        Word {
            text: self.text.clone(),
            original_text: self.original_text.clone(),
            translation: cloned_text(&self.translation),
            definitions,
        }
    }
}

} // verus!
