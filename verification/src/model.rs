//! The vocabulary data: the grammatical categories, a definition, and the
//! definitions that one lexical entry gives.

use crate::text::same_text;
use vstd::prelude::*;
use vstd::string::*;

verus! {

/// The grammatical categories a definition can be filed under.
#[derive(Debug, Clone, Copy, PartialEq, Eq, Hash, Structural)]
pub enum DefinitionCategory {
    Noun,
    Verb,
    Adjective,
    Adverb,
    Preposition,
    Interjection,
    Idiomatic,
    Pronoun,
}

impl DefinitionCategory {
    /// The category's name as dictionaries and the cache write it.
    pub open spec fn spec_name(self) -> Seq<char> {
        match self {
            DefinitionCategory::Noun => "noun"@,
            DefinitionCategory::Verb => "verb"@,
            DefinitionCategory::Adjective => "adjective"@,
            DefinitionCategory::Adverb => "adverb"@,
            DefinitionCategory::Preposition => "preposition"@,
            DefinitionCategory::Interjection => "interjection"@,
            DefinitionCategory::Idiomatic => "idiomatic"@,
            DefinitionCategory::Pronoun => "pronoun"@,
        }
    }

    /// The category that `text` names, if it names one.
    pub open spec fn named(text: Seq<char>) -> Option<DefinitionCategory> {
        if text == "noun"@ {
            Some(DefinitionCategory::Noun)
        } else if text == "verb"@ {
            Some(DefinitionCategory::Verb)
        } else if text == "adjective"@ {
            Some(DefinitionCategory::Adjective)
        } else if text == "adverb"@ {
            Some(DefinitionCategory::Adverb)
        } else if text == "preposition"@ {
            Some(DefinitionCategory::Preposition)
        } else if text == "interjection"@ {
            Some(DefinitionCategory::Interjection)
        } else if text == "idiomatic"@ {
            Some(DefinitionCategory::Idiomatic)
        } else if text == "pronoun"@ {
            Some(DefinitionCategory::Pronoun)
        } else {
            None
        }
    }

    /// Looks `text` up in the closed table of category names. Any other text
    /// names no category.
    pub fn from_str(text: &str) -> (category: Option<DefinitionCategory>)
        ensures
            category == Self::named(text@),
    {
        if same_text(text, "noun") {
            Some(DefinitionCategory::Noun)
        } else if same_text(text, "verb") {
            Some(DefinitionCategory::Verb)
        } else if same_text(text, "adjective") {
            Some(DefinitionCategory::Adjective)
        } else if same_text(text, "adverb") {
            Some(DefinitionCategory::Adverb)
        } else if same_text(text, "preposition") {
            Some(DefinitionCategory::Preposition)
        } else if same_text(text, "interjection") {
            Some(DefinitionCategory::Interjection)
        } else if same_text(text, "idiomatic") {
            Some(DefinitionCategory::Idiomatic)
        } else if same_text(text, "pronoun") {
            Some(DefinitionCategory::Pronoun)
        } else {
            None
        }
    }

    /// The category's name.
    pub fn name(&self) -> (name: String)
        ensures
            name@ == self.spec_name(),
    {
        match self {
            DefinitionCategory::Noun => String::from_str("noun"),
            DefinitionCategory::Verb => String::from_str("verb"),
            DefinitionCategory::Adjective => String::from_str("adjective"),
            DefinitionCategory::Adverb => String::from_str("adverb"),
            DefinitionCategory::Preposition => String::from_str("preposition"),
            DefinitionCategory::Interjection => String::from_str("interjection"),
            DefinitionCategory::Idiomatic => String::from_str("idiomatic"),
            DefinitionCategory::Pronoun => String::from_str("pronoun"),
        }
    }

    /// Appends the category's name to `buffer`.
    pub fn render_to(&self, buffer: &mut String)
        ensures
            final(buffer)@ == old(buffer)@ + self.spec_name(),
    {
        let name = self.name();
        buffer.append(name.as_str());
    }

    /// A category's name names that category and no other.
    pub proof fn lemma_name_round_trip(category: DefinitionCategory)
        ensures
            Self::named(category.spec_name()) == Some(category),
    {
        reveal_strlit("noun");
        reveal_strlit("verb");
        reveal_strlit("adjective");
        reveal_strlit("adverb");
        reveal_strlit("preposition");
        reveal_strlit("interjection");
        reveal_strlit("idiomatic");
        reveal_strlit("pronoun");
        assert("noun"@.len() == 4 && "noun"@[0] == 'n');
        assert("verb"@.len() == 4 && "verb"@[0] == 'v');
        assert("adjective"@.len() == 9 && "adjective"@[0] == 'a');
        assert("adverb"@.len() == 6);
        assert("preposition"@.len() == 11);
        assert("interjection"@.len() == 12);
        assert("idiomatic"@.len() == 9 && "idiomatic"@[0] == 'i');
        assert("pronoun"@.len() == 7);
    }
}

/// A copy of `texts`.
pub fn cloned_texts(texts: &Vec<String>) -> (copy: Vec<String>)
    ensures
        copy.deep_view() == texts.deep_view(),
{
    let mut copy: Vec<String> = Vec::new();
    let mut i: usize = 0;
    while i < texts.len()
        invariant
            i <= texts.len(),
            copy.len() == i,
            forall|j: int| 0 <= j < i ==> copy[j]@ == texts[j]@,
        decreases texts.len() - i,
    {
        copy.push(texts[i].clone());
        i = i + 1;
    }
    assert(copy.deep_view() =~= texts.deep_view());
    copy
}

/// A copy of `text`.
pub fn cloned_text(text: &Option<String>) -> (copy: Option<String>)
    ensures
        copy.deep_view() == text.deep_view(),
{
    match text {
        Some(inner) => Some(inner.clone()),
        None => None,
    }
}

/// One sense of a word: what it means, and examples of its use.
#[derive(Debug, PartialEq, Eq)]
pub struct Definition {
    pub definition: Option<String>,
    pub examples: Vec<String>,
}

/// The mathematical content of a `Definition`.
pub struct DefinitionView {
    pub definition: Option<Seq<char>>,
    pub examples: Seq<Seq<char>>,
}

impl View for Definition {
    type V = DefinitionView;

    open spec fn view(&self) -> DefinitionView {
        DefinitionView {
            definition: self.definition.deep_view(),
            examples: self.examples.deep_view(),
        }
    }
}

impl DeepView for Definition {
    type V = DefinitionView;

    open spec fn deep_view(&self) -> DefinitionView {
        self.view()
    }
}

impl Clone for Definition {
    fn clone(&self) -> (copy: Definition)
        ensures
            copy@ == self@,
    {
        Definition {
            definition: cloned_text(&self.definition),
            examples: cloned_texts(&self.examples),
        }
    }
}

/// A copy of `definitions`.
pub fn cloned_definitions(definitions: &Vec<Definition>) -> (copy: Vec<Definition>)
    ensures
        copy.deep_view() == definitions.deep_view(),
{
    let mut copy: Vec<Definition> = Vec::new();
    let mut i: usize = 0;
    while i < definitions.len()
        invariant
            i <= definitions.len(),
            copy.len() == i,
            forall|j: int| 0 <= j < i ==> copy[j]@ == definitions[j]@,
        decreases definitions.len() - i,
    {
        copy.push(definitions[i].clone());
        i = i + 1;
    }
    assert(copy.deep_view() =~= definitions.deep_view());
    copy
}

/// The definitions that one lexical entry gives under one category.
#[derive(Debug, PartialEq, Eq)]
pub struct DefinitionsEntry {
    pub definitions: Vec<Definition>,
    pub category: DefinitionCategory,
}

/// The mathematical content of a `DefinitionsEntry`.
pub struct DefinitionsEntryView {
    pub definitions: Seq<DefinitionView>,
    pub category: DefinitionCategory,
}

impl View for DefinitionsEntry {
    type V = DefinitionsEntryView;

    open spec fn view(&self) -> DefinitionsEntryView {
        DefinitionsEntryView {
            definitions: self.definitions.deep_view(),
            category: self.category,
        }
    }
}

impl DeepView for DefinitionsEntry {
    type V = DefinitionsEntryView;

    open spec fn deep_view(&self) -> DefinitionsEntryView {
        self.view()
    }
}

impl Clone for DefinitionsEntry {
    fn clone(&self) -> (copy: DefinitionsEntry)
        ensures
            copy@ == self@,
    {
        DefinitionsEntry {
            definitions: cloned_definitions(&self.definitions),
            category: self.category,
        }
    }
}

} // verus!
