//! What exporting a book's words as flashcards takes: which words are fit
//! for a card, and which steps the export goes through.

use crate::definitions::{distinct_categories, lemma_merged_distinct, merged};
use crate::model::{DefinitionCategory, DefinitionView, DefinitionsEntry};
use crate::text::same_text;
use crate::word::{Word, WordView};
use vstd::prelude::*;

verus! {

/// Whether every definition has a text.
pub open spec fn all_defined(definitions: Seq<DefinitionView>) -> bool {
    forall|i: int| 0 <= i < definitions.len() ==> (#[trigger] definitions[i]).definition is Some
}

/// Whether a word is fit for a card: it has a translation and definitions,
/// and each definition has a text.
pub open spec fn exportable(word: WordView) -> bool {
    &&& word.translation is Some
    &&& word.definitions is Some
    &&& forall|category: DefinitionCategory| #[trigger]
        word.definitions->0.contains_key(category) ==> all_defined(word.definitions->0[category])
}

fn entry_is_defined(entry: &DefinitionsEntry) -> (defined: bool)
    ensures
        defined == all_defined(entry@.definitions),
{
    let mut i: usize = 0;
    while i < entry.definitions.len()
        invariant
            i <= entry.definitions.len(),
            forall|j: int| 0 <= j < i ==> (#[trigger] entry@.definitions[j]).definition is Some,
        decreases entry.definitions.len() - i,
    {
        if entry.definitions[i].definition.is_none() {
            assert(entry@.definitions[i as int].definition is None);
            return false;
        }
        i = i + 1;
    }
    true
}

/// Whether `word` is fit for a card.
pub fn is_exportable(word: &Word) -> (fit: bool)
    ensures
        fit == exportable(word@),
{
    if word.translation.is_none() {
        return false;
    }
    let definitions = match &word.definitions {
        Some(definitions) => definitions,
        None => {
            return false;
        },
    };
    let entries = definitions.entries();
    let ghost groups = entries.deep_view();
    let mut i: usize = 0;
    while i < entries.len()
        invariant
            i <= entries.len(),
            groups == entries.deep_view(),
            distinct_categories(groups),
            word@.translation is Some,
            word@.definitions == Some(merged(groups)),
            forall|j: int| 0 <= j < i ==> all_defined((#[trigger] groups[j]).definitions),
        decreases entries.len() - i,
    {
        if !entry_is_defined(&entries[i]) {
            proof {
                let category = groups[i as int].category;
                lemma_merged_distinct(groups, i as int);
                assert(groups[i as int] == entries[i as int]@);
                assert(word@.definitions->0.contains_key(category));
                assert(word@.definitions->0[category] == groups[i as int].definitions);
                assert(!all_defined(word@.definitions->0[category]));
            }
            return false;
        }
        i = i + 1;
    }
    proof {
        assert forall|category: DefinitionCategory| #[trigger]
            merged(groups).contains_key(category) implies all_defined(
            merged(groups)[category],
        ) by {
            let j = choose|j: int| 0 <= j < groups.len() && (#[trigger] groups[j]).category == category;
            lemma_merged_distinct(groups, j);
        }
    }
    true
}

/// Whether a deck of that name has yet to be created.
pub fn deck_is_missing(existing_decks: &Vec<String>, deck_name: &str) -> (missing: bool)
    ensures
        missing == !existing_decks.deep_view().contains(deck_name@),
{
    let mut i: usize = 0;
    while i < existing_decks.len()
        invariant
            i <= existing_decks.len(),
            forall|j: int| 0 <= j < i ==> (#[trigger] existing_decks.deep_view()[j]) != deck_name@,
        decreases existing_decks.len() - i,
    {
        if same_text(existing_decks[i].as_str(), deck_name) {
            assert(existing_decks.deep_view()[i as int] == deck_name@);
            return false;
        }
        i = i + 1;
    }
    true
}

/// A step of storing a book's words as a deck of cards.
#[derive(Debug, Clone, Copy, PartialEq, Eq, Structural)]
pub enum StoreStep {
    /// Delete the book's deck, cards and all.
    DeleteDeck,
    /// Create the book's deck unless it is there.
    EnsureDeck,
    /// Add the card of the word at this place in the list.
    AddWord(usize),
}

/// The steps of storing `word_count` words: a forced export starts from
/// an empty deck; then the deck is seen to; then each word is added, in
/// order.
pub open spec fn store_steps(word_count: nat, force: bool) -> Seq<StoreStep> {
    let opening = if force {
        seq![StoreStep::DeleteDeck, StoreStep::EnsureDeck]
    } else {
        seq![StoreStep::EnsureDeck]
    };
    opening + Seq::new(word_count, |i: int| StoreStep::AddWord(i as usize))
}

/// Plans the storing of a book's words.
pub fn store_book(word_count: usize, force: bool) -> (steps: Vec<StoreStep>)
    ensures
        steps@ == store_steps(word_count as nat, force),
{
    let mut steps: Vec<StoreStep> = Vec::new();
    if force {
        steps.push(StoreStep::DeleteDeck);
    }
    steps.push(StoreStep::EnsureDeck);
    let ghost opening = steps@;
    let mut i: usize = 0;
    while i < word_count
        invariant
            i <= word_count,
            steps@ == opening + Seq::new(i as nat, |j: int| StoreStep::AddWord(j as usize)),
        decreases word_count - i,
    {
        steps.push(StoreStep::AddWord(i));
        i = i + 1;
    }
    steps
}

} // verus!
