//! What the dictionary service answers, as plain data, and the reading of
//! it: which definitions an entry gives, under which category, and which
//! other words it points to when it gives none.

use crate::error::{ErrorView, OxfordClientError};
use crate::model::{
    Definition, DefinitionCategory, DefinitionView, DefinitionsEntry, DefinitionsEntryView,
};
use crate::text::{lowercase_of, to_lowercase, trim, trimmed};
use vstd::prelude::*;
use vstd::string::*;

verus! {

/// A piece of text in a dictionary answer.
#[derive(Debug)]
pub struct CommonTextEntry {
    pub text: String,
}

impl View for CommonTextEntry {
    type V = Seq<char>;

    open spec fn view(&self) -> Seq<char> {
        self.text@
    }
}

impl DeepView for CommonTextEntry {
    type V = Seq<char>;

    open spec fn deep_view(&self) -> Seq<char> {
        self.text@
    }
}

/// One sense of a word as the dictionary gives it.
#[derive(Debug)]
pub struct EntriesSense {
    pub definitions: Option<Vec<String>>,
    pub examples: Option<Vec<CommonTextEntry>>,
    pub short_definitions: Option<Vec<String>>,
    pub subsenses: Option<Vec<EntriesSense>>,
    pub cross_references: Option<Vec<CommonTextEntry>>,
}

/// One dictionary entry: its senses.
#[derive(Debug)]
pub struct EntriesEntry {
    pub senses: Vec<EntriesSense>,
}

/// The senses of a word under one grammatical category.
#[derive(Debug)]
pub struct EntriesLexicalEntry {
    pub entries: Vec<EntriesEntry>,
    pub lexical_category: CommonTextEntry,
    pub derivative_of: Option<Vec<CommonTextEntry>>,
}

/// One result of an entries lookup.
#[derive(Debug)]
pub struct EntriesResults {
    pub lexical_entries: Vec<EntriesLexicalEntry>,
}

/// The answer to an entries lookup.
#[derive(Debug)]
pub struct EntriesResponse {
    pub results: Option<Vec<EntriesResults>>,
}

/// The texts of a list that may be absent: an absent list reads as an empty
/// one.
pub open spec fn strings_of(list: Option<Vec<String>>) -> Seq<Seq<char>> {
    match list {
        Some(texts) => texts.deep_view(),
        None => Seq::empty(),
    }
}

/// The texts of a list of text entries that may be absent: an absent list
/// reads as an empty one.
pub open spec fn texts_of(list: Option<Vec<CommonTextEntry>>) -> Seq<Seq<char>> {
    match list {
        Some(entries) => entries.deep_view(),
        None => Seq::empty(),
    }
}

/// What a sense says for itself, its sub-senses left aside.
pub struct SenseText {
    pub definitions: Seq<Seq<char>>,
    pub examples: Seq<Seq<char>>,
    pub short_definitions: Seq<Seq<char>>,
    pub cross_references: Seq<Seq<char>>,
}

/// The mathematical content of an `EntriesSense`: what it says for itself
/// and what each of its sub-senses says for itself. What lies deeper is not
/// read.
pub struct SenseView {
    pub own: SenseText,
    pub subsenses: Seq<SenseText>,
}

impl EntriesSense {
    /// What this sense says for itself.
    pub open spec fn own_text(&self) -> SenseText {
        SenseText {
            definitions: strings_of(self.definitions),
            examples: texts_of(self.examples),
            short_definitions: strings_of(self.short_definitions),
            cross_references: texts_of(self.cross_references),
        }
    }
}

/// What each sense of a list says for itself.
pub open spec fn own_texts(senses: Seq<EntriesSense>) -> Seq<SenseText> {
    Seq::new(senses.len(), |i: int| senses[i].own_text())
}

impl View for EntriesSense {
    type V = SenseView;

    open spec fn view(&self) -> SenseView {
        SenseView {
            own: self.own_text(),
            subsenses: match self.subsenses {
                Some(subsenses) => own_texts(subsenses@),
                None => Seq::empty(),
            },
        }
    }
}

impl DeepView for EntriesSense {
    type V = SenseView;

    open spec fn deep_view(&self) -> SenseView {
        self.view()
    }
}

impl View for EntriesEntry {
    type V = Seq<SenseView>;

    open spec fn view(&self) -> Seq<SenseView> {
        self.senses.deep_view()
    }
}

impl DeepView for EntriesEntry {
    type V = Seq<SenseView>;

    open spec fn deep_view(&self) -> Seq<SenseView> {
        self.view()
    }
}

/// The mathematical content of an `EntriesLexicalEntry`.
pub struct LexicalEntryView {
    pub entries: Seq<Seq<SenseView>>,
    pub lexical_category: Seq<char>,
    pub derivative_of: Seq<Seq<char>>,
}

impl View for EntriesLexicalEntry {
    type V = LexicalEntryView;

    open spec fn view(&self) -> LexicalEntryView {
        LexicalEntryView {
            entries: self.entries.deep_view(),
            lexical_category: self.lexical_category@,
            derivative_of: texts_of(self.derivative_of),
        }
    }
}

impl DeepView for EntriesLexicalEntry {
    type V = LexicalEntryView;

    open spec fn deep_view(&self) -> LexicalEntryView {
        self.view()
    }
}

impl View for EntriesResults {
    type V = Seq<LexicalEntryView>;

    open spec fn view(&self) -> Seq<LexicalEntryView> {
        self.lexical_entries.deep_view()
    }
}

impl DeepView for EntriesResults {
    type V = Seq<LexicalEntryView>;

    open spec fn deep_view(&self) -> Seq<LexicalEntryView> {
        self.view()
    }
}

impl View for EntriesResponse {
    type V = Seq<Seq<LexicalEntryView>>;

    open spec fn view(&self) -> Seq<Seq<LexicalEntryView>> {
        match self.results {
            Some(results) => results.deep_view(),
            None => Seq::empty(),
        }
    }
}

impl DeepView for EntriesResponse {
    type V = Seq<Seq<LexicalEntryView>>;

    open spec fn deep_view(&self) -> Seq<Seq<LexicalEntryView>> {
        self.view()
    }
}

/// What reading a piece of the dictionary's answer came to: the thing that
/// was looked for, or other words under which to look instead.
#[derive(Debug, PartialEq, Eq)]
pub enum MappingResult<T> {
    Result(T),
    OtherSources(Vec<String>),
}

/// The mathematical content of a `MappingResult`.
pub enum MappingResultView<V> {
    Result(V),
    OtherSources(Seq<Seq<char>>),
}

impl<T: DeepView> DeepView for MappingResult<T> {
    type V = MappingResultView<T::V>;

    open spec fn deep_view(&self) -> MappingResultView<T::V> {
        match self {
            MappingResult::Result(found) => MappingResultView::Result(found.deep_view()),
            MappingResult::OtherSources(sources) => MappingResultView::OtherSources(
                sources.deep_view(),
            ),
        }
    }
}

/// The text that defines a sense: the short form where there is one, else
/// the long form, else none.
pub open spec fn defining_text(sense: SenseText) -> Option<Seq<char>> {
    if sense.short_definitions.len() > 0 {
        Some(sense.short_definitions[0])
    } else if sense.definitions.len() > 0 {
        Some(sense.definitions[0])
    } else {
        None
    }
}

/// Each of `texts` in lowercase.
pub open spec fn lowercased(texts: Seq<Seq<char>>) -> Seq<Seq<char>> {
    texts.map_values(|text: Seq<char>| lowercase_of(text))
}

/// What one sense comes to. A sense without a defining text that refers to
/// other words gives those words, in lowercase, as leads. Any other sense
/// gives a definition, with its examples in their order, even where the
/// definition has no text.
pub open spec fn sense_outcome(sense: SenseText) -> MappingResultView<DefinitionView> {
    if defining_text(sense) is None && sense.cross_references.len() > 0 {
        MappingResultView::OtherSources(lowercased(sense.cross_references))
    } else {
        MappingResultView::Result(
            DefinitionView { definition: defining_text(sense), examples: sense.examples },
        )
    }
}

/// What a sense and its sub-senses come to: the sense first, then its
/// sub-senses in their order.
pub open spec fn sense_outcomes(sense: SenseView) -> Seq<MappingResultView<DefinitionView>> {
    seq![sense_outcome(sense.own)] + sense.subsenses.map_values(
        |sub: SenseText| sense_outcome(sub),
    )
}

/// What all the senses of a dictionary entry come to, in their order.
pub open spec fn entry_outcomes(senses: Seq<SenseView>) -> Seq<MappingResultView<DefinitionView>> {
    senses.flat_map(|sense: SenseView| sense_outcomes(sense))
}

/// What all the senses of all the entries come to, in their order.
pub open spec fn all_outcomes(entries: Seq<Seq<SenseView>>) -> Seq<
    MappingResultView<DefinitionView>,
> {
    entries.flat_map(|senses: Seq<SenseView>| entry_outcomes(senses))
}

/// Picks the definitions that have a text.
pub open spec fn pick_definition() -> spec_fn(MappingResultView<DefinitionView>) -> Option<
    DefinitionView,
> {
    |outcome: MappingResultView<DefinitionView>|
        match outcome {
            MappingResultView::Result(definition) => if definition.definition is Some {
                Some(definition)
            } else {
                None
            },
            MappingResultView::OtherSources(_) => None,
        }
}

/// Picks the leads.
pub open spec fn pick_leads<V>() -> spec_fn(MappingResultView<V>) -> Option<Seq<Seq<char>>> {
    |outcome: MappingResultView<V>|
        match outcome {
            MappingResultView::Result(_) => None,
            MappingResultView::OtherSources(sources) => Some(sources),
        }
}

/// The definitions with a text among `outcomes`, in their order.
pub open spec fn definitions_in(outcomes: Seq<MappingResultView<DefinitionView>>) -> Seq<
    DefinitionView,
> {
    outcomes.filter_map(pick_definition())
}

/// The leads among `outcomes`, in their order.
pub open spec fn leads_in<V>(outcomes: Seq<MappingResultView<V>>) -> Seq<Seq<char>> {
    outcomes.filter_map(pick_leads::<V>()).flatten()
}

/// The name under which a lexical entry's category is looked up: what the
/// entry says, trimmed and in lowercase.
pub open spec fn category_name(entry: LexicalEntryView) -> Seq<char> {
    lowercase_of(trimmed(entry.lexical_category))
}

/// What one lexical entry comes to.
///
/// A category that is not known fails the entry. An entry with at least one
/// definition that has a text gives those definitions under its category.
/// Without one, it gives its leads: the cross-references of its senses, then
/// the words that it derives from. An entry with neither fails.
pub open spec fn lexical_entry_outcome(entry: LexicalEntryView) -> Result<
    MappingResultView<DefinitionsEntryView>,
    ErrorView,
> {
    match DefinitionCategory::named(category_name(entry)) {
        None => Err(ErrorView::UnknownCategory(category_name(entry))),
        Some(category) => {
            let outcomes = all_outcomes(entry.entries);
            if definitions_in(outcomes).len() > 0 {
                Ok(
                    MappingResultView::Result(
                        DefinitionsEntryView { definitions: definitions_in(outcomes), category },
                    ),
                )
            } else if leads_in(outcomes).len() > 0 || entry.derivative_of.len() > 0 {
                Ok(MappingResultView::OtherSources(leads_in(outcomes) + entry.derivative_of))
            } else {
                Err(ErrorView::NoLeads)
            }
        },
    }
}

/// The strings of a list that may be absent.
pub fn into_strings(list: Option<Vec<String>>) -> (texts: Vec<String>)
    ensures
        texts.deep_view() == strings_of(list),
{
    match list {
        Some(texts) => texts,
        None => {
            let texts: Vec<String> = Vec::new();
            assert(texts.deep_view() =~= Seq::<Seq<char>>::empty());
            texts
        },
    }
}

/// The texts of a list of text entries that may be absent.
pub fn into_texts(list: Option<Vec<CommonTextEntry>>) -> (texts: Vec<String>)
    ensures
        texts.deep_view() == texts_of(list),
{
    let mut texts: Vec<String> = Vec::new();
    match list {
        Some(entries) => {
            let ghost all = entries.deep_view();
            for entry in it: entries
                invariant
                    all.len() == it.seq().len(),
                    forall|j: int| 0 <= j < all.len() ==> all[j] == (#[trigger] it.seq()[j])@,
                    texts.deep_view() == all.take(it.index() as int),
            {
                let ghost before = texts.deep_view();
                texts.push(entry.text);
                assert(texts.deep_view() =~= before.push(entry@));
                assert(all.take(it.index() + 1) =~= all.take(it.index() as int).push(entry@));
            }
            assert(all.take(all.len() as int) =~= all);
        },
        None => {
            assert(texts.deep_view() =~= Seq::<Seq<char>>::empty());
        },
    }
    texts
}

/// Each of `texts` in lowercase.
pub fn lowercase_all(texts: Vec<String>) -> (lowered: Vec<String>)
    ensures
        lowered.deep_view() == lowercased(texts.deep_view()),
{
    let mut lowered: Vec<String> = Vec::new();
    let mut i: usize = 0;
    while i < texts.len()
        invariant
            i <= texts.len(),
            lowered.len() == i,
            forall|j: int| 0 <= j < i ==> lowered[j]@ == lowercase_of(texts[j]@),
        decreases texts.len() - i,
    {
        lowered.push(to_lowercase(texts[i].as_str()));
        i = i + 1;
    }
    assert(lowered.deep_view() =~= lowercased(texts.deep_view()));
    lowered
}

/// Reads one sense, its sub-senses left aside.
pub fn build_definition(sense: EntriesSense) -> (outcome: MappingResult<Definition>)
    ensures
        outcome.deep_view() == sense_outcome(sense.own_text()),
{
    let short_definitions = into_strings(sense.short_definitions);
    let definitions = into_strings(sense.definitions);
    let definition = if short_definitions.len() > 0 {
        Some(short_definitions[0].clone())
    } else if definitions.len() > 0 {
        Some(definitions[0].clone())
    } else {
        None
    };
    assert(definition.deep_view() == defining_text(sense.own_text()));
    let cross_references = into_texts(sense.cross_references);
    if definition.is_none() && cross_references.len() > 0 {
        MappingResult::OtherSources(lowercase_all(cross_references))
    } else {
        let examples = into_texts(sense.examples);
        MappingResult::Result(Definition { definition, examples })
    }
}

/// Reads a sense and its sub-senses: the sense first, then each sub-sense.
pub fn build_definitions(sense: EntriesSense) -> (outcomes: Vec<MappingResult<Definition>>)
    ensures
        outcomes.deep_view() == sense_outcomes(sense@),
{
    let ghost whole = sense@;
    let EntriesSense { definitions, examples, short_definitions, subsenses, cross_references } =
        sense;
    let main = EntriesSense {
        definitions,
        examples,
        short_definitions,
        subsenses: None,
        cross_references,
    };
    assert(main.own_text() == whole.own);
    let mut outcomes: Vec<MappingResult<Definition>> = Vec::new();
    outcomes.push(build_definition(main));
    let ghost reader = |sub: SenseText| sense_outcome(sub);
    assert(outcomes.deep_view() =~= seq![sense_outcome(whole.own)] + whole.subsenses.take(
        0,
    ).map_values(reader));
    match subsenses {
        Some(subsenses) => {
            let ghost subs = own_texts(subsenses@);
            assert(subs == whole.subsenses);
            for sub in it: subsenses
                invariant
                    subs.len() == it.seq().len(),
                    forall|j: int| 0 <= j < subs.len() ==> subs[j] == (
                    #[trigger] it.seq()[j]).own_text(),
                    reader == (|sub: SenseText| sense_outcome(sub)),
                    outcomes.deep_view() == seq![sense_outcome(whole.own)] + subs.take(
                        it.index() as int,
                    ).map_values(reader),
            {
                let ghost before = outcomes.deep_view();
                let ghost k = it.index() as int;
                outcomes.push(build_definition(sub));
                proof {
                    assert(outcomes.deep_view() =~= before.push(sense_outcome(subs[k])));
                    subs.lemma_map_take_succ(reader, k);
                }
            }
            assert(subs.take(subs.len() as int) =~= subs);
        },
        None => {
            assert(whole.subsenses.take(0) =~= whole.subsenses);
        },
    }
    outcomes
}

/// Reads all the senses of one dictionary entry, in their order.
pub fn read_senses(senses: Vec<EntriesSense>) -> (outcomes: Vec<MappingResult<Definition>>)
    ensures
        outcomes.deep_view() == entry_outcomes(senses.deep_view()),
{
    let mut outcomes: Vec<MappingResult<Definition>> = Vec::new();
    let ghost all = senses.deep_view();
    let ghost reader = |sense: SenseView| sense_outcomes(sense);
    assert(outcomes.deep_view() =~= all.take(0).flat_map(reader));
    for sense in it: senses
        invariant
            all.len() == it.seq().len(),
            forall|j: int| 0 <= j < all.len() ==> all[j] == (#[trigger] it.seq()[j])@,
            reader == (|sense: SenseView| sense_outcomes(sense)),
            outcomes.deep_view() == all.take(it.index() as int).flat_map(reader),
    {
        let ghost before = outcomes.deep_view();
        let ghost k = it.index() as int;
        let mut more = build_definitions(sense);
        outcomes.append(&mut more);
        proof {
            assert(outcomes.deep_view() =~= before + sense_outcomes(all[k]));
            all.lemma_flat_map_take_append(reader, k);
        }
    }
    assert(all.take(all.len() as int) =~= all);
    outcomes
}

/// Reads all the senses of all the dictionary entries, in their order.
pub fn read_entries(entries: Vec<EntriesEntry>) -> (outcomes: Vec<MappingResult<Definition>>)
    ensures
        outcomes.deep_view() == all_outcomes(entries.deep_view()),
{
    let mut outcomes: Vec<MappingResult<Definition>> = Vec::new();
    let ghost all = entries.deep_view();
    let ghost reader = |senses: Seq<SenseView>| entry_outcomes(senses);
    assert(outcomes.deep_view() =~= all.take(0).flat_map(reader));
    for entry in it: entries
        invariant
            all.len() == it.seq().len(),
            forall|j: int| 0 <= j < all.len() ==> all[j] == (#[trigger] it.seq()[j])@,
            reader == (|senses: Seq<SenseView>| entry_outcomes(senses)),
            outcomes.deep_view() == all.take(it.index() as int).flat_map(reader),
    {
        let ghost before = outcomes.deep_view();
        let ghost k = it.index() as int;
        let mut more = read_senses(entry.senses);
        outcomes.append(&mut more);
        proof {
            assert(outcomes.deep_view() =~= before + entry_outcomes(all[k]));
            all.lemma_flat_map_take_append(reader, k);
        }
    }
    assert(all.take(all.len() as int) =~= all);
    outcomes
}

/// Parts what the senses came to: the definitions that have a text on one
/// side, the leads on the other, each in their order.
pub fn split_outcomes(outcomes: Vec<MappingResult<Definition>>) -> (parts: (
    Vec<Definition>,
    Vec<String>,
))
    ensures
        parts.0.deep_view() == definitions_in(outcomes.deep_view()),
        parts.1.deep_view() == leads_in(outcomes.deep_view()),
{
    let mut definitions: Vec<Definition> = Vec::new();
    let mut leads: Vec<String> = Vec::new();
    let ghost all = outcomes.deep_view();
    let ghost lead_picker = pick_leads::<DefinitionView>();
    assert(definitions.deep_view() =~= definitions_in(all.take(0)));
    assert(leads.deep_view() =~= leads_in(all.take(0)));
    for outcome in it: outcomes
        invariant
            all.len() == it.seq().len(),
            forall|j: int| 0 <= j < all.len() ==> all[j] == (#[trigger] it.seq()[j]).deep_view(),
            lead_picker == pick_leads::<DefinitionView>(),
            definitions.deep_view() == definitions_in(all.take(it.index() as int)),
            leads.deep_view() == leads_in(all.take(it.index() as int)),
    {
        let ghost k = it.index() as int;
        let ghost definitions_before = definitions.deep_view();
        let ghost leads_before = leads.deep_view();
        proof {
            all.lemma_filter_map_take_succ(pick_definition(), k);
            all.lemma_filter_map_take_succ(lead_picker, k);
        }
        match outcome {
            MappingResult::Result(definition) => {
                if definition.definition.is_some() {
                    definitions.push(definition);
                    assert(definitions.deep_view() =~= definitions_before.push(
                        all[k]->Result_0,
                    ));
                }
                assert(all.take(k + 1).filter_map(lead_picker) =~= all.take(k).filter_map(
                    lead_picker,
                ));
            },
            MappingResult::OtherSources(sources) => {
                let mut sources = sources;
                leads.append(&mut sources);
                proof {
                    let found = all[k]->OtherSources_0;
                    assert(leads.deep_view() =~= leads_before + found);
                    let earlier = all.take(k).filter_map(lead_picker);
                    assert(all.take(k + 1).filter_map(lead_picker) =~= earlier.push(found));
                    earlier.lemma_flatten_push(found);
                }
            },
        }
    }
    assert(all.take(all.len() as int) =~= all);
    (definitions, leads)
}

/// Reads one lexical entry: its category, then its definitions or, for
/// want of any, its leads.
pub fn map_lexical_entry(lexical_entry: EntriesLexicalEntry) -> (outcome: Result<
    MappingResult<DefinitionsEntry>,
    OxfordClientError,
>)
    ensures
        outcome matches Ok(found) ==> lexical_entry_outcome(lexical_entry@) == Ok::<
            MappingResultView<DefinitionsEntryView>,
            ErrorView,
        >(found.deep_view()),
        outcome matches Err(error) ==> lexical_entry_outcome(lexical_entry@) == Err::<
            MappingResultView<DefinitionsEntryView>,
            ErrorView,
        >(error@),
{
    let name = to_lowercase(trim(lexical_entry.lexical_category.text.as_str()));
    assert(name@ == category_name(lexical_entry@));
    let category = match DefinitionCategory::from_str(name.as_str()) {
        Some(category) => category,
        None => {
            return Err(OxfordClientError::UnknownCategory(name));
        },
    };
    let outcomes = read_entries(lexical_entry.entries);
    let (definitions, leads) = split_outcomes(outcomes);
    let derivative_of = into_texts(lexical_entry.derivative_of);
    if definitions.len() > 0 {
        Ok(MappingResult::Result(DefinitionsEntry { definitions, category }))
    } else if leads.len() > 0 || derivative_of.len() > 0 {
        let ghost leads_before = leads.deep_view();
        let ghost derived = derivative_of.deep_view();
        let mut leads = leads;
        let mut derivative_of = derivative_of;
        leads.append(&mut derivative_of);
        assert(leads.deep_view() =~= leads_before + derived);
        Ok(MappingResult::OtherSources(leads))
    } else {
        Err(OxfordClientError::NoLeads)
    }
}

} // verus!
