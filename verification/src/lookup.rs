//! What one answer of the dictionary service comes to: the definitions of a
//! word, the next word to look under, or a failure; and which headword a
//! lemma lookup names.

use crate::dictionary::{
    lexical_entry_outcome, map_lexical_entry, pick_leads, CommonTextEntry, EntriesLexicalEntry,
    EntriesResponse, LexicalEntryView, MappingResult, MappingResultView,
};
use crate::error::{ErrorView, OxfordClientError};
use crate::model::{DefinitionsEntry, DefinitionsEntryView};
use crate::text::{first_occurrences, same_text, unique};
use vstd::prelude::*;
use vstd::string::*;

verus! {

/// What an entries answer comes to.
#[derive(Debug, PartialEq, Eq)]
pub enum EntriesOutcome {
    /// The word is defined: these are its definitions, entry by entry.
    Resolved(Vec<DefinitionsEntry>),
    /// The word is not defined here, but this other word may be.
    Follow(String),
    /// Nothing can be made of the answer.
    Failed(OxfordClientError),
}

/// The mathematical content of an `EntriesOutcome`.
pub enum EntriesOutcomeView {
    Resolved(Seq<DefinitionsEntryView>),
    Follow(Seq<char>),
    Failed(ErrorView),
}

impl View for EntriesOutcome {
    type V = EntriesOutcomeView;

    open spec fn view(&self) -> EntriesOutcomeView {
        match self {
            EntriesOutcome::Resolved(entries) => EntriesOutcomeView::Resolved(entries.deep_view()),
            EntriesOutcome::Follow(word) => EntriesOutcomeView::Follow(word@),
            EntriesOutcome::Failed(error) => EntriesOutcomeView::Failed(error@),
        }
    }
}

/// Picks the failures of lexical entries.
pub open spec fn pick_failure() -> spec_fn(LexicalEntryView) -> Option<ErrorView> {
    |entry: LexicalEntryView|
        match lexical_entry_outcome(entry) {
            Err(error) => Some(error),
            Ok(_) => None,
        }
}

/// Picks what lexical entries came to where they did not fail.
pub open spec fn pick_success() -> spec_fn(LexicalEntryView) -> Option<
    MappingResultView<DefinitionsEntryView>,
> {
    |entry: LexicalEntryView|
        match lexical_entry_outcome(entry) {
            Err(_) => None,
            Ok(found) => Some(found),
        }
}

/// Picks the definitions of lexical entries that have some.
pub open spec fn pick_resolved() -> spec_fn(MappingResultView<DefinitionsEntryView>) -> Option<
    DefinitionsEntryView,
> {
    |found: MappingResultView<DefinitionsEntryView>|
        match found {
            MappingResultView::Result(entry) => Some(entry),
            MappingResultView::OtherSources(_) => None,
        }
}

/// The failures among the lexical entries, in their order.
pub open spec fn failures_in(entries: Seq<LexicalEntryView>) -> Seq<ErrorView> {
    entries.filter_map(pick_failure())
}

/// The definitions that the lexical entries give, in their order.
pub open spec fn resolved_in(entries: Seq<LexicalEntryView>) -> Seq<DefinitionsEntryView> {
    entries.filter_map(pick_success()).filter_map(pick_resolved())
}

/// The leads that the lexical entries without definitions give, in their
/// order.
pub open spec fn leads_from(entries: Seq<LexicalEntryView>) -> Seq<Seq<char>> {
    entries.filter_map(pick_success()).filter_map(
        pick_leads::<DefinitionsEntryView>(),
    ).flatten()
}

/// What an entries answer comes to.
///
/// An answer without results means that the word has no entries. One failed
/// lexical entry fails the answer, with all such failures gathered. Where
/// any lexical entry gives definitions, they are the answer, and leads are
/// left aside. Where none does, the first lead is to be followed. Where
/// there is none either, the word leads nowhere.
pub open spec fn response_outcome(response: Seq<Seq<LexicalEntryView>>) -> EntriesOutcomeView {
    let entries = response.flatten();
    if response.len() == 0 {
        EntriesOutcomeView::Failed(ErrorView::NoEntries)
    } else if failures_in(entries).len() > 0 {
        EntriesOutcomeView::Failed(ErrorView::CompositeError(failures_in(entries)))
    } else if resolved_in(entries).len() > 0 {
        EntriesOutcomeView::Resolved(resolved_in(entries))
    } else if leads_from(entries).len() > 0 {
        EntriesOutcomeView::Follow(leads_from(entries)[0])
    } else {
        EntriesOutcomeView::Failed(ErrorView::NoLeads)
    }
}

/// All the lexical entries of an answer, result by result.
pub fn lexical_entries(response: EntriesResponse) -> (entries: Vec<EntriesLexicalEntry>)
    ensures
        entries.deep_view() == response@.flatten(),
{
    let mut entries: Vec<EntriesLexicalEntry> = Vec::new();
    match response.results {
        Some(results) => {
            let ghost all = results.deep_view();
            assert(entries.deep_view() =~= all.take(0).flatten());
            for result in it: results
                invariant
                    all.len() == it.seq().len(),
                    forall|j: int| 0 <= j < all.len() ==> all[j] == (#[trigger] it.seq()[j])@,
                    entries.deep_view() == all.take(it.index() as int).flatten(),
            {
                let ghost before = entries.deep_view();
                let ghost k = it.index() as int;
                let mut more = result.lexical_entries;
                entries.append(&mut more);
                proof {
                    assert(entries.deep_view() =~= before + all[k]);
                    assert(all.take(k + 1) =~= all.take(k).push(all[k]));
                    all.take(k).lemma_flatten_push(all[k]);
                }
            }
            assert(all.take(all.len() as int) =~= all);
        },
        None => {
            assert(entries.deep_view() =~= response@.flatten());
        },
    }
    entries
}

/// Reads each lexical entry and parts what they came to: failures, and
/// what the others found.
pub fn read_lexical_entries(entries: Vec<EntriesLexicalEntry>) -> (parts: (
    Vec<MappingResult<DefinitionsEntry>>,
    Vec<OxfordClientError>,
))
    ensures
        parts.0.deep_view() == entries.deep_view().filter_map(pick_success()),
        parts.1.deep_view() == failures_in(entries.deep_view()),
{
    let mut successes: Vec<MappingResult<DefinitionsEntry>> = Vec::new();
    let mut failures: Vec<OxfordClientError> = Vec::new();
    let ghost all = entries.deep_view();
    assert(successes.deep_view() =~= all.take(0).filter_map(pick_success()));
    assert(failures.deep_view() =~= failures_in(all.take(0)));
    for entry in it: entries
        invariant
            all.len() == it.seq().len(),
            forall|j: int| 0 <= j < all.len() ==> all[j] == (#[trigger] it.seq()[j])@,
            successes.deep_view() == all.take(it.index() as int).filter_map(pick_success()),
            failures.deep_view() == failures_in(all.take(it.index() as int)),
    {
        let ghost k = it.index() as int;
        let ghost successes_before = successes.deep_view();
        let ghost failures_before = failures.deep_view();
        proof {
            all.lemma_filter_map_take_succ(pick_success(), k);
            all.lemma_filter_map_take_succ(pick_failure(), k);
        }
        match map_lexical_entry(entry) {
            Ok(found) => {
                successes.push(found);
                assert(successes.deep_view() =~= successes_before.push(
                    lexical_entry_outcome(all[k])->Ok_0,
                ));
            },
            Err(error) => {
                failures.push(error);
                assert(failures.deep_view() =~= failures_before.push(
                    lexical_entry_outcome(all[k])->Err_0,
                ));
            },
        }
    }
    assert(all.take(all.len() as int) =~= all);
    (successes, failures)
}

/// Parts what the lexical entries found: definitions on one side, leads on
/// the other, each in their order.
pub fn split_successes(successes: Vec<MappingResult<DefinitionsEntry>>) -> (parts: (
    Vec<DefinitionsEntry>,
    Vec<String>,
))
    ensures
        parts.0.deep_view() == successes.deep_view().filter_map(pick_resolved()),
        parts.1.deep_view() == successes.deep_view().filter_map(
            pick_leads::<DefinitionsEntryView>(),
        ).flatten(),
{
    let mut resolved: Vec<DefinitionsEntry> = Vec::new();
    let mut leads: Vec<String> = Vec::new();
    let ghost all = successes.deep_view();
    let ghost lead_picker = pick_leads::<DefinitionsEntryView>();
    assert(resolved.deep_view() =~= all.take(0).filter_map(pick_resolved()));
    assert(leads.deep_view() =~= all.take(0).filter_map(lead_picker).flatten());
    for success in it: successes
        invariant
            all.len() == it.seq().len(),
            forall|j: int| 0 <= j < all.len() ==> all[j] == (#[trigger] it.seq()[j]).deep_view(),
            lead_picker == pick_leads::<DefinitionsEntryView>(),
            resolved.deep_view() == all.take(it.index() as int).filter_map(pick_resolved()),
            leads.deep_view() == all.take(it.index() as int).filter_map(lead_picker).flatten(),
    {
        let ghost k = it.index() as int;
        let ghost resolved_before = resolved.deep_view();
        let ghost leads_before = leads.deep_view();
        proof {
            all.lemma_filter_map_take_succ(pick_resolved(), k);
            all.lemma_filter_map_take_succ(lead_picker, k);
        }
        match success {
            MappingResult::Result(entry) => {
                resolved.push(entry);
                assert(resolved.deep_view() =~= resolved_before.push(all[k]->Result_0));
                assert(all.take(k + 1).filter_map(lead_picker) =~= all.take(k).filter_map(
                    lead_picker,
                ));
            },
            MappingResult::OtherSources(sources) => {
                let mut sources = sources;
                leads.append(&mut sources);
                proof {
                    let found = all[k]->OtherSources_0;
                    assert(leads.deep_view() =~= leads_before + found);
                    let earlier = all.take(k).filter_map(lead_picker);
                    assert(all.take(k + 1).filter_map(lead_picker) =~= earlier.push(found));
                    earlier.lemma_flatten_push(found);
                }
            },
        }
    }
    assert(all.take(all.len() as int) =~= all);
    (resolved, leads)
}

/// Reads an entries answer.
pub fn entries_outcome(response: EntriesResponse) -> (outcome: EntriesOutcome)
    ensures
        outcome@ == response_outcome(response@),
{
    let absent = match &response.results {
        Some(results) => results.len() == 0,
        None => true,
    };
    if absent {
        return EntriesOutcome::Failed(OxfordClientError::NoEntries);
    }
    let entries = lexical_entries(response);
    let (successes, failures) = read_lexical_entries(entries);
    if failures.len() > 0 {
        return EntriesOutcome::Failed(OxfordClientError::composite(failures));
    }
    let (resolved, leads) = split_successes(successes);
    if resolved.len() > 0 {
        EntriesOutcome::Resolved(resolved)
    } else if leads.len() > 0 {
        EntriesOutcome::Follow(leads[0].clone())
    } else {
        EntriesOutcome::Failed(OxfordClientError::NoLeads)
    }
}

/// One lexical entry of a lemma lookup.
#[derive(Debug)]
pub struct LemmasLexicalEntry {
    pub inflection_of: Vec<CommonTextEntry>,
    pub lexical_category: CommonTextEntry,
}

/// One result of a lemma lookup.
#[derive(Debug)]
pub struct LemmasResults {
    pub lexical_entries: Vec<LemmasLexicalEntry>,
}

/// The answer to a lemma lookup.
#[derive(Debug)]
pub struct LemmasResponse {
    pub results: Option<Vec<LemmasResults>>,
}

/// The mathematical content of a `LemmasLexicalEntry`.
pub struct LemmaEntryView {
    pub inflection_of: Seq<Seq<char>>,
    pub lexical_category: Seq<char>,
}

impl View for LemmasLexicalEntry {
    type V = LemmaEntryView;

    open spec fn view(&self) -> LemmaEntryView {
        LemmaEntryView {
            inflection_of: self.inflection_of.deep_view(),
            lexical_category: self.lexical_category@,
        }
    }
}

impl DeepView for LemmasLexicalEntry {
    type V = LemmaEntryView;

    open spec fn deep_view(&self) -> LemmaEntryView {
        self.view()
    }
}

impl View for LemmasResults {
    type V = Seq<LemmaEntryView>;

    open spec fn view(&self) -> Seq<LemmaEntryView> {
        self.lexical_entries.deep_view()
    }
}

impl DeepView for LemmasResults {
    type V = Seq<LemmaEntryView>;

    open spec fn deep_view(&self) -> Seq<LemmaEntryView> {
        self.view()
    }
}

impl View for LemmasResponse {
    type V = Seq<Seq<LemmaEntryView>>;

    open spec fn view(&self) -> Seq<Seq<LemmaEntryView>> {
        match self.results {
            Some(results) => results.deep_view(),
            None => Seq::empty(),
        }
    }
}

/// The headwords that a lemma answer names, in the order of the answer,
/// repetitions included.
pub open spec fn inflections(response: Seq<Seq<LemmaEntryView>>) -> Seq<Seq<char>> {
    response.flatten().flat_map(|entry: LemmaEntryView| entry.inflection_of)
}

/// The headword to go by, of the distinct candidates in their order: the
/// only one; of several, the one that is the word itself, else the first;
/// of none, none.
pub open spec fn stem_choice(word: Seq<char>, candidates: Seq<Seq<char>>) -> Option<Seq<char>> {
    if candidates.len() == 0 {
        None
    } else if candidates.len() > 1 && candidates.contains(word) {
        Some(word)
    } else {
        Some(candidates[0])
    }
}

/// The headword that a lemma answer gives for `word`.
pub open spec fn stem_of(word: Seq<char>, response: Seq<Seq<LemmaEntryView>>) -> Option<
    Seq<char>,
> {
    stem_choice(word, first_occurrences(inflections(response)))
}

/// The path of the lemma lookup for `word` below the service's root.
pub fn lemmas_path(word: &str) -> (path: String)
    ensures
        path@ == "/lemmas/en/"@ + word@,
{
    let mut path = String::from_str("/lemmas/en/");
    path.append(word);
    path
}

/// All the headwords that a lemma answer names.
pub fn inflection_texts(response: LemmasResponse) -> (texts: Vec<String>)
    ensures
        texts.deep_view() == inflections(response@),
{
    let mut entries: Vec<LemmasLexicalEntry> = Vec::new();
    match response.results {
        Some(results) => {
            let ghost all = results.deep_view();
            assert(entries.deep_view() =~= all.take(0).flatten());
            for result in it: results
                invariant
                    all.len() == it.seq().len(),
                    forall|j: int| 0 <= j < all.len() ==> all[j] == (#[trigger] it.seq()[j])@,
                    entries.deep_view() == all.take(it.index() as int).flatten(),
            {
                let ghost before = entries.deep_view();
                let ghost k = it.index() as int;
                let mut more = result.lexical_entries;
                entries.append(&mut more);
                proof {
                    assert(entries.deep_view() =~= before + all[k]);
                    assert(all.take(k + 1) =~= all.take(k).push(all[k]));
                    all.take(k).lemma_flatten_push(all[k]);
                }
            }
            assert(all.take(all.len() as int) =~= all);
        },
        None => {
            assert(entries.deep_view() =~= response@.flatten());
        },
    }
    let mut texts: Vec<String> = Vec::new();
    let ghost all = entries.deep_view();
    let ghost reader = |entry: LemmaEntryView| entry.inflection_of;
    assert(texts.deep_view() =~= all.take(0).flat_map(reader));
    for entry in it: entries
        invariant
            all.len() == it.seq().len(),
            forall|j: int| 0 <= j < all.len() ==> all[j] == (#[trigger] it.seq()[j])@,
            reader == (|entry: LemmaEntryView| entry.inflection_of),
            texts.deep_view() == all.take(it.index() as int).flat_map(reader),
    {
        let ghost before = texts.deep_view();
        let ghost k = it.index() as int;
        let mut more = crate::dictionary::into_texts(Some(entry.inflection_of));
        texts.append(&mut more);
        proof {
            assert(texts.deep_view() =~= before + all[k].inflection_of);
            all.lemma_flat_map_take_append(reader, k);
        }
    }
    assert(all.take(all.len() as int) =~= all);
    texts
}

/// Chooses the headword for `word` from a lemma answer. Fails with `NoStem`
/// where the answer names none.
pub fn lemmas(word: &str, response: LemmasResponse) -> (stem: Result<String, OxfordClientError>)
    ensures
        stem matches Ok(chosen) ==> stem_of(word@, response@) == Some(chosen@),
        stem matches Err(error) ==> stem_of(word@, response@) is None && error@
            == ErrorView::NoStem,
{
    let candidates = unique(inflection_texts(response));
    if candidates.len() == 0 {
        return Err(OxfordClientError::NoStem);
    }
    if candidates.len() > 1 {
        let mut i: usize = 0;
        while i < candidates.len()
            invariant
                i <= candidates.len(),
                candidates.len() > 1,
                candidates.deep_view() == first_occurrences(inflections(response@)),
                forall|j: int| 0 <= j < i ==> (#[trigger] candidates.deep_view()[j]) != word@,
            decreases candidates.len() - i,
        {
            if same_text(candidates[i].as_str(), word) {
                assert(candidates.deep_view()[i as int] == word@);
                assert(candidates.deep_view().contains(word@));
                return Ok(candidates[i].clone());
            }
            i = i + 1;
        }
        assert(!candidates.deep_view().contains(word@));
    }
    Ok(candidates[0].clone())
}

} // verus!
