//! The enrichment of a book's words, round by round: what is to be done
//! next, and what follows from how it went. The caller resolves, translates
//! and asks the operator; this module keeps the books.

use crate::cache::{
    keyed, lemma_all_cached, lemma_cache_reproduced, partition_by_processed, processed_of,
    unprocessed_of, well_keyed, WordCache,
};
use crate::error::{ErrorView, OxfordClientError};
use crate::translate::TranslateError;
use crate::word::{Word, WordView};
use vstd::prelude::*;
use vstd::string::*;

verus! {

/// Why a word could not be enriched.
#[derive(Debug, PartialEq, Eq)]
pub enum ProcessError {
    /// It has definitions, but no translation.
    Translation(TranslateError),
    /// It has a translation, but no definitions.
    Definitions(OxfordClientError),
    /// It has neither.
    Both(TranslateError, OxfordClientError),
}

/// The mathematical content of a `ProcessError`.
pub enum ProcessErrorView {
    Translation(TranslateError),
    Definitions(ErrorView),
    Both(TranslateError, ErrorView),
}

impl View for ProcessError {
    type V = ProcessErrorView;

    open spec fn view(&self) -> ProcessErrorView {
        match self {
            ProcessError::Translation(error) => ProcessErrorView::Translation(*error),
            ProcessError::Definitions(error) => ProcessErrorView::Definitions(error@),
            ProcessError::Both(translation, definitions) => ProcessErrorView::Both(
                *translation,
                definitions@,
            ),
        }
    }
}

impl ProcessErrorView {
    /// The failure in words: where both parts failed, the translation's
    /// failure first, each on a line of its own.
    pub open spec fn message(self) -> Seq<char> {
        match self {
            ProcessErrorView::Translation(error) => error.spec_message(),
            ProcessErrorView::Definitions(error) => error.message(),
            ProcessErrorView::Both(translation, definitions) => translation.spec_message() + "\n"@
                + definitions.message(),
        }
    }
}

impl ProcessError {
    /// The failure in words.
    pub fn message(&self) -> (message: String)
        ensures
            message@ == self@.message(),
    {
        match self {
            ProcessError::Translation(error) => error.message(),
            ProcessError::Definitions(error) => error.message(),
            ProcessError::Both(translation, definitions) => {
                let mut message = translation.message();
                let second = definitions.message();
                message.append("\n");
                message.append(second.as_str());
                message
            },
        }
    }
}

/// The text to resolve a word under: its stem where the lemma lookup found
/// one, else the text itself.
pub open spec fn stem_or_text(text: Seq<char>, stem: Result<Seq<char>, ErrorView>) -> Seq<char> {
    match stem {
        Ok(stem) => stem,
        Err(_) => text,
    }
}

/// Settles on the text to resolve a word under. A failed lemma lookup is no
/// failure of the word: it is resolved under its own text.
pub fn word_stem(text: &str, stem: Result<String, OxfordClientError>) -> (chosen: String)
    ensures
        chosen@ == stem_or_text(
            text@,
            match stem {
                Ok(stem) => Ok(stem@),
                Err(error) => Err(error@),
            },
        ),
{
    match stem {
        Ok(stem) => stem,
        Err(_) => String::from_str(text),
    }
}

/// The word once it is enriched: it goes by the dictionary's word, and has
/// the translation and the definitions. The highlight it came from stays.
pub open spec fn enriched(word: WordView, translation: Seq<char>, defined: WordView) -> WordView {
    WordView {
        text: defined.text,
        original_text: word.original_text,
        translation: Some(translation),
        definitions: defined.definitions,
    }
}

/// Brings together what the translation and the resolution of a word came
/// to. Both must have succeeded for the word to be enriched; otherwise the
/// word stays as it is and the failures are reported.
pub fn process_word(
    word: &mut Word,
    translation: Result<String, TranslateError>,
    defined: Result<Word, OxfordClientError>,
) -> (done: Result<(), ProcessError>)
    ensures
        match (translation, defined) {
            (Ok(text), Ok(found)) => done is Ok && final(word)@ == enriched(
                old(word)@,
                text@,
                found@,
            ),
            (Err(error), Ok(_)) => done matches Err(failure) && failure@
                == ProcessErrorView::Translation(error) && final(word)@ == old(word)@,
            (Ok(_), Err(error)) => done matches Err(failure) && failure@
                == ProcessErrorView::Definitions(error@) && final(word)@ == old(word)@,
            (Err(first), Err(second)) => done matches Err(failure) && failure@
                == ProcessErrorView::Both(first, second@) && final(word)@ == old(word)@,
        },
{
    match (translation, defined) {
        (Ok(text), Ok(found)) => {
            word.text = found.text;
            word.translation = Some(text);
            word.definitions = found.definitions;
            Ok(())
        },
        (Err(error), Ok(_)) => Err(ProcessError::Translation(error)),
        (Ok(_), Err(error)) => Err(ProcessError::Definitions(error)),
        (Err(first), Err(second)) => Err(ProcessError::Both(first, second)),
    }
}

/// The state of an enrichment, as a mathematical value.
pub struct PipelineView {
    /// The words of this round that have not been tried yet.
    pub queue: Seq<WordView>,
    /// How many words are being tried: handed out, and not reported yet.
    pub in_flight: nat,
    /// The words of this round that failed.
    pub failed: Seq<WordView>,
    /// The words that are done: cached or enriched.
    pub output: Seq<WordView>,
}

/// What an enrichment asks for next, as a mathematical value.
pub enum NextView {
    Process(WordView),
    Wait,
    Redact(Seq<WordView>),
    Finished(Seq<WordView>),
}

/// The count of words being tried once one of them is reported.
pub open spec fn one_less(in_flight: nat) -> nat {
    if in_flight > 0 {
        (in_flight - 1) as nat
    } else {
        0
    }
}

impl PipelineView {
    /// The enrichment of `words` before its first round. Unless forced, the
    /// words that the cache knows are done from the start, as the cache has
    /// them, and are not tried again.
    pub open spec fn start(
        words: Seq<WordView>,
        cache: Map<Seq<char>, WordView>,
        force: bool,
    ) -> PipelineView {
        if force {
            PipelineView {
                queue: words,
                in_flight: 0,
                failed: Seq::empty(),
                output: Seq::empty(),
            }
        } else {
            PipelineView {
                queue: unprocessed_of(cache, words),
                in_flight: 0,
                failed: Seq::empty(),
                output: processed_of(cache, words),
            }
        }
    }

    /// What the enrichment asks for next, and the state it is in then.
    ///
    /// While the round has untried words, the next of them is to be
    /// processed. When it has none left, every word that was handed out is
    /// waited for. Only then do the words that failed go to the operator,
    /// all at once; and when none failed, the enrichment is finished.
    pub open spec fn next(self) -> (PipelineView, NextView) {
        if self.queue.len() > 0 && self.in_flight < usize::MAX {
            (
                PipelineView {
                    queue: self.queue.skip(1),
                    in_flight: self.in_flight + 1,
                    failed: self.failed,
                    output: self.output,
                },
                NextView::Process(self.queue[0]),
            )
        } else if self.in_flight > 0 {
            (self, NextView::Wait)
        } else if self.failed.len() > 0 {
            (
                PipelineView {
                    queue: self.queue,
                    in_flight: 0,
                    failed: Seq::empty(),
                    output: self.output,
                },
                NextView::Redact(self.failed),
            )
        } else {
            (
                PipelineView {
                    queue: self.queue,
                    in_flight: 0,
                    failed: Seq::empty(),
                    output: Seq::empty(),
                },
                NextView::Finished(self.output),
            )
        }
    }

    /// The state after `word` was enriched.
    pub open spec fn succeeded(self, word: WordView) -> PipelineView {
        PipelineView {
            queue: self.queue,
            in_flight: one_less(self.in_flight),
            failed: self.failed,
            output: self.output.push(word),
        }
    }

    /// The state after `word` failed.
    pub open spec fn failed(self, word: WordView) -> PipelineView {
        PipelineView {
            queue: self.queue,
            in_flight: one_less(self.in_flight),
            failed: self.failed.push(word),
            output: self.output,
        }
    }

    /// The state once `words` are to be retried: each of them is queued as
    /// a new word.
    pub open spec fn retrying(self, words: Seq<WordView>) -> PipelineView {
        PipelineView {
            queue: self.queue + words.map_values(|word: WordView| word.cleared()),
            in_flight: self.in_flight,
            failed: self.failed,
            output: self.output,
        }
    }
}

/// The enrichment of a book's words.
#[derive(Debug)]
pub struct Pipeline {
    queue: Vec<Word>,
    in_flight: usize,
    failed: Vec<Word>,
    output: Vec<Word>,
}

/// What an enrichment asks for next.
#[derive(Debug)]
pub enum Next {
    /// Resolve and translate this word, then report how it went.
    Process(Word),
    /// Nothing can be handed out or decided before a word that is being
    /// tried has been reported.
    Wait,
    /// The round is over and these words failed: let the operator correct
    /// them, then retry with what the operator hands back.
    Redact(Vec<Word>),
    /// All is done: these are the words to keep and to export.
    Finished(Vec<Word>),
}

impl View for Pipeline {
    type V = PipelineView;

    closed spec fn view(&self) -> PipelineView {
        PipelineView {
            queue: self.queue.deep_view(),
            in_flight: self.in_flight as nat,
            failed: self.failed.deep_view(),
            output: self.output.deep_view(),
        }
    }
}

impl View for Next {
    type V = NextView;

    open spec fn view(&self) -> NextView {
        match self {
            Next::Process(word) => NextView::Process(word@),
            Next::Wait => NextView::Wait,
            Next::Redact(words) => NextView::Redact(words.deep_view()),
            Next::Finished(words) => NextView::Finished(words.deep_view()),
        }
    }
}

impl Pipeline {
    /// Sets out to enrich `all_words`, given the words that the cache holds
    /// for the book.
    pub fn start(all_words: Vec<Word>, cached: Vec<Word>, force: bool) -> (pipeline: Pipeline)
        ensures
            pipeline@ == PipelineView::start(
                all_words.deep_view(),
                keyed(cached.deep_view()),
                force,
            ),
    {
        if force {
            let failed: Vec<Word> = Vec::new();
            let output: Vec<Word> = Vec::new();
            assert(failed.deep_view() =~= Seq::<WordView>::empty());
            assert(output.deep_view() =~= Seq::<WordView>::empty());
            Pipeline { queue: all_words, in_flight: 0, failed, output }
        } else {
            let cache = WordCache::from_words(cached);
            let (unprocessed, processed) = partition_by_processed(&cache, all_words);
            let failed: Vec<Word> = Vec::new();
            assert(failed.deep_view() =~= Seq::<WordView>::empty());
            Pipeline { queue: unprocessed, in_flight: 0, failed, output: processed }
        }
    }

    /// What is to be done next. The operator is asked, and the enrichment
    /// ends, only when every word of the round has been tried and reported.
    pub fn next(&mut self) -> (next: Next)
        ensures
            (final(self)@, next@) == old(self)@.next(),
            next is Redact || next is Finished ==> old(self)@.queue.len() == 0 && old(
                self,
            )@.in_flight == 0,
    {
        if self.queue.len() > 0 && self.in_flight < usize::MAX {
            let ghost before = self.queue.deep_view();
            let word = self.queue.remove(0);
            self.in_flight = self.in_flight + 1;
            assert(self.queue.deep_view() =~= before.skip(1));
            Next::Process(word)
        } else if self.in_flight > 0 {
            Next::Wait
        } else if self.failed.len() > 0 {
            let mut failed: Vec<Word> = Vec::new();
            core::mem::swap(&mut self.failed, &mut failed);
            assert(self.failed.deep_view() =~= Seq::<WordView>::empty());
            Next::Redact(failed)
        } else {
            let mut output: Vec<Word> = Vec::new();
            core::mem::swap(&mut self.output, &mut output);
            assert(self.output.deep_view() =~= Seq::<WordView>::empty());
            assert(self.failed.deep_view() =~= Seq::<WordView>::empty());
            Next::Finished(output)
        }
    }

    fn landed(&mut self)
        ensures
            final(self).queue == old(self).queue,
            final(self).failed == old(self).failed,
            final(self).output == old(self).output,
            final(self).in_flight == one_less(old(self).in_flight as nat),
    {
        if self.in_flight > 0 {
            self.in_flight = self.in_flight - 1;
        }
    }

    /// Records that `word` was enriched: it is done.
    pub fn succeeded(&mut self, word: Word)
        ensures
            final(self)@ == old(self)@.succeeded(word@),
    {
        let ghost before = self.output.deep_view();
        self.landed();
        self.output.push(word);
        assert(self.output.deep_view() =~= before.push(word@));
    }

    /// Records that `word` failed: it waits for the operator.
    pub fn failed(&mut self, word: Word)
        ensures
            final(self)@ == old(self)@.failed(word@),
    {
        let ghost before = self.failed.deep_view();
        self.landed();
        self.failed.push(word);
        assert(self.failed.deep_view() =~= before.push(word@));
    }

    /// Queues the words that the operator handed back for another round.
    /// Whatever was known of them is forgotten. Where the operator hands
    /// back none, nothing is left to try.
    pub fn retry(&mut self, words: Vec<Word>)
        ensures
            final(self)@ == old(self)@.retrying(words.deep_view()),
    {
        let ghost all = words.deep_view();
        let ghost before = self.queue.deep_view();
        let ghost fresh = |word: WordView| word.cleared();
        assert(self.queue.deep_view() =~= before + all.take(0).map_values(fresh));
        for word in it: words
            invariant
                all.len() == it.seq().len(),
                forall|j: int| 0 <= j < all.len() ==> all[j] == (#[trigger] it.seq()[j])@,
                fresh == (|word: WordView| word.cleared()),
                self.in_flight == old(self).in_flight,
                self.failed == old(self).failed,
                self.output == old(self).output,
                self.queue.deep_view() == before + all.take(it.index() as int).map_values(fresh),
        {
            let ghost queued = self.queue.deep_view();
            let ghost k = it.index() as int;
            let mut word = word;
            word.clear();
            self.queue.push(word);
            proof {
                assert(self.queue.deep_view() =~= queued.push(all[k].cleared()));
                all.lemma_map_take_succ(fresh, k);
            }
        }
        assert(all.take(all.len() as int) =~= all);
    }
}

/// The operator is asked, and the enrichment ends, only when no word of the
/// round is left untried and none that was handed out is still being
/// tried.
pub proof fn lemma_barrier(state: PipelineView)
    ensures
        state.next().1 is Redact || state.next().1 is Finished ==> state.queue.len() == 0
            && state.in_flight == 0,
        state.next().1 is Redact ==> state.next().1->Redact_0 == state.failed && state.failed.len()
            > 0,
{
}

/// With a cache that holds exactly the words of the book, an enrichment
/// that is not forced is finished before it has tried a single word, and
/// the words it ends with make the same cache again.
pub proof fn lemma_nothing_to_do(cache: Map<Seq<char>, WordView>, words: Seq<WordView>)
    requires
        well_keyed(cache),
        forall|i: int|
            0 <= i < words.len() ==> cache.contains_key((#[trigger] words[i]).original_text),
        forall|key: Seq<char>| #[trigger]
            cache.contains_key(key) ==> exists|i: int|
                0 <= i < words.len() && (#[trigger] words[i]).original_text == key,
    ensures
        PipelineView::start(words, cache, false).next().1 == NextView::Finished(
            processed_of(cache, words),
        ),
        keyed(processed_of(cache, words)) == cache,
{
    lemma_all_cached(cache, words);
    lemma_cache_reproduced(cache, words);
}

} // verus!
