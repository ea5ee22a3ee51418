//! Resolving a word to its definitions: a walk through the entries of one
//! dialect that follows leads from word to word, and around it the fallback
//! from American to British English.
//!
//! Both are state machines. The caller sends the request that a step asks
//! for and hands the answer to the next step.

use crate::definitions::{merged, Definitions};
use crate::dictionary::{EntriesResponse, LexicalEntryView};
use crate::error::{ErrorView, OxfordClientError};
use crate::fetch::FetchError;
use crate::lookup::{entries_outcome, response_outcome, EntriesOutcome, EntriesOutcomeView};
use crate::model::{DefinitionsEntry, DefinitionsEntryView};
use crate::text::same_text;
use crate::word::{Word, WordView};
use vstd::prelude::*;
use vstd::string::*;

verus! {

/// The dialects of English that the dictionary keeps apart.
#[derive(Debug, Clone, Copy, PartialEq, Eq, Structural)]
pub enum Dialect {
    EnUs,
    EnGb,
}

impl Dialect {
    /// The dialect's code in a request.
    pub open spec fn spec_code(self) -> Seq<char> {
        match self {
            Dialect::EnUs => "en-us"@,
            Dialect::EnGb => "en-gb"@,
        }
    }

    /// The dialect's code in a request.
    pub fn code(&self) -> (code: String)
        ensures
            code@ == self.spec_code(),
    {
        match self {
            Dialect::EnUs => String::from_str("en-us"),
            Dialect::EnGb => String::from_str("en-gb"),
        }
    }
}

/// A request for the entries of a word in a dialect.
#[derive(Debug, PartialEq, Eq)]
pub struct EntriesRequest {
    pub word_id: String,
    pub dialect: Dialect,
}

/// The mathematical content of an `EntriesRequest`.
pub struct RequestView {
    pub word_id: Seq<char>,
    pub dialect: Dialect,
}

impl View for EntriesRequest {
    type V = RequestView;

    open spec fn view(&self) -> RequestView {
        RequestView { word_id: self.word_id@, dialect: self.dialect }
    }
}

impl EntriesRequest {
    /// The path of the request below the service's root.
    pub fn path(&self) -> (path: String)
        ensures
            path@ == "/entries/"@ + self.dialect.spec_code() + "/"@ + self.word_id@,
    {
        let mut path = String::from_str("/entries/");
        let code = self.dialect.code();
        path.append(code.as_str());
        path.append("/");
        path.append(self.word_id.as_str());
        path
    }
}

/// What came back for a request: the service's answer, or why there is
/// none.
pub type Reply = Result<EntriesResponse, FetchError>;

/// The mathematical content of a `Reply`.
pub type ReplyView = Result<Seq<Seq<LexicalEntryView>>, FetchError>;

pub open spec fn reply_view(reply: Reply) -> ReplyView {
    match reply {
        Ok(response) => Ok(response@),
        Err(error) => Err(error),
    }
}

/// A walk under way, as a mathematical value.
pub struct WalkView {
    /// The word that the walk was started for.
    pub word_id: Seq<char>,
    pub dialect: Dialect,
    /// The words asked for so far, the first one included.
    pub visited: Seq<Seq<char>>,
}

/// What a walk found: the word it was started for, with the definitions.
pub type Found = (Seq<char>, Seq<DefinitionsEntryView>);

/// What a step of a walk comes to, as a mathematical value.
pub enum WalkStepView {
    Ask(WalkView, RequestView),
    Done(Result<Found, ErrorView>),
}

impl WalkView {
    /// The walk for `word_id` before its first answer.
    pub open spec fn start(word_id: Seq<char>, dialect: Dialect) -> WalkView {
        WalkView { word_id, dialect, visited: seq![word_id] }
    }

    /// The request that the walk is waiting on.
    pub open spec fn pending(self) -> RequestView {
        RequestView { word_id: self.visited.last(), dialect: self.dialect }
    }

    /// The step that `reply` makes the walk take.
    ///
    /// Definitions end the walk: they are the definitions of the word that
    /// the walk was started for, under whichever word they were found. A
    /// lead is followed in the same dialect, unless the walk has been at that
    /// word before: then the leads have run out. A failed request or a
    /// failed answer ends the walk with that failure.
    pub open spec fn step(self, reply: ReplyView) -> WalkStepView {
        match reply {
            Err(error) => WalkStepView::Done(Err(ErrorView::Transport(error))),
            Ok(response) => match response_outcome(response) {
                EntriesOutcomeView::Resolved(entries) => WalkStepView::Done(
                    Ok((self.word_id, entries)),
                ),
                EntriesOutcomeView::Follow(lead) => if self.visited.contains(lead) {
                    WalkStepView::Done(Err(ErrorView::NoLeads))
                } else {
                    WalkStepView::Ask(
                        WalkView {
                            word_id: self.word_id,
                            dialect: self.dialect,
                            visited: self.visited.push(lead),
                        },
                        RequestView { word_id: lead, dialect: self.dialect },
                    )
                },
                EntriesOutcomeView::Failed(error) => WalkStepView::Done(Err(error)),
            },
        }
    }

    /// Where the walk ends when it is given `replies` one after another, and
    /// how many of them it takes; nothing while they do not suffice.
    pub open spec fn run(self, replies: Seq<ReplyView>) -> Option<(Result<Found, ErrorView>, nat)>
        decreases replies.len(),
    {
        if replies.len() == 0 {
            None
        } else {
            match self.step(replies[0]) {
                WalkStepView::Done(end) => Some((end, 1nat)),
                WalkStepView::Ask(next, _) => match next.run(replies.skip(1)) {
                    Some((end, taken)) => Some((end, taken + 1)),
                    None => None,
                },
            }
        }
    }
}

/// A walk through the entries of one dialect, from a word along its leads.
#[derive(Debug)]
pub struct Walk {
    word_id: String,
    dialect: Dialect,
    visited: Vec<String>,
}

/// What a step of a walk comes to.
#[derive(Debug)]
pub enum WalkStep {
    /// Send this request, and hand the answer to the walk.
    Ask(Walk, EntriesRequest),
    /// The walk is over.
    Done(Result<(String, Vec<DefinitionsEntry>), OxfordClientError>),
}

impl View for Walk {
    type V = WalkView;

    closed spec fn view(&self) -> WalkView {
        WalkView {
            word_id: self.word_id@,
            dialect: self.dialect,
            visited: self.visited.deep_view(),
        }
    }
}

impl View for WalkStep {
    type V = WalkStepView;

    open spec fn view(&self) -> WalkStepView {
        match self {
            WalkStep::Ask(walk, request) => WalkStepView::Ask(walk@, request@),
            WalkStep::Done(Ok(found)) => WalkStepView::Done(Ok((found.0@, found.1.deep_view()))),
            WalkStep::Done(Err(error)) => WalkStepView::Done(Err(error@)),
        }
    }
}

impl Walk {
    /// Starts a walk for `word_id` in `dialect`: the first request is for
    /// the word itself.
    pub fn start(word_id: &str, dialect: Dialect) -> (begun: (Walk, EntriesRequest))
        ensures
            begun.0@ == WalkView::start(word_id@, dialect),
            begun.1@ == begun.0@.pending(),
    {
        let mut visited: Vec<String> = Vec::new();
        visited.push(String::from_str(word_id));
        assert(visited.deep_view() =~= seq![word_id@]);
        let walk = Walk { word_id: String::from_str(word_id), dialect, visited };
        (walk, EntriesRequest { word_id: String::from_str(word_id), dialect })
    }

    /// Whether the walk has asked for `word` before.
    fn has_visited(&self, word: &str) -> (been: bool)
        ensures
            been == self@.visited.contains(word@),
    {
        let mut i: usize = 0;
        while i < self.visited.len()
            invariant
                i <= self.visited.len(),
                forall|j: int| 0 <= j < i ==> (#[trigger] self.visited.deep_view()[j]) != word@,
            decreases self.visited.len() - i,
        {
            if same_text(self.visited[i].as_str(), word) {
                assert(self.visited.deep_view()[i as int] == word@);
                return true;
            }
            i = i + 1;
        }
        false
    }

    /// Takes the answer to the request that the walk was waiting on.
    pub fn advance(self, reply: Reply) -> (step: WalkStep)
        ensures
            step@ == self@.step(reply_view(reply)),
    {
        let response = match reply {
            Ok(response) => response,
            Err(error) => {
                return WalkStep::Done(Err(OxfordClientError::Transport(error)));
            },
        };
        match entries_outcome(response) {
            EntriesOutcome::Resolved(entries) => WalkStep::Done(Ok((self.word_id, entries))),
            EntriesOutcome::Follow(lead) => {
                if self.has_visited(lead.as_str()) {
                    WalkStep::Done(Err(OxfordClientError::NoLeads))
                } else {
                    let ghost before = self.visited.deep_view();
                    let mut visited = self.visited;
                    visited.push(lead.clone());
                    assert(visited.deep_view() =~= before.push(lead@));
                    let request = EntriesRequest { word_id: lead, dialect: self.dialect };
                    WalkStep::Ask(
                        Walk { word_id: self.word_id, dialect: self.dialect, visited },
                        request,
                    )
                }
            },
            EntriesOutcome::Failed(error) => WalkStep::Done(Err(error)),
        }
    }
}

/// The word that `entries` define under `word_id`: its definitions merged
/// by category, and no translation yet.
pub open spec fn defined_word(word_id: Seq<char>, entries: Seq<DefinitionsEntryView>) -> WordView {
    WordView {
        text: word_id,
        original_text: word_id,
        translation: None,
        definitions: Some(merged(entries)),
    }
}

/// Makes the word that a walk found.
pub fn process_entries(entries: (String, Vec<DefinitionsEntry>)) -> (word: Word)
    ensures
        word@ == defined_word(entries.0@, entries.1.deep_view()),
{
    let (word_id, entries) = entries;
    Word {
        text: word_id.clone(),
        original_text: word_id,
        translation: None,
        definitions: Some(Definitions::from_entries(entries)),
    }
}

/// A resolution under way, as a mathematical value.
pub struct ResolverView {
    pub walk: WalkView,
    /// Why the walk through American English failed, once it has.
    pub first_failure: Option<ErrorView>,
}

/// What a step of a resolution comes to, as a mathematical value.
pub enum ResolverStepView {
    Ask(ResolverView, RequestView),
    Done(Result<WordView, ErrorView>),
}

/// What a finished walk means for the resolution around it.
pub open spec fn verdict_of(end: Result<Found, ErrorView>) -> Result<WordView, ErrorView> {
    match end {
        Ok(found) => Ok(defined_word(found.0, found.1)),
        Err(error) => Err(error),
    }
}

impl ResolverView {
    /// The resolution of `word_stem` before its first answer: a walk
    /// through American English.
    pub open spec fn start(word_stem: Seq<char>) -> ResolverView {
        ResolverView { walk: WalkView::start(word_stem, Dialect::EnUs), first_failure: None }
    }

    /// The resolution once American English has failed with `failure`: a
    /// walk through British English, from the same word.
    pub open spec fn fallen_back(word_stem: Seq<char>, failure: ErrorView) -> ResolverView {
        ResolverView {
            walk: WalkView::start(word_stem, Dialect::EnGb),
            first_failure: Some(failure),
        }
    }

    /// The step that `reply` makes the resolution take.
    ///
    /// The walk under way goes on while it asks for more, and whatever it
    /// finds is the result. When the first walk fails, a second one starts
    /// in British English. When that fails too, the resolution fails with
    /// both failures, the American one first.
    pub open spec fn step(self, reply: ReplyView) -> ResolverStepView {
        match self.walk.step(reply) {
            WalkStepView::Ask(next, request) => ResolverStepView::Ask(
                ResolverView { walk: next, first_failure: self.first_failure },
                request,
            ),
            WalkStepView::Done(Ok(found)) => ResolverStepView::Done(
                Ok(defined_word(found.0, found.1)),
            ),
            WalkStepView::Done(Err(error)) => match self.first_failure {
                None => ResolverStepView::Ask(
                    Self::fallen_back(self.walk.word_id, error),
                    Self::fallen_back(self.walk.word_id, error).walk.pending(),
                ),
                Some(first) => ResolverStepView::Done(
                    Err(ErrorView::CompositeError(seq![first, error])),
                ),
            },
        }
    }

    /// How the resolution ends when it is given `replies` one after
    /// another; nothing while they do not suffice.
    pub open spec fn run(self, replies: Seq<ReplyView>) -> Option<Result<WordView, ErrorView>>
        decreases replies.len(),
    {
        if replies.len() == 0 {
            None
        } else {
            match self.step(replies[0]) {
                ResolverStepView::Done(end) => Some(end),
                ResolverStepView::Ask(next, _) => next.run(replies.skip(1)),
            }
        }
    }
}

/// The resolution of a word stem: American English first, British English
/// if that fails.
#[derive(Debug)]
pub struct Resolver {
    walk: Walk,
    first_failure: Option<OxfordClientError>,
}

/// What a step of a resolution comes to.
#[derive(Debug)]
pub enum ResolverStep {
    /// Send this request, and hand the answer to the resolution.
    Ask(Resolver, EntriesRequest),
    /// The resolution is over.
    Done(Result<Word, OxfordClientError>),
}

impl View for Resolver {
    type V = ResolverView;

    closed spec fn view(&self) -> ResolverView {
        ResolverView { walk: self.walk@, first_failure: self.first_failure.deep_view() }
    }
}

impl View for ResolverStep {
    type V = ResolverStepView;

    open spec fn view(&self) -> ResolverStepView {
        match self {
            ResolverStep::Ask(resolver, request) => ResolverStepView::Ask(resolver@, request@),
            ResolverStep::Done(Ok(word)) => ResolverStepView::Done(Ok(word@)),
            ResolverStep::Done(Err(error)) => ResolverStepView::Done(Err(error@)),
        }
    }
}

impl Resolver {
    /// Starts resolving `word_stem`: the first request is for the stem in
    /// American English.
    pub fn start(word_stem: &str) -> (begun: (Resolver, EntriesRequest))
        ensures
            begun.0@ == ResolverView::start(word_stem@),
            begun.1@ == begun.0@.walk.pending(),
    {
        let (walk, request) = Walk::start(word_stem, Dialect::EnUs);
        (Resolver { walk, first_failure: None }, request)
    }

    /// Takes the answer to the request that the resolution was waiting on.
    pub fn advance(self, reply: Reply) -> (step: ResolverStep)
        ensures
            step@ == self@.step(reply_view(reply)),
    {
        let word_stem = self.walk.word_id.clone();
        match self.walk.advance(reply) {
            WalkStep::Ask(walk, request) => ResolverStep::Ask(
                Resolver { walk, first_failure: self.first_failure },
                request,
            ),
            WalkStep::Done(Ok(found)) => ResolverStep::Done(Ok(process_entries(found))),
            WalkStep::Done(Err(error)) => match self.first_failure {
                None => {
                    let (walk, request) = Walk::start(word_stem.as_str(), Dialect::EnGb);
                    ResolverStep::Ask(Resolver { walk, first_failure: Some(error) }, request)
                },
                Some(first) => {
                    let mut errors: Vec<OxfordClientError> = Vec::new();
                    errors.push(first);
                    errors.push(error);
                    assert(errors.deep_view() =~= seq![first@, error@]);
                    ResolverStep::Done(Err(OxfordClientError::composite(errors)))
                },
            },
        }
    }
}

/// A walk that ends has taken at least one reply and no more than it was
/// given.
pub proof fn lemma_run_takes(walk: WalkView, replies: Seq<ReplyView>)
    ensures
        walk.run(replies) matches Some((_, taken)) ==> 1 <= taken <= replies.len(),
    decreases replies.len(),
{
    if replies.len() > 0 {
        match walk.step(replies[0]) {
            WalkStepView::Ask(next, _) => {
                lemma_run_takes(next, replies.skip(1));
            },
            WalkStepView::Done(_) => {},
        }
    }
}

/// While its first walk is under way, a resolution ends as that walk does
/// if the walk finds the word, and goes on as a fresh walk through British
/// English, with the replies that are left, if the walk fails.
pub proof fn lemma_first_walk(state: ResolverView, replies: Seq<ReplyView>)
    requires
        state.first_failure is None,
    ensures
        match state.walk.run(replies) {
            None => state.run(replies) is None,
            Some((Ok(found), _)) => state.run(replies) == Some(
                Ok::<WordView, ErrorView>(defined_word(found.0, found.1)),
            ),
            Some((Err(first), taken)) => state.run(replies) == ResolverView::fallen_back(
                state.walk.word_id,
                first,
            ).run(replies.skip(taken as int)),
        },
    decreases replies.len(),
{
    if replies.len() > 0 {
        match state.walk.step(replies[0]) {
            WalkStepView::Ask(next, _) => {
                let after = ResolverView { walk: next, first_failure: state.first_failure };
                lemma_first_walk(after, replies.skip(1));
                match next.run(replies.skip(1)) {
                    Some((Err(_), taken)) => {
                        lemma_run_takes(next, replies.skip(1));
                        assert(replies.skip(1).skip(taken as int) =~= replies.skip(
                            taken as int + 1,
                        ));
                    },
                    _ => {},
                }
            },
            WalkStepView::Done(_) => {},
        }
    }
}

/// Once American English has failed, a resolution ends as its second walk
/// does: with the word if the walk finds it, and with both failures, the
/// earlier one first, if it fails too.
pub proof fn lemma_second_walk(state: ResolverView, replies: Seq<ReplyView>)
    requires
        state.first_failure is Some,
    ensures
        state.run(replies) == match state.walk.run(replies) {
            None => None,
            Some((Ok(found), _)) => Some(Ok::<WordView, ErrorView>(defined_word(found.0, found.1))),
            Some((Err(second), _)) => Some(
                Err::<WordView, ErrorView>(
                    ErrorView::CompositeError(seq![state.first_failure->0, second]),
                ),
            ),
        },
    decreases replies.len(),
{
    if replies.len() > 0 {
        match state.walk.step(replies[0]) {
            WalkStepView::Ask(next, _) => {
                let after = ResolverView { walk: next, first_failure: state.first_failure };
                lemma_second_walk(after, replies.skip(1));
            },
            WalkStepView::Done(_) => {},
        }
    }
}

/// Resolving a word stem is looking it up in American English and, if that
/// fails, in British English with the replies that are left. What the first
/// lookup finds is the result. If it fails, the result is what looking the
/// stem up in British English alone gives; and if that fails too, the
/// failure holds both failures, the American one first.
pub proof fn lemma_fallback(word_stem: Seq<char>, replies: Seq<ReplyView>)
    ensures
        ResolverView::start(word_stem).run(replies) == match WalkView::start(
            word_stem,
            Dialect::EnUs,
        ).run(replies) {
            None => None,
            Some((Ok(found), _)) => Some(Ok::<WordView, ErrorView>(defined_word(found.0, found.1))),
            Some((Err(first), taken)) => match WalkView::start(word_stem, Dialect::EnGb).run(
                replies.skip(taken as int),
            ) {
                None => None,
                Some((Ok(found), _)) => Some(
                    Ok::<WordView, ErrorView>(defined_word(found.0, found.1)),
                ),
                Some((Err(second), _)) => Some(
                    Err::<WordView, ErrorView>(ErrorView::CompositeError(seq![first, second])),
                ),
            },
        },
{
    let state = ResolverView::start(word_stem);
    lemma_first_walk(state, replies);
    match state.walk.run(replies) {
        Some((Err(first), taken)) => {
            lemma_second_walk(
                ResolverView::fallen_back(word_stem, first),
                replies.skip(taken as int),
            );
        },
        _ => {},
    }
}

/// A word whose entries give no definition but a lead to another word is
/// looked up under that word, in the same dialect; and what is found there
/// counts as the definitions of the word that was asked for, not of the
/// lead.
pub proof fn lemma_lead_followed(
    word_id: Seq<char>,
    dialect: Dialect,
    first: Seq<Seq<LexicalEntryView>>,
    second: Seq<Seq<LexicalEntryView>>,
)
    requires
        response_outcome(first) is Follow,
        response_outcome(first)->Follow_0 != word_id,
        response_outcome(second) is Resolved,
    ensures
        WalkView::start(word_id, dialect).step(Ok(first)) matches WalkStepView::Ask(_, request)
            && request == (RequestView {
            word_id: response_outcome(first)->Follow_0,
            dialect,
        }),
        WalkView::start(word_id, dialect).run(seq![Ok(first), Ok(second)]) == Some(
            (
                Ok::<Found, ErrorView>((word_id, response_outcome(second)->Resolved_0)),
                2nat,
            ),
        ),
{
    let lead = response_outcome(first)->Follow_0;
    let replies = seq![Ok::<Seq<Seq<LexicalEntryView>>, FetchError>(first), Ok(second)];
    let walk = WalkView::start(word_id, dialect);
    assert(!walk.visited.contains(lead)) by {
        if walk.visited.contains(lead) {
            let i = choose|i: int| 0 <= i < walk.visited.len() && walk.visited[i] == lead;
            assert(walk.visited[i] == word_id);
        }
    }
    let next = walk.step(replies[0])->Ask_0;
    assert(replies.skip(1)[0] == Ok::<Seq<Seq<LexicalEntryView>>, FetchError>(second));
    assert(next.run(replies.skip(1)) == Some(
        (Ok::<Found, ErrorView>((word_id, response_outcome(second)->Resolved_0)), 1nat),
    ));
}

/// Resolving a word whose entries in American English give no definition
/// but a lead to another word, under which definitions are found, gives
/// those definitions for the word that was asked for.
pub proof fn lemma_lead_resolved(
    word_id: Seq<char>,
    first: Seq<Seq<LexicalEntryView>>,
    second: Seq<Seq<LexicalEntryView>>,
)
    requires
        response_outcome(first) is Follow,
        response_outcome(first)->Follow_0 != word_id,
        response_outcome(second) is Resolved,
    ensures
        ResolverView::start(word_id).run(seq![Ok(first), Ok(second)]) == Some(
            Ok::<WordView, ErrorView>(
                defined_word(word_id, response_outcome(second)->Resolved_0),
            ),
        ),
{
    let replies = seq![Ok::<Seq<Seq<LexicalEntryView>>, FetchError>(first), Ok(second)];
    lemma_lead_followed(word_id, Dialect::EnUs, first, second);
    lemma_fallback(word_id, replies);
}

} // verus!
