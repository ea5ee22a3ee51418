//! What is asked of the translation service, and what its answer holds.

use crate::fetch::FetchError;
use vstd::prelude::*;
use vstd::string::*;

verus! {

/// A request for the translation of a text from English into Russian.
#[derive(Debug, PartialEq, Eq)]
pub struct Request {
    pub q: String,
    pub source: String,
    pub target: String,
    pub format: String,
}

/// The mathematical content of a `Request`.
pub struct TranslateRequestView {
    pub q: Seq<char>,
    pub source: Seq<char>,
    pub target: Seq<char>,
    pub format: Seq<char>,
}

impl View for Request {
    type V = TranslateRequestView;

    open spec fn view(&self) -> TranslateRequestView {
        TranslateRequestView {
            q: self.q@,
            source: self.source@,
            target: self.target@,
            format: self.format@,
        }
    }
}

impl Request {
    /// The request for the translation of `query`, as plain text.
    pub fn new(query: &str) -> (request: Request)
        ensures
            request@ == (TranslateRequestView {
                q: query@,
                source: "en"@,
                target: "ru"@,
                format: "text"@,
            }),
    {
        Request {
            q: String::from_str(query),
            source: String::from_str("en"),
            target: String::from_str("ru"),
            format: String::from_str("text"),
        }
    }
}

/// One translation in the service's answer.
#[derive(Debug)]
pub struct TranslationResponse {
    pub translated_text: Option<String>,
}

impl View for TranslationResponse {
    type V = Option<Seq<char>>;

    open spec fn view(&self) -> Option<Seq<char>> {
        self.translated_text.deep_view()
    }
}

impl DeepView for TranslationResponse {
    type V = Option<Seq<char>>;

    open spec fn deep_view(&self) -> Option<Seq<char>> {
        self.view()
    }
}

/// The translations in the service's answer.
#[derive(Debug)]
pub struct TranslationsResponse {
    pub translations: Vec<TranslationResponse>,
}

/// The service's answer.
#[derive(Debug)]
pub struct Response {
    pub data: TranslationsResponse,
}

impl View for Response {
    type V = Seq<Option<Seq<char>>>;

    open spec fn view(&self) -> Seq<Option<Seq<char>>> {
        self.data.translations.deep_view()
    }
}

/// Why a text was not translated.
#[derive(Debug, Clone, Copy, PartialEq, Eq, Structural)]
pub enum TranslateError {
    /// The request failed.
    Transport(FetchError),
    /// The service answered without a translation.
    NoTranslation,
}

impl TranslateError {
    /// The failure in words.
    pub open spec fn spec_message(self) -> Seq<char> {
        match self {
            TranslateError::Transport(error) => error.spec_message(),
            TranslateError::NoTranslation => "No translation"@,
        }
    }

    /// The failure in words.
    pub fn message(&self) -> (message: String)
        ensures
            message@ == self.spec_message(),
    {
        match self {
            TranslateError::Transport(error) => error.message(),
            TranslateError::NoTranslation => String::from_str("No translation"),
        }
    }
}

/// The translation that an answer gives: the text of its first translation,
/// if it has one with a text.
pub open spec fn translation_in(translations: Seq<Option<Seq<char>>>) -> Option<Seq<char>> {
    if translations.len() > 0 {
        translations[0]
    } else {
        None
    }
}

/// Takes the translation out of the service's answer.
pub fn translation_of(response: Response) -> (translation: Result<String, TranslateError>)
    ensures
        translation matches Ok(text) ==> translation_in(response@) == Some(text@),
        translation matches Err(error) ==> translation_in(response@) is None && error
            == TranslateError::NoTranslation,
{
    let mut translations = response.data.translations;
    if translations.len() == 0 {
        return Err(TranslateError::NoTranslation);
    }
    let first = translations.swap_remove(0);
    match first.translated_text {
        Some(text) => Ok(text),
        None => Err(TranslateError::NoTranslation),
    }
}

} // verus!
