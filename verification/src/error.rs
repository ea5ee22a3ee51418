//! Why a word could not be resolved.

use crate::fetch::FetchError;
use crate::text::{join, joined};
use vstd::prelude::*;
use vstd::string::*;

verus! {

/// A failure to resolve one word. None of them is retried here: whoever
/// wants another try submits another candidate word.
#[derive(Debug, PartialEq, Eq)]
pub enum OxfordClientError {
    /// The lemma lookup named no headword for the word.
    NoStem,
    /// The dictionary has no entries for the word.
    NoEntries,
    /// A lexical entry is filed under a category, given here as it was read,
    /// that is none of the known ones.
    UnknownCategory(String),
    /// Neither a definition nor a lead to another word was found.
    NoLeads,
    /// The request for the word failed.
    Transport(FetchError),
    /// Several failures that belong together, each kept as it was.
    CompositeError(Vec<OxfordClientError>),
}

/// The mathematical content of an `OxfordClientError`.
pub enum ErrorView {
    NoStem,
    NoEntries,
    UnknownCategory(Seq<char>),
    NoLeads,
    Transport(FetchError),
    CompositeError(Seq<ErrorView>),
}

impl OxfordClientError {
    /// The failure as a mathematical value.
    pub open spec fn model(&self) -> ErrorView
        decreases self,
    {
        match self {
            OxfordClientError::NoStem => ErrorView::NoStem,
            OxfordClientError::NoEntries => ErrorView::NoEntries,
            OxfordClientError::UnknownCategory(text) => ErrorView::UnknownCategory(text@),
            OxfordClientError::NoLeads => ErrorView::NoLeads,
            OxfordClientError::Transport(error) => ErrorView::Transport(*error),
            OxfordClientError::CompositeError(errors) => ErrorView::CompositeError(
                Seq::new(
                    errors@.len(),
                    |i: int|
                        if 0 <= i < errors@.len() {
                            errors@[i].model()
                        } else {
                            ErrorView::NoStem
                        },
                ),
            ),
        }
    }
}

impl View for OxfordClientError {
    type V = ErrorView;

    open spec fn view(&self) -> ErrorView {
        self.model()
    }
}

impl DeepView for OxfordClientError {
    type V = ErrorView;

    open spec fn deep_view(&self) -> ErrorView {
        self.view()
    }
}

impl OxfordClientError {
    /// The failure that gathers `errors`, in their order.
    pub fn composite(errors: Vec<OxfordClientError>) -> (error: OxfordClientError)
        ensures
            error@ == ErrorView::CompositeError(errors.deep_view()),
    {
        assert(OxfordClientError::CompositeError(errors)@ == ErrorView::CompositeError(
            errors.deep_view(),
        )) by {
            let whole = OxfordClientError::CompositeError(errors);
            assert(whole@->CompositeError_0 =~= errors.deep_view());
        }
        OxfordClientError::CompositeError(errors)
    }
}

impl ErrorView {
    /// The failure in words. A failure that gathers others reads as theirs,
    /// one to a line.
    pub open spec fn message(self) -> Seq<char>
        decreases self,
    {
        match self {
            ErrorView::NoStem => "No inflections found"@,
            ErrorView::NoEntries => "Entries results array is empty"@,
            ErrorView::UnknownCategory(name) => "Failed to convert lexical category from '"@
                + name + "'"@,
            ErrorView::NoLeads => "Definition entries and other sources are empty"@,
            ErrorView::Transport(error) => error.spec_message(),
            ErrorView::CompositeError(errors) => joined(Self::messages(errors), "\n"@),
        }
    }

    /// Each of the failures in words.
    pub open spec fn messages(errors: Seq<ErrorView>) -> Seq<Seq<char>>
        decreases errors,
    {
        Seq::new(
            errors.len(),
            |i: int|
                if 0 <= i < errors.len() {
                    errors[i].message()
                } else {
                    Seq::empty()
                },
        )
    }
}

impl OxfordClientError {
    /// The failure in words.
    pub fn message(&self) -> (message: String)
        ensures
            message@ == self@.message(),
        decreases self,
    {
        match self {
            OxfordClientError::NoStem => String::from_str("No inflections found"),
            OxfordClientError::NoEntries => String::from_str("Entries results array is empty"),
            OxfordClientError::UnknownCategory(name) => {
                let mut message = String::from_str("Failed to convert lexical category from '");
                message.append(name.as_str());
                message.append("'");
                message
            },
            OxfordClientError::NoLeads => String::from_str(
                "Definition entries and other sources are empty",
            ),
            OxfordClientError::Transport(error) => error.message(),
            OxfordClientError::CompositeError(errors) => {
                let mut lines: Vec<String> = Vec::new();
                let mut i: usize = 0;
                while i < errors.len()
                    invariant
                        i <= errors.len(),
                        lines.len() == i,
                        forall|j: int| 0 <= j < i ==> lines[j]@ == errors[j]@.message(),
                        *self == OxfordClientError::CompositeError(*errors),
                    decreases errors.len() - i,
                {
                    proof {
                        // What is gathered is smaller than what gathers it.
                        assert(decreases_to!(*self => self->CompositeError_0));
                        assert(decreases_to!(*errors => errors[i as int]));
                    }
                    lines.push(errors[i].message());
                    i = i + 1;
                }
                proof {
                    let gathered = self@->CompositeError_0;
                    assert(gathered.len() == errors.len());
                    assert forall|j: int| 0 <= j < gathered.len() implies gathered[j]
                        == errors[j]@ by {}
                    assert(lines.deep_view() =~= ErrorView::messages(gathered));
                }
                join(&lines, "\n")
            },
        }
    }
}

impl Clone for OxfordClientError {
    fn clone(&self) -> (copy: OxfordClientError)
        ensures
            copy@ == self@,
        decreases self,
    {
        match self {
            OxfordClientError::NoStem => OxfordClientError::NoStem,
            OxfordClientError::NoEntries => OxfordClientError::NoEntries,
            OxfordClientError::UnknownCategory(text) => OxfordClientError::UnknownCategory(
                text.clone(),
            ),
            OxfordClientError::NoLeads => OxfordClientError::NoLeads,
            OxfordClientError::Transport(error) => OxfordClientError::Transport(*error),
            OxfordClientError::CompositeError(errors) => {
                let mut copies: Vec<OxfordClientError> = Vec::new();
                let mut i: usize = 0;
                while i < errors.len()
                    invariant
                        i <= errors.len(),
                        copies.len() == i,
                        forall|j: int| 0 <= j < i ==> copies[j]@ == errors[j]@,
                        *self == OxfordClientError::CompositeError(*errors),
                    decreases errors.len() - i,
                {
                    proof {
                        // What is gathered is smaller than what gathers it.
                        assert(decreases_to!(*self => self->CompositeError_0));
                        assert(decreases_to!(*errors => errors[i as int]));
                    }
                    copies.push(errors[i].clone());
                    i = i + 1;
                }
                assert(copies.deep_view() =~= errors.deep_view());
                let copy = OxfordClientError::composite(copies);
                assert(self@->CompositeError_0 =~= errors.deep_view());
                copy
            },
        }
    }
}

} // verus!
