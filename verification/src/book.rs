//! A book of highlights, and the order in which books are offered for
//! choice.

use crate::text::{lowercase_of, to_lowercase};
use crate::word::{Word, WordView};
use std::cmp::Ordering;
use vstd::prelude::*;
use vstd::std_specs::cmp::{PartialEqSpecImpl, PartialOrdSpecImpl};
use vstd::string::*;

verus! {

/// The order of two texts: character by character, by code point, a text
/// before every longer text that begins with it.
pub open spec fn text_order(left: Seq<char>, right: Seq<char>) -> Ordering
    decreases left.len(),
{
    if left.len() == 0 {
        if right.len() == 0 {
            Ordering::Equal
        } else {
            Ordering::Less
        }
    } else if right.len() == 0 {
        Ordering::Greater
    } else if left[0] < right[0] {
        Ordering::Less
    } else if left[0] > right[0] {
        Ordering::Greater
    } else {
        text_order(left.skip(1), right.skip(1))
    }
}

/// `str::cmp`. Assumed: it orders strings lexicographically by their bytes,
/// which for UTF-8 is the order of their code points.
#[verifier::external_body]
fn compare_text(left: &str, right: &str) -> (order: Ordering)
    ensures
        order == text_order(left@, right@),
{
    left.cmp(right)
}

/// A book that highlights were made in.
#[derive(Debug)]
pub struct Book {
    pub id: u64,
    pub title: String,
    pub author: Option<String>,
    pub words: Vec<Word>,
}

/// The mathematical content of a `Book`.
pub struct BookView {
    pub id: u64,
    pub title: Seq<char>,
    pub author: Option<Seq<char>>,
    pub words: Seq<WordView>,
}

impl View for Book {
    type V = BookView;

    open spec fn view(&self) -> BookView {
        BookView {
            id: self.id,
            title: self.title@,
            author: self.author.deep_view(),
            words: self.words.deep_view(),
        }
    }
}

impl BookView {
    /// Whether two books count as the same: by author and title.
    pub open spec fn same_as(self, other: BookView) -> bool {
        self.author == other.author && self.title == other.title
    }

    /// The order of two titles: that of their lowercase forms.
    pub open spec fn title_order(self, other: BookView) -> Ordering {
        text_order(lowercase_of(self.title), lowercase_of(other.title))
    }

    /// The order of two books: those with an author first, by author and
    /// then by title; those without after them, by title.
    pub open spec fn order(self, other: BookView) -> Ordering {
        match (self.author, other.author) {
            (Some(mine), Some(theirs)) => match text_order(mine, theirs) {
                Ordering::Equal => self.title_order(other),
                Ordering::Less => Ordering::Less,
                Ordering::Greater => Ordering::Greater,
            },
            (Some(_), None) => Ordering::Less,
            (None, Some(_)) => Ordering::Greater,
            (None, None) => self.title_order(other),
        }
    }

    /// The line that shows the book in a list: author, then title.
    pub open spec fn label(self) -> Seq<char> {
        match self.author {
            Some(author) => author + ": "@ + self.title,
            None => "N/A: "@ + self.title,
        }
    }
}

impl Book {
    /// A book as a listing gives it, without words yet.
    pub fn new(id: u64, title: String, author: Option<String>) -> (book: Book)
        ensures
            book@ == (BookView {
                id,
                title: title@,
                author: author.deep_view(),
                words: Seq::empty(),
            }),
    {
        let words: Vec<Word> = Vec::new();
        assert(words.deep_view() =~= Seq::<WordView>::empty());
        Book { id, title, author, words }
    }

    /// The line that shows the book in a list.
    pub fn label(&self) -> (label: String)
        ensures
            label@ == self@.label(),
    {
        let mut label = match &self.author {
            Some(author) => {
                let mut label = author.clone();
                label.append(": ");
                label
            },
            None => String::from_str("N/A: "),
        };
        label.append(self.title.as_str());
        label
    }

    fn title_order(&self, other: &Book) -> (order: Ordering)
        ensures
            order == self@.title_order(other@),
    {
        let mine = to_lowercase(self.title.as_str());
        let theirs = to_lowercase(other.title.as_str());
        compare_text(mine.as_str(), theirs.as_str())
    }
}

impl PartialEq for Book {
    fn eq(&self, other: &Book) -> (same: bool) {
        let same_author = match (&self.author, &other.author) {
            (Some(mine), Some(theirs)) => *mine == *theirs,
            (None, None) => true,
            _ => false,
        };
        same_author && self.title == other.title
    }
}

impl PartialEqSpecImpl for Book {
    open spec fn obeys_eq_spec() -> bool {
        true
    }

    open spec fn eq_spec(&self, other: &Book) -> bool {
        self@.same_as(other@)
    }
}

impl PartialOrd for Book {
    fn partial_cmp(&self, other: &Book) -> (order: Option<Ordering>) {
        match (&self.author, &other.author) {
            (Some(mine), Some(theirs)) => {
                match compare_text(mine.as_str(), theirs.as_str()) {
                    Ordering::Equal => Some(self.title_order(other)),
                    Ordering::Less => Some(Ordering::Less),
                    Ordering::Greater => Some(Ordering::Greater),
                }
            },
            (Some(_), None) => Some(Ordering::Less),
            (None, Some(_)) => Some(Ordering::Greater),
            (None, None) => Some(self.title_order(other)),
        }
    }
}

impl PartialOrdSpecImpl for Book {
    open spec fn obeys_partial_cmp_spec() -> bool {
        true
    }

    open spec fn partial_cmp_spec(&self, other: &Book) -> Option<Ordering> {
        Some(self@.order(other@))
    }
}

} // verus!
