//! From the highlights of a book to the words to learn: which highlights
//! count, and how their text is normalized.

use crate::text::{
    ascii_lowered, first_occurrences, is_ascii, is_ascii_lowercase, is_ascii_uppercase,
    is_simple_text, is_whitespace, keeps, lemma_filter_keeps_all, lemma_first_occurrences,
    lowercase_of, non_word_pattern, replace_all, same_text, to_lowercase, unique,
};
use crate::word::{distinct_keys, Word, WordView};
use vstd::prelude::*;
use vstd::string::*;

verus! {

/// The characters a word is made of: letters, the hyphen and white space.
pub open spec fn is_word_char(c: char) -> bool {
    is_ascii_lowercase(c) || is_ascii_uppercase(c) || c == '-' || is_whitespace(c)
}

/// The normal form of a highlight's text: in lowercase, and of that only
/// the word characters.
pub open spec fn normalized(text: Seq<char>) -> Seq<char> {
    lowercase_of(text).filter(keeps(non_word_pattern()))
}

/// Normalizes the text of a highlight.
///
/// What comes out holds word characters only and no capital letter, and
/// normalizing it again changes nothing.
pub fn transform_word(word: &str) -> (token: String)
    ensures
        token@ == normalized(word@),
        forall|i: int|
            0 <= i < token@.len() ==> is_word_char(#[trigger] token@[i]) && !is_ascii_uppercase(
                token@[i],
            ),
        normalized(token@) == token@,
{
    let lowered = to_lowercase(word);
    proof {
        reveal_strlit("");
    }
    let token = replace_all("[^A-Za-z\\s-]", lowered.as_str(), "");
    proof {
        let keep = keeps(non_word_pattern());
        assert forall|i: int| 0 <= i < token@.len() implies is_word_char(#[trigger] token@[i])
            && !is_ascii_uppercase(token@[i]) by {
            lowered@.lemma_filter_pred(keep, i);
            assert(token@.contains(token@[i]));
            lowered@.lemma_filter_contains_rev(keep, token@[i]);
            let j = choose|j: int| 0 <= j < lowered@.len() && lowered@[j] == token@[i];
            assert(!is_ascii_uppercase(lowered@[j]));
        }
        assert(is_simple_text(token@)) by {
            assert forall|i: int| 0 <= i < token@.len() implies is_ascii(#[trigger] token@[i])
                || is_whitespace(token@[i]) by {
                assert(is_word_char(token@[i]));
            }
        }
        assert(ascii_lowered(token@) =~= token@) by {
            assert forall|i: int| 0 <= i < token@.len() implies ascii_lowered(token@)[i]
                == token@[i] by {
                assert(!is_ascii_uppercase(token@[i]));
            }
        }
        assert forall|i: int| 0 <= i < token@.len() implies keep(#[trigger] token@[i]) by {
            assert(is_word_char(token@[i]));
        }
        lemma_filter_keeps_all(token@, keep);
    }
    token
}

/// The tag that marks a highlight as a word to learn.
pub open spec fn word_tag() -> Seq<char> {
    "pink"@
}

/// A tag on a highlight.
#[derive(Debug)]
pub struct BookTag {
    pub name: String,
}

impl View for BookTag {
    type V = Seq<char>;

    open spec fn view(&self) -> Seq<char> {
        self.name@
    }
}

impl DeepView for BookTag {
    type V = Seq<char>;

    open spec fn deep_view(&self) -> Seq<char> {
        self.name@
    }
}

/// A highlight in a book: its text and its tags.
#[derive(Debug)]
pub struct BookHighlight {
    pub text: String,
    pub tags: Vec<BookTag>,
}

/// The mathematical content of a `BookHighlight`.
pub struct HighlightView {
    pub text: Seq<char>,
    pub tags: Seq<Seq<char>>,
}

impl View for BookHighlight {
    type V = HighlightView;

    open spec fn view(&self) -> HighlightView {
        HighlightView { text: self.text@, tags: self.tags.deep_view() }
    }
}

impl DeepView for BookHighlight {
    type V = HighlightView;

    open spec fn deep_view(&self) -> HighlightView {
        self.view()
    }
}

/// Picks the normalized text of the highlights that are marked as words.
pub open spec fn pick_token() -> spec_fn(HighlightView) -> Option<Seq<char>> {
    |highlight: HighlightView|
        if highlight.tags.contains(word_tag()) {
            Some(normalized(highlight.text))
        } else {
            None
        }
}

/// The words that `highlights` hold: the normalized texts of the marked
/// ones, each once, in the order of their first occurrence.
pub open spec fn words_in(highlights: Seq<HighlightView>) -> Seq<WordView> {
    first_occurrences(highlights.filter_map(pick_token())).map_values(
        |token: Seq<char>| WordView::fresh(token),
    )
}

impl BookHighlight {
    /// Whether the highlight is marked as a word to learn.
    pub fn is_word(&self) -> (marked: bool)
        ensures
            marked == self@.tags.contains(word_tag()),
    {
        let mut i: usize = 0;
        while i < self.tags.len()
            invariant
                i <= self.tags.len(),
                forall|j: int| 0 <= j < i ==> (#[trigger] self.tags.deep_view()[j]) != word_tag(),
            decreases self.tags.len() - i,
        {
            if same_text(self.tags[i].name.as_str(), "pink") {
                assert(self.tags.deep_view()[i as int] == word_tag());
                return true;
            }
            i = i + 1;
        }
        false
    }
}

/// The words to learn from the highlights of a book, untranslated and
/// undefined, and no two from the same text.
pub fn get_words(highlights: Vec<BookHighlight>) -> (words: Vec<Word>)
    ensures
        words.deep_view() == words_in(highlights.deep_view()),
        distinct_keys(words.deep_view()),
{
    let mut tokens: Vec<String> = Vec::new();
    let ghost all = highlights.deep_view();
    assert(tokens.deep_view() =~= all.take(0).filter_map(pick_token()));
    for highlight in it: highlights
        invariant
            all.len() == it.seq().len(),
            forall|j: int| 0 <= j < all.len() ==> all[j] == (#[trigger] it.seq()[j])@,
            tokens.deep_view() == all.take(it.index() as int).filter_map(pick_token()),
    {
        let ghost k = it.index() as int;
        let ghost before = tokens.deep_view();
        proof {
            all.lemma_filter_map_take_succ(pick_token(), k);
        }
        if highlight.is_word() {
            tokens.push(transform_word(highlight.text.as_str()));
            assert(tokens.deep_view() =~= before.push(normalized(all[k].text)));
        }
    }
    assert(all.take(all.len() as int) =~= all);
    let distinct = unique(tokens);
    let mut words: Vec<Word> = Vec::new();
    let mut i: usize = 0;
    while i < distinct.len()
        invariant
            i <= distinct.len(),
            words.len() == i,
            forall|j: int| 0 <= j < i ==> words[j]@ == WordView::fresh(distinct[j]@),
        decreases distinct.len() - i,
    {
        words.push(Word::from_text(distinct[i].as_str()));
        i = i + 1;
    }
    assert(words.deep_view() =~= distinct.deep_view().map_values(
        |token: Seq<char>| WordView::fresh(token),
    ));
    proof {
        lemma_first_occurrences(all.filter_map(pick_token()));
        assert forall|a: int, b: int| 0 <= a < b < words.deep_view().len() implies (
        #[trigger] words.deep_view()[a]).original_text != (
        #[trigger] words.deep_view()[b]).original_text by {
            assert(distinct.deep_view()[a] != distinct.deep_view()[b]);
        }
    }
    words
}

} // verus!
