//! The cache of words resolved earlier: where it is kept, what it holds
//! under which key, and which of a book's words it spares from being
//! resolved again.

use crate::text::{
    keeps, lowercase_of, non_slug_pattern, replace, replace_all, same_text, to_lowercase,
    with_replaced,
};
use crate::word::{distinct_keys, Word, WordView};
use vstd::prelude::*;
use vstd::string::*;

verus! {

/// The key a book's words are kept under: the title in lowercase, without
/// anything but small letters and white space, and with an underscore for
/// each space.
pub open spec fn slug_of(book_name: Seq<char>) -> Seq<char> {
    with_replaced(lowercase_of(book_name).filter(keeps(non_slug_pattern())), ' ', '_')
}

/// The name of the file that holds a book's words.
pub open spec fn filename_of(book_name: Seq<char>) -> Seq<char> {
    "data/"@ + slug_of(book_name) + ".json"@
}

/// The directory that the cache files are in.
pub fn cache_dir() -> (dir: String)
    ensures
        dir@ == "data"@,
{
    String::from_str("data")
}

/// The name of the file that holds the words of the book `book_name`.
pub fn get_filename(book_name: &str) -> (filename: String)
    ensures
        filename@ == filename_of(book_name@),
{
    let lowered = to_lowercase(book_name);
    proof {
        reveal_strlit("");
    }
    let letters = replace_all("[^a-z\\s]", lowered.as_str(), "");
    proof {
        reveal_strlit(" ");
        reveal_strlit("_");
    }
    let slug = replace(letters.as_str(), " ", "_");
    let mut filename = String::from_str("data/");
    filename.append(slug.as_str());
    filename.append(".json");
    filename
}

/// Why a store could not be opened for reading.
#[derive(Debug, Clone, Copy, PartialEq, Eq, Structural)]
pub enum ReadFailure {
    /// There is no such store.
    NotFound,
    /// Anything else.
    Other,
}

/// What a store that could not be opened reads as: a store that is not
/// there holds no words; any other failure is fatal, and reads as nothing.
pub fn words_of_unread_store(failure: ReadFailure) -> (words: Option<Vec<Word>>)
    ensures
        failure == ReadFailure::NotFound ==> (words matches Some(none) && none.deep_view()
            == Seq::<WordView>::empty()),
        failure == ReadFailure::Other ==> words is None,
{
    match failure {
        ReadFailure::NotFound => {
            let none: Vec<Word> = Vec::new();
            assert(none.deep_view() =~= Seq::<WordView>::empty());
            Some(none)
        },
        ReadFailure::Other => None,
    }
}

/// Why the directory of the stores could not be created.
#[derive(Debug, Clone, Copy, PartialEq, Eq, Structural)]
pub enum DirFailure {
    /// It is there already.
    AlreadyExists,
    /// Anything else.
    Other,
}

/// Whether the stores can be written although their directory could not be
/// created: only where it was there already.
pub fn directory_is_there(failure: DirFailure) -> (there: bool)
    ensures
        there == (failure == DirFailure::AlreadyExists),
{
    match failure {
        DirFailure::AlreadyExists => true,
        DirFailure::Other => false,
    }
}

/// The words of a list by the highlight they came from. Where two came from
/// the same highlight, the later one counts.
pub open spec fn keyed(words: Seq<WordView>) -> Map<Seq<char>, WordView>
    decreases words.len(),
{
    if words.len() == 0 {
        Map::empty()
    } else {
        keyed(words.drop_last()).insert(words.last().original_text, words.last())
    }
}

/// Every word is kept under the highlight it came from.
pub open spec fn well_keyed(cache: Map<Seq<char>, WordView>) -> bool {
    forall|key: Seq<char>| cache.contains_key(key) ==> (#[trigger] cache[key]).original_text == key
}

/// The last word of a list that came from a highlight is the one kept under
/// it.
pub proof fn lemma_keyed_last(words: Seq<WordView>, i: int)
    requires
        0 <= i < words.len(),
        forall|j: int| i < j < words.len() ==> (#[trigger] words[j]).original_text
            != words[i].original_text,
    ensures
        keyed(words).contains_key(words[i].original_text),
        keyed(words)[words[i].original_text] == words[i],
    decreases words.len(),
{
    if i < words.len() - 1 {
        assert(words[words.len() - 1].original_text != words[i].original_text);
        lemma_keyed_last(words.drop_last(), i);
    }
}

/// A key is in use exactly if a word of the list came from that highlight,
/// and the word kept under it is one of those.
pub proof fn lemma_keyed_keys(words: Seq<WordView>, key: Seq<char>)
    ensures
        keyed(words).contains_key(key) <==> exists|i: int|
            0 <= i < words.len() && (#[trigger] words[i]).original_text == key,
        keyed(words).contains_key(key) ==> keyed(words)[key].original_text == key && words.contains(
            keyed(words)[key],
        ),
    decreases words.len(),
{
    if words.len() > 0 {
        let before = words.drop_last();
        lemma_keyed_keys(before, key);
        if words.last().original_text == key {
            assert(words[words.len() - 1].original_text == key);
            assert(words[words.len() - 1] == keyed(words)[key]);
        } else {
            if keyed(before).contains_key(key) {
                let i = choose|i: int|
                    0 <= i < before.len() && (#[trigger] before[i]).original_text == key;
                assert(words[i].original_text == key);
                let j = choose|j: int| 0 <= j < before.len() && before[j] == keyed(before)[key];
                assert(words[j] == keyed(words)[key]);
            }
            if exists|i: int| 0 <= i < words.len() && (#[trigger] words[i]).original_text == key {
                let i = choose|i: int|
                    0 <= i < words.len() && (#[trigger] words[i]).original_text == key;
                assert(before[i].original_text == key);
            }
        }
    }
}

/// What a list of words is keyed into is well keyed.
pub proof fn lemma_keyed_well_keyed(words: Seq<WordView>)
    ensures
        well_keyed(keyed(words)),
{
    assert forall|key: Seq<char>| keyed(words).contains_key(key) implies (#[trigger] keyed(
        words,
    )[key]).original_text == key by {
        lemma_keyed_keys(words, key);
    }
}

/// In a list without two words of one highlight, each word is the one kept
/// under its highlight.
pub proof fn lemma_keyed_distinct(words: Seq<WordView>, i: int)
    requires
        distinct_keys(words),
        0 <= i < words.len(),
    ensures
        keyed(words).contains_key(words[i].original_text),
        keyed(words)[words[i].original_text] == words[i],
{
    lemma_keyed_last(words, i);
}

/// Replacing a word by another of the same highlight replaces what is kept
/// under that highlight, and nothing else.
proof fn lemma_keyed_replaced(words: Seq<WordView>, i: int, word: WordView)
    requires
        distinct_keys(words),
        0 <= i < words.len(),
        words[i].original_text == word.original_text,
    ensures
        distinct_keys(words.update(i, word)),
        keyed(words.update(i, word)) == keyed(words).insert(word.original_text, word),
{
    let after = words.update(i, word);
    let expected = keyed(words).insert(word.original_text, word);
    assert forall|a: int, b: int| 0 <= a < b < after.len() implies (#[trigger] after[a]).original_text
        != (#[trigger] after[b]).original_text by {
        assert(words[a].original_text != words[b].original_text);
    }
    assert forall|key: Seq<char>| keyed(after).contains_key(key) <==> expected.contains_key(
        key,
    ) by {
        lemma_keyed_keys(after, key);
        lemma_keyed_keys(words, key);
        if keyed(after).contains_key(key) {
            let j = choose|j: int| 0 <= j < after.len() && (#[trigger] after[j]).original_text == key;
            assert(words[j].original_text == key);
        }
        if keyed(words).contains_key(key) {
            let j = choose|j: int| 0 <= j < words.len() && (#[trigger] words[j]).original_text == key;
            assert(after[j].original_text == key);
        }
        if key == word.original_text {
            assert(after[i].original_text == key);
        }
    }
    assert forall|key: Seq<char>| keyed(after).contains_key(key) implies keyed(after)[key]
        == expected[key] by {
        lemma_keyed_keys(after, key);
        let j = choose|j: int| 0 <= j < after.len() && (#[trigger] after[j]).original_text == key;
        lemma_keyed_distinct(after, j);
        if j != i {
            lemma_keyed_distinct(words, j);
        }
    }
    assert(keyed(after) =~= expected);
}

/// The place of the word that came from the highlight `key`, or the length
/// of the list if none did.
fn place_of(words: &Vec<Word>, key: &str) -> (place: usize)
    ensures
        place <= words.len(),
        place < words.len() ==> words.deep_view()[place as int].original_text == key@,
        forall|j: int| 0 <= j < place ==> (#[trigger] words.deep_view()[j]).original_text != key@,
{
    let mut i: usize = 0;
    while i < words.len()
        invariant
            i <= words.len(),
            forall|j: int| 0 <= j < i ==> (#[trigger] words.deep_view()[j]).original_text != key@,
        decreases words.len() - i,
    {
        if same_text(words[i].original_text.as_str(), key) {
            assert(words.deep_view()[i as int].original_text == key@);
            return i;
        }
        i = i + 1;
    }
    i
}

/// Whether a word of the list came from the highlight `key`.
pub open spec fn has_key(words: Seq<WordView>, key: Seq<char>) -> bool {
    exists|j: int| 0 <= j < words.len() && (#[trigger] words[j]).original_text == key
}

/// The words as a store keeps them: one for each highlight, at the place
/// where the highlight first occurred, and of the words of one highlight
/// the last.
pub open spec fn stored(words: Seq<WordView>) -> Seq<WordView>
    decreases words.len(),
{
    if words.len() == 0 {
        words
    } else {
        let before = stored(words.drop_last());
        let word = words.last();
        if has_key(before, word.original_text) {
            before.update(
                choose|j: int|
                    0 <= j < before.len() && (#[trigger] before[j]).original_text
                        == word.original_text,
                word,
            )
        } else {
            before.push(word)
        }
    }
}

/// What a store keeps of a list of words has one word for each highlight
/// and holds, under each highlight, what the list holds. A list that is
/// kept whole is one that a store has kept before: writing what was read
/// changes nothing.
pub proof fn lemma_stored(words: Seq<WordView>)
    ensures
        distinct_keys(stored(words)),
        keyed(stored(words)) == keyed(words),
        distinct_keys(words) ==> stored(words) == words,
    decreases words.len(),
{
    if words.len() > 0 {
        let before = stored(words.drop_last());
        let word = words.last();
        lemma_stored(words.drop_last());
        if has_key(before, word.original_text) {
            let j = choose|j: int|
                0 <= j < before.len() && (#[trigger] before[j]).original_text
                    == word.original_text;
            lemma_keyed_replaced(before, j, word);
        } else {
            assert(before.push(word).drop_last() =~= before);
            assert forall|a: int, b: int| 0 <= a < b < before.push(word).len() implies (
            #[trigger] before.push(word)[a]).original_text != (
            #[trigger] before.push(word)[b]).original_text by {
                if b < before.len() {
                    assert(before[a].original_text != before[b].original_text);
                } else {
                    assert(before[a].original_text != word.original_text);
                }
            }
        }
        if distinct_keys(words) {
            assert forall|a: int, b: int| 0 <= a < b < words.drop_last().len() implies (
            #[trigger] words.drop_last()[a]).original_text != (
            #[trigger] words.drop_last()[b]).original_text by {
                assert(words[a].original_text != words[b].original_text);
            }
            assert(before == words.drop_last());
            if has_key(before, word.original_text) {
                let j = choose|j: int|
                    0 <= j < before.len() && (#[trigger] before[j]).original_text
                        == word.original_text;
                assert(words[j].original_text != words[words.len() - 1].original_text);
            }
            assert(before.push(word) =~= words);
        }
    }
}

/// Keeping what a store has kept changes nothing.
pub proof fn lemma_stored_twice(words: Seq<WordView>)
    ensures
        stored(stored(words)) == stored(words),
{
    lemma_stored(words);
    lemma_stored(stored(words));
}

/// The words resolved earlier for one book, each under the highlight it
/// came from, and no two under the same.
#[derive(Debug)]
pub struct WordCache {
    words: Vec<Word>,
}

impl View for WordCache {
    type V = Map<Seq<char>, WordView>;

    closed spec fn view(&self) -> Map<Seq<char>, WordView> {
        keyed(self.words.deep_view())
    }
}

impl WordCache {
    #[verifier::type_invariant]
    spec fn well_formed(&self) -> bool {
        distinct_keys(self.words.deep_view())
    }

    /// The words that the cache holds, in the order in which it keeps
    /// them.
    pub closed spec fn words(&self) -> Seq<WordView> {
        self.words.deep_view()
    }

    /// The cache that holds the words as they were read from the store. A
    /// store that was never written reads as no words. Of two words of one
    /// highlight, the later one is kept.
    pub fn from_words(words: Vec<Word>) -> (cache: WordCache)
        ensures
            cache.words() == stored(words.deep_view()),
            cache@ == keyed(words.deep_view()),
            well_keyed(cache@),
    {
        let mut kept: Vec<Word> = Vec::new();
        let ghost all = words.deep_view();
        assert(kept.deep_view() =~= stored(all.take(0)));
        for word in it: words
            invariant
                all.len() == it.seq().len(),
                forall|j: int| 0 <= j < all.len() ==> all[j] == (#[trigger] it.seq()[j])@,
                kept.deep_view() == stored(all.take(it.index() as int)),
        {
            let ghost before = kept.deep_view();
            let ghost k = it.index() as int;
            proof {
                assert(all.take(k + 1).drop_last() =~= all.take(k));
                assert(all.take(k + 1).last() == word@);
                lemma_stored(all.take(k));
            }
            let place = place_of(&kept, word.original_text.as_str());
            if place < kept.len() {
                proof {
                    let chosen = choose|j: int|
                        0 <= j < before.len() && (#[trigger] before[j]).original_text
                            == word@.original_text;
                    if chosen != place {
                        if chosen < place {
                            assert(before[chosen].original_text != before[place as int].original_text);
                        } else {
                            assert(before[place as int].original_text != before[chosen].original_text);
                        }
                    }
                }
                kept[place] = word;
                assert(kept.deep_view() =~= before.update(place as int, all[k]));
            } else {
                kept.push(word);
                assert(kept.deep_view() =~= before.push(all[k]));
            }
        }
        proof {
            assert(all.take(all.len() as int) =~= all);
            lemma_stored(all);
            lemma_keyed_well_keyed(all);
        }
        WordCache { words: kept }
    }

    /// The words to write to the store, one for each highlight: read back,
    /// they make a cache that keeps the same words in the same order.
    pub fn into_words(self) -> (words: Vec<Word>)
        ensures
            words.deep_view() == self.words(),
            distinct_keys(words.deep_view()),
            stored(words.deep_view()) == self.words(),
            keyed(words.deep_view()) == self@,
    {
        proof {
            use_type_invariant(&self);
            lemma_stored(self.words.deep_view());
        }
        self.words
    }

    /// The word kept under the highlight `original_text`, if there is one.
    pub fn get(&self, original_text: &str) -> (found: Option<&Word>)
        ensures
            found is Some <==> self@.contains_key(original_text@),
            found matches Some(word) ==> word@ == self@[original_text@],
    {
        proof {
            use_type_invariant(self);
            lemma_keyed_keys(self.words.deep_view(), original_text@);
        }
        let place = place_of(&self.words, original_text);
        if place < self.words.len() {
            proof {
                lemma_keyed_distinct(self.words.deep_view(), place as int);
            }
            Some(&self.words[place])
        } else {
            None
        }
    }
}

/// Picks, for a word whose highlight the cache knows, the cached word.
pub open spec fn pick_cached(cache: Map<Seq<char>, WordView>) -> spec_fn(WordView) -> Option<
    WordView,
> {
    |word: WordView|
        if cache.contains_key(word.original_text) {
            Some(cache[word.original_text])
        } else {
            None
        }
}

/// Picks the words whose highlight the cache does not know.
pub open spec fn pick_new(cache: Map<Seq<char>, WordView>) -> spec_fn(WordView) -> Option<
    WordView,
> {
    |word: WordView|
        if cache.contains_key(word.original_text) {
            None
        } else {
            Some(word)
        }
}

/// The words that need no resolving: for each word whose highlight the cache
/// knows, the cached word, in the order of the words.
pub open spec fn processed_of(cache: Map<Seq<char>, WordView>, words: Seq<WordView>) -> Seq<
    WordView,
> {
    words.filter_map(pick_cached(cache))
}

/// The words that are still to be resolved: those whose highlight the cache
/// does not know, in their order.
pub open spec fn unprocessed_of(cache: Map<Seq<char>, WordView>, words: Seq<WordView>) -> Seq<
    WordView,
> {
    words.filter_map(pick_new(cache))
}

/// Parts the words of a book into those still to be resolved, which come
/// first in the result, and those that the cache spares, for which the
/// cached words stand in.
pub fn partition_by_processed(cache: &WordCache, words: Vec<Word>) -> (parts: (
    Vec<Word>,
    Vec<Word>,
))
    ensures
        parts.0.deep_view() == unprocessed_of(cache@, words.deep_view()),
        parts.1.deep_view() == processed_of(cache@, words.deep_view()),
{
    let mut processed: Vec<Word> = Vec::new();
    let mut unprocessed: Vec<Word> = Vec::new();
    let ghost all = words.deep_view();
    let ghost known = pick_cached(cache@);
    let ghost fresh = pick_new(cache@);
    assert(processed.deep_view() =~= all.take(0).filter_map(known));
    assert(unprocessed.deep_view() =~= all.take(0).filter_map(fresh));
    for word in it: words
        invariant
            all.len() == it.seq().len(),
            forall|j: int| 0 <= j < all.len() ==> all[j] == (#[trigger] it.seq()[j])@,
            known == pick_cached(cache@),
            fresh == pick_new(cache@),
            processed.deep_view() == all.take(it.index() as int).filter_map(known),
            unprocessed.deep_view() == all.take(it.index() as int).filter_map(fresh),
    {
        let ghost k = it.index() as int;
        let ghost processed_before = processed.deep_view();
        let ghost unprocessed_before = unprocessed.deep_view();
        proof {
            all.lemma_filter_map_take_succ(known, k);
            all.lemma_filter_map_take_succ(fresh, k);
        }
        match cache.get(word.original_text.as_str()) {
            Some(cached) => {
                processed.push(cached.clone());
                assert(processed.deep_view() =~= processed_before.push(
                    cache@[all[k].original_text],
                ));
            },
            None => {
                unprocessed.push(word);
                assert(unprocessed.deep_view() =~= unprocessed_before.push(all[k]));
            },
        }
    }
    assert(all.take(all.len() as int) =~= all);
    (unprocessed, processed)
}

/// Where the cache knows the highlight of every word, none is left to be
/// resolved, and each word is answered by its cached one.
pub proof fn lemma_all_cached(cache: Map<Seq<char>, WordView>, words: Seq<WordView>)
    requires
        forall|i: int| 0 <= i < words.len() ==> cache.contains_key((#[trigger] words[i]).original_text),
    ensures
        unprocessed_of(cache, words) == Seq::<WordView>::empty(),
        processed_of(cache, words) == words.map_values(|word: WordView| cache[word.original_text]),
    decreases words.len(),
{
    if words.len() > 0 {
        let before = words.drop_last();
        assert forall|i: int| 0 <= i < before.len() implies cache.contains_key(
            (#[trigger] before[i]).original_text,
        ) by {
            assert(before[i] == words[i]);
        }
        lemma_all_cached(cache, before);
        assert(cache.contains_key(words[words.len() - 1].original_text));
        assert(processed_of(cache, words) =~= words.map_values(
            |word: WordView| cache[word.original_text],
        ));
    } else {
        assert(processed_of(cache, words) =~= words.map_values(
            |word: WordView| cache[word.original_text],
        ));
    }
}

/// Where the cache holds exactly the words of a book, what the book's words
/// are answered with makes the same cache again.
pub proof fn lemma_cache_reproduced(cache: Map<Seq<char>, WordView>, words: Seq<WordView>)
    requires
        well_keyed(cache),
        forall|i: int| 0 <= i < words.len() ==> cache.contains_key((#[trigger] words[i]).original_text),
        forall|key: Seq<char>| #[trigger]
            cache.contains_key(key) ==> exists|i: int|
                0 <= i < words.len() && (#[trigger] words[i]).original_text == key,
    ensures
        keyed(processed_of(cache, words)) == cache,
{
    lemma_all_cached(cache, words);
    let answers = processed_of(cache, words);
    assert(answers.len() == words.len());
    assert forall|key: Seq<char>| keyed(answers).contains_key(key) <==> cache.contains_key(key) by {
        lemma_keyed_keys(answers, key);
        if keyed(answers).contains_key(key) {
            let i = choose|i: int| 0 <= i < answers.len() && (#[trigger] answers[i]).original_text == key;
            assert(answers[i] == cache[words[i].original_text]);
        }
        if cache.contains_key(key) {
            let i = choose|i: int| 0 <= i < words.len() && (#[trigger] words[i]).original_text == key;
            assert(answers[i] == cache[key]);
            assert(answers[i].original_text == key);
        }
    }
    assert forall|key: Seq<char>| keyed(answers).contains_key(key) implies keyed(answers)[key]
        == cache[key] by {
        lemma_keyed_keys(answers, key);
        let j = choose|j: int| 0 <= j < answers.len() && answers[j] == keyed(answers)[key];
        assert(answers[j] == cache[words[j].original_text]);
        assert(words[j].original_text == key);
    }
    assert(keyed(answers) =~= cache);
}

} // verus!
