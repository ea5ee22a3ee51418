//! Text primitives: character classes, and the contracts assumed of the
//! string routines of the standard library, of `regex` and of `itertools`
//! that the rest of the library builds on.

use vstd::prelude::*;
use vstd::string::*;

verus! {

/// The code points that Unicode classes as `White_Space`.
pub open spec fn is_whitespace(c: char) -> bool {
    ||| '\u{9}' <= c <= '\u{d}'
    ||| c == ' '
    ||| c == '\u{85}'
    ||| c == '\u{a0}'
    ||| c == '\u{1680}'
    ||| '\u{2000}' <= c <= '\u{200a}'
    ||| c == '\u{2028}'
    ||| c == '\u{2029}'
    ||| c == '\u{202f}'
    ||| c == '\u{205f}'
    ||| c == '\u{3000}'
}

/// Whether `c` is one of the ASCII capitals.
pub open spec fn is_ascii_uppercase(c: char) -> bool {
    'A' <= c <= 'Z'
}

/// Whether `c` is one of the ASCII small letters.
pub open spec fn is_ascii_lowercase(c: char) -> bool {
    'a' <= c <= 'z'
}

/// Whether `c` is an ASCII character.
pub open spec fn is_ascii(c: char) -> bool {
    c <= '\u{7f}'
}

/// `c` with the ASCII capitals mapped to their small letters.
pub open spec fn ascii_lowercase(c: char) -> char {
    if is_ascii_uppercase(c) {
        ((c as u8) + 32) as char
    } else {
        c
    }
}

/// Text in which case is a matter of ASCII alone: every character is ASCII
/// or white space.
pub open spec fn is_simple_text(text: Seq<char>) -> bool {
    forall|i: int| 0 <= i < text.len() ==> is_ascii(#[trigger] text[i]) || is_whitespace(text[i])
}

/// `text` with its ASCII capitals mapped to their small letters.
pub open spec fn ascii_lowered(text: Seq<char>) -> Seq<char> {
    text.map_values(|c: char| ascii_lowercase(c))
}

/// What `str::to_lowercase` makes of text that is not simple: the Unicode
/// lowercase mapping, context rules included.
pub uninterp spec fn unicode_lowercase(text: Seq<char>) -> Seq<char>;

/// The lowercase form of `text`.
pub open spec fn lowercase_of(text: Seq<char>) -> Seq<char> {
    if is_simple_text(text) {
        ascii_lowered(text)
    } else {
        unicode_lowercase(text)
    }
}

/// `str::to_lowercase`. Assumed: on text made of ASCII and white space it
/// lowers the ASCII capitals and changes nothing else; on any other text the
/// result is a function of the text alone; and no ASCII capital is ever left
/// in what it returns.
#[verifier::external_body]
pub(crate) fn to_lowercase(text: &str) -> (lowered: String)
    ensures
        lowered@ == (if is_simple_text(text@) {
            ascii_lowered(text@)
        } else {
            unicode_lowercase(text@)
        }),
        forall|i: int| 0 <= i < lowered@.len() ==> !is_ascii_uppercase(#[trigger] lowered@[i]),
{
    text.to_lowercase()
}

/// `text` without its leading white space.
pub open spec fn trimmed_start(text: Seq<char>) -> Seq<char>
    decreases text.len(),
{
    if text.len() > 0 && is_whitespace(text[0]) {
        trimmed_start(text.skip(1))
    } else {
        text
    }
}

/// `text` without its trailing white space.
pub open spec fn trimmed_end(text: Seq<char>) -> Seq<char>
    decreases text.len(),
{
    if text.len() > 0 && is_whitespace(text.last()) {
        trimmed_end(text.drop_last())
    } else {
        text
    }
}

/// `text` without leading and trailing white space.
pub open spec fn trimmed(text: Seq<char>) -> Seq<char> {
    trimmed_end(trimmed_start(text))
}

/// `str::trim`. Assumed: it cuts the longest run of `White_Space` characters
/// off each end and returns what lies between.
#[verifier::external_body]
pub(crate) fn trim(text: &str) -> (inner: &str)
    ensures
        inner@ == trimmed(text@),
{
    text.trim()
}

/// `text` with every occurrence of the character `from` replaced by `to`.
pub open spec fn with_replaced(text: Seq<char>, from: char, to: char) -> Seq<char> {
    text.map_values(|c: char| if c == from { to } else { c })
}

/// `str::replace` with a pattern and a replacement of one character each.
/// Assumed: every occurrence of that character is replaced and nothing else
/// changes.
#[verifier::external_body]
pub(crate) fn replace(text: &str, from: &str, to: &str) -> (replaced: String)
    requires
        from@.len() == 1,
        to@.len() == 1,
    ensures
        replaced@ == with_replaced(text@, from@[0], to@[0]),
{
    text.replace(from, to)
}

/// Whether `c` is a decimal digit.
pub open spec fn is_digit(c: char) -> bool {
    '0' <= c <= '9'
}

/// The number that a run of decimal digits denotes.
pub open spec fn decimal_value(digits: Seq<char>) -> int
    decreases digits.len(),
{
    if digits.len() == 0 {
        0
    } else {
        10 * decimal_value(digits.drop_last()) + (digits.last() as int - '0' as int)
    }
}

/// Whether `digits` holds decimal digits only.
pub open spec fn all_digits(digits: Seq<char>) -> bool {
    forall|i: int| 0 <= i < digits.len() ==> is_digit(#[trigger] digits[i])
}

/// The unsigned 64-bit number written in `text`: an optional `+`, then one
/// or more decimal digits and nothing else, the value in range.
pub open spec fn parse_decimal(text: Seq<char>) -> Option<u64> {
    let digits = if text.len() > 0 && text[0] == '+' {
        text.skip(1)
    } else {
        text
    };
    if digits.len() > 0 && all_digits(digits) && decimal_value(digits) <= u64::MAX {
        Some(decimal_value(digits) as u64)
    } else {
        None
    }
}

/// `str::parse::<u64>`. Assumed: it accepts an optional `+` followed by at
/// least one decimal digit and nothing else, and fails on an empty string,
/// on any other character and on a value that does not fit.
#[verifier::external_body]
pub(crate) fn parse_u64(text: &str) -> (parsed: Option<u64>)
    ensures
        parsed == parse_decimal(text@),
{
    text.parse::<u64>().ok()
}

/// The pattern of everything that is no letter, white space or hyphen.
pub open spec fn non_word_pattern() -> Seq<char> {
    "[^A-Za-z\\s-]"@
}

/// The pattern of everything that is no small letter or white space.
pub open spec fn non_slug_pattern() -> Seq<char> {
    "[^a-z\\s]"@
}

/// Whether `c` falls outside what `pattern` matches, for the two negated
/// character classes this library uses.
pub open spec fn escapes(pattern: Seq<char>, c: char) -> bool {
    if pattern == non_word_pattern() {
        is_ascii_lowercase(c) || is_ascii_uppercase(c) || c == '-' || is_whitespace(c)
    } else {
        is_ascii_lowercase(c) || is_whitespace(c)
    }
}

/// The test of falling outside what `pattern` matches.
pub open spec fn keeps(pattern: Seq<char>) -> spec_fn(char) -> bool {
    |c: char| escapes(pattern, c)
}

/// `regex::Regex::new` and `Regex::replace_all` with an empty replacement.
/// Assumed, for the two negated classes above: each compiles, a match is
/// exactly one character outside the class (`\s` being `White_Space`), and
/// replacing all matches by nothing leaves the other characters in order.
#[verifier::external_body]
pub(crate) fn replace_all(pattern: &str, text: &str, replacement: &str) -> (kept: String)
    requires
        pattern@ == non_word_pattern() || pattern@ == non_slug_pattern(),
        replacement@.len() == 0,
    ensures
        kept@ == text@.filter(keeps(pattern@)),
{
    regex::Regex::new(pattern).unwrap().replace_all(text, replacement).into_owned()
}

/// `items` without the repetitions: of equal items only the first stays,
/// and what stays keeps its order.
pub open spec fn first_occurrences(items: Seq<Seq<char>>) -> Seq<Seq<char>>
    decreases items.len(),
{
    if items.len() == 0 {
        items
    } else {
        let before = first_occurrences(items.drop_last());
        if before.contains(items.last()) {
            before
        } else {
            before.push(items.last())
        }
    }
}

/// What is left of a list without its repetitions holds every item of the
/// list, nothing else, and nothing twice.
pub proof fn lemma_first_occurrences(items: Seq<Seq<char>>)
    ensures
        first_occurrences(items).no_duplicates(),
        forall|item: Seq<char>| #[trigger]
            first_occurrences(items).contains(item) <==> items.contains(item),
    decreases items.len(),
{
    let kept = first_occurrences(items);
    if items.len() > 0 {
        let before = first_occurrences(items.drop_last());
        lemma_first_occurrences(items.drop_last());
        assert forall|item: Seq<char>| #[trigger] kept.contains(item) <==> items.contains(item) by {
            if kept.contains(item) {
                let i = choose|i: int| 0 <= i < kept.len() && kept[i] == item;
                if i < before.len() {
                    assert(before[i] == item);
                    assert(before.contains(item));
                    let j = choose|j: int|
                        0 <= j < items.drop_last().len() && items.drop_last()[j] == item;
                    assert(items[j] == item);
                } else {
                    assert(items[items.len() - 1] == item);
                }
            }
            if items.contains(item) {
                let j = choose|j: int| 0 <= j < items.len() && items[j] == item;
                if j < items.len() - 1 {
                    assert(items.drop_last()[j] == item);
                    assert(before.contains(item));
                    let i = choose|i: int| 0 <= i < before.len() && before[i] == item;
                    assert(kept[i] == item);
                } else if before.contains(item) {
                    let i = choose|i: int| 0 <= i < before.len() && before[i] == item;
                    assert(kept[i] == item);
                } else {
                    assert(kept[before.len() as int] == item);
                }
            }
        }
        assert forall|i: int, j: int| 0 <= i < kept.len() && 0 <= j < kept.len() && i != j implies kept[i]
            != kept[j] by {
            if i < before.len() && j < before.len() {
                assert(before[i] != before[j]);
            } else if i < before.len() {
                assert(before.contains(before[i]));
            } else if j < before.len() {
                assert(before.contains(before[j]));
            }
        }
    }
}

/// `itertools::Itertools::unique` over the strings of a vector. Assumed: it
/// yields each distinct string once, at the place of its first occurrence.
#[verifier::external_body]
pub(crate) fn unique(items: Vec<String>) -> (distinct: Vec<String>)
    ensures
        distinct.deep_view() == first_occurrences(items.deep_view()),
{
    itertools::Itertools::unique(items.into_iter()).collect()
}

/// The parts put one after another, with `separator` between each two.
pub open spec fn joined(parts: Seq<Seq<char>>, separator: Seq<char>) -> Seq<char>
    decreases parts.len(),
{
    if parts.len() == 0 {
        Seq::empty()
    } else if parts.len() == 1 {
        parts[0]
    } else {
        joined(parts.drop_last(), separator) + separator + parts.last()
    }
}

/// Puts the parts one after another, with `separator` between each two.
pub fn join(parts: &Vec<String>, separator: &str) -> (text: String)
    ensures
        text@ == joined(parts.deep_view(), separator@),
{
    let mut text = String::new();
    let ghost all = parts.deep_view();
    let mut i: usize = 0;
    while i < parts.len()
        invariant
            i <= parts.len(),
            all == parts.deep_view(),
            text@ == joined(all.take(i as int), separator@),
        decreases parts.len() - i,
    {
        proof {
            assert(all.take(i + 1).drop_last() =~= all.take(i as int));
            assert(all.take(i + 1).last() == parts[i as int]@);
            if i == 0 {
                assert(text@ + parts[i as int]@ =~= parts[i as int]@);
            }
        }
        if i > 0 {
            text.append(separator);
        }
        text.append(parts[i].as_str());
        i = i + 1;
    }
    assert(all.take(all.len() as int) =~= all);
    text
}

/// Whether two strings hold the same text.
pub fn same_text(left: &str, right: &str) -> (same: bool)
    ensures
        same == (left@ == right@),
{
    String::from_str(left) == String::from_str(right)
}

/// A sequence all of whose items pass a filter is left whole by it.
pub proof fn lemma_filter_keeps_all<A>(items: Seq<A>, pred: spec_fn(A) -> bool)
    requires
        forall|i: int| 0 <= i < items.len() ==> pred(#[trigger] items[i]),
    ensures
        items.filter(pred) == items,
    decreases items.len(),
{
    reveal(Seq::filter);
    if items.len() > 0 {
        lemma_filter_keeps_all(items.drop_last(), pred);
        assert(items.drop_last().push(items.last()) =~= items);
    }
}

} // verus!
