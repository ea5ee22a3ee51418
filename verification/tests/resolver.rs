use anki_words_importer::dictionary::{
    CommonTextEntry, EntriesEntry, EntriesLexicalEntry, EntriesResponse, EntriesResults,
    EntriesSense,
};
use anki_words_importer::error::OxfordClientError;
use anki_words_importer::fetch::FetchError;
use anki_words_importer::model::{Definition, DefinitionCategory};
use anki_words_importer::resolver::{
    process_entries, Dialect, EntriesRequest, Reply, Resolver, ResolverStep, Walk, WalkStep,
};
use anki_words_importer::word::Word;

fn text(value: &str) -> CommonTextEntry {
    CommonTextEntry { text: value.to_string() }
}

fn sense(definition: Option<&str>, references: &[&str]) -> EntriesSense {
    EntriesSense {
        definitions: definition.map(|value| vec![value.to_string()]),
        examples: None,
        short_definitions: None,
        subsenses: None,
        cross_references: Some(references.iter().map(|value| text(value)).collect()),
    }
}

fn answer(category: &str, senses: Vec<EntriesSense>) -> Reply {
    Ok(EntriesResponse {
        results: Some(vec![EntriesResults {
            lexical_entries: vec![EntriesLexicalEntry {
                entries: vec![EntriesEntry { senses }],
                lexical_category: text(category),
                derivative_of: None,
            }],
        }]),
    })
}

fn defined(category: &str, definition: &str) -> Reply {
    answer(category, vec![sense(Some(definition), &[])])
}

fn pointing_to(lead: &str) -> Reply {
    answer("noun", vec![sense(None, &[lead])])
}

fn no_entries() -> Reply {
    Ok(EntriesResponse { results: None })
}

fn request(word_id: &str, dialect: Dialect) -> EntriesRequest {
    EntriesRequest { word_id: word_id.to_string(), dialect }
}

/// Hands the replies to the resolution one by one, and tells which requests
/// it made and how it ended.
fn resolve(
    word_stem: &str,
    replies: Vec<Reply>,
) -> (Vec<EntriesRequest>, Option<Result<Word, OxfordClientError>>) {
    let (mut resolver, first) = Resolver::start(word_stem);
    let mut requests = vec![first];
    for reply in replies {
        match resolver.advance(reply) {
            ResolverStep::Ask(next, request) => {
                resolver = next;
                requests.push(request);
            }
            ResolverStep::Done(end) => return (requests, Some(end)),
        }
    }
    (requests, None)
}

/// Hands the replies to a walk one by one, and tells which requests it made
/// and how it ended.
fn walk(
    word_id: &str,
    dialect: Dialect,
    replies: Vec<Reply>,
) -> (Vec<EntriesRequest>, Option<Result<Word, OxfordClientError>>) {
    let (mut walk, first) = Walk::start(word_id, dialect);
    let mut requests = vec![first];
    for reply in replies {
        match walk.advance(reply) {
            WalkStep::Ask(next, request) => {
                walk = next;
                requests.push(request);
            }
            WalkStep::Done(end) => return (requests, Some(end.map(process_entries))),
        }
    }
    (requests, None)
}

fn definitions_of(word: &Word, category: DefinitionCategory) -> Vec<Definition> {
    word.definitions.as_ref().expect("definitions").get(category).expect("category").clone()
}

fn meaning(value: &str) -> Definition {
    Definition { definition: Some(value.to_string()), examples: vec![] }
}

#[test]
fn resolves_in_american_english_first() {
    let (requests, end) = resolve("color", vec![defined("noun", "a hue")]);
    assert_eq!(requests, vec![request("color", Dialect::EnUs)]);
    let word = end.expect("finished").expect("resolved");
    assert_eq!(word.text, "color");
    assert_eq!(word.original_text, "color");
    assert_eq!(word.translation, None);
    assert_eq!(definitions_of(&word, DefinitionCategory::Noun), vec![meaning("a hue")]);
}

#[test]
fn resolver_fallback() {
    let (requests, end) = resolve("colour", vec![no_entries(), defined("noun", "a hue")]);
    assert_eq!(requests, vec![request("colour", Dialect::EnUs), request("colour", Dialect::EnGb)]);
    let word = end.expect("finished").expect("resolved");

    let (direct_requests, direct_end) =
        walk("colour", Dialect::EnGb, vec![defined("noun", "a hue")]);
    assert_eq!(direct_requests, vec![request("colour", Dialect::EnGb)]);
    let direct = direct_end.expect("finished").expect("resolved");
    assert_eq!(word.text, direct.text);
    assert_eq!(word.original_text, direct.original_text);
    assert_eq!(word.translation, direct.translation);
    assert_eq!(
        definitions_of(&word, DefinitionCategory::Noun),
        definitions_of(&direct, DefinitionCategory::Noun)
    );
    assert_eq!(word.definitions.expect("definitions").into_entries().len(), 1);
}

#[test]
fn both_dialects_failing_gives_both_failures() {
    let (requests, end) =
        resolve("xyzzy", vec![no_entries(), answer("particle", vec![sense(Some("x"), &[])])]);
    assert_eq!(requests.len(), 2);
    assert_eq!(
        end.expect("finished").expect_err("failed"),
        OxfordClientError::CompositeError(vec![
            OxfordClientError::NoEntries,
            OxfordClientError::CompositeError(vec![OxfordClientError::UnknownCategory(
                "particle".to_string()
            )]),
        ])
    );
}

#[test]
fn failed_requests_count_as_failures_of_the_dialect() {
    let (requests, end) = resolve(
        "word",
        vec![Err(FetchError::RateLimitExhausted), Err(FetchError::Status(500))],
    );
    assert_eq!(requests, vec![request("word", Dialect::EnUs), request("word", Dialect::EnGb)]);
    assert_eq!(
        end.expect("finished").expect_err("failed"),
        OxfordClientError::CompositeError(vec![
            OxfordClientError::Transport(FetchError::RateLimitExhausted),
            OxfordClientError::Transport(FetchError::Status(500)),
        ])
    );
}

#[test]
fn recursive_other_sources() {
    let (requests, end) =
        walk("fooing", Dialect::EnGb, vec![pointing_to("Foo"), defined("verb", "to foo")]);
    assert_eq!(requests, vec![request("fooing", Dialect::EnGb), request("foo", Dialect::EnGb)]);
    let word = end.expect("finished").expect("resolved");
    assert_eq!(word.text, "fooing");
    assert_eq!(word.original_text, "fooing");
    assert_eq!(definitions_of(&word, DefinitionCategory::Verb), vec![meaning("to foo")]);
}

#[test]
fn resolution_follows_leads_in_the_dialect_under_way() {
    let (requests, end) = resolve(
        "fooing",
        vec![no_entries(), pointing_to("foo"), pointing_to("fu"), defined("noun", "a fu")],
    );
    assert_eq!(
        requests,
        vec![
            request("fooing", Dialect::EnUs),
            request("fooing", Dialect::EnGb),
            request("foo", Dialect::EnGb),
            request("fu", Dialect::EnGb),
        ]
    );
    let word = end.expect("finished").expect("resolved");
    assert_eq!(word.text, "fooing");
    assert_eq!(definitions_of(&word, DefinitionCategory::Noun), vec![meaning("a fu")]);
}

#[test]
fn a_failed_lead_fails_the_walk() {
    let (requests, end) = walk("fooing", Dialect::EnUs, vec![pointing_to("foo"), no_entries()]);
    assert_eq!(requests.len(), 2);
    assert_eq!(end.expect("finished").expect_err("failed"), OxfordClientError::NoEntries);
}

#[test]
fn a_lead_back_to_a_word_already_asked_for_ends_the_walk() {
    let (requests, end) =
        walk("ping", Dialect::EnUs, vec![pointing_to("pong"), pointing_to("Ping")]);
    assert_eq!(requests, vec![request("ping", Dialect::EnUs), request("pong", Dialect::EnUs)]);
    assert_eq!(end.expect("finished").expect_err("failed"), OxfordClientError::NoLeads);
}

#[test]
fn a_word_that_leads_to_itself_ends_the_walk() {
    let (requests, end) = walk("loop", Dialect::EnUs, vec![pointing_to("loop")]);
    assert_eq!(requests.len(), 1);
    assert_eq!(end.expect("finished").expect_err("failed"), OxfordClientError::NoLeads);
}

#[test]
fn a_walk_waits_while_replies_are_missing() {
    let (requests, end) = walk("fooing", Dialect::EnUs, vec![pointing_to("foo")]);
    assert_eq!(requests.len(), 2);
    assert!(end.is_none());
}

#[test]
fn request_paths_name_dialect_and_word() {
    assert_eq!(request("swim", Dialect::EnUs).path(), "/entries/en-us/swim");
    assert_eq!(request("ice cream", Dialect::EnGb).path(), "/entries/en-gb/ice cream");
    assert_eq!(Dialect::EnUs.code(), "en-us");
    assert_eq!(Dialect::EnGb.code(), "en-gb");
}
