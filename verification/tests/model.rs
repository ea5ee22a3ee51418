use std::cmp::Ordering;

use anki_words_importer::auth::{
    auth_endpoint, grant_form, ApplicationCredentials, Claims, Instant, TokenManager, TokenStep,
    TokenValue, TOKEN_LIFETIME,
};
use anki_words_importer::book::Book;
use anki_words_importer::definitions::Definitions;
use anki_words_importer::error::OxfordClientError;
use anki_words_importer::export::{deck_is_missing, is_exportable, store_book, StoreStep};
use anki_words_importer::fetch::FetchError;
use anki_words_importer::model::{Definition, DefinitionCategory};
use anki_words_importer::text::{join, same_text};
use anki_words_importer::translate::{
    translation_of, Request, Response, TranslateError, TranslationResponse, TranslationsResponse,
};
use anki_words_importer::word::Word;

const CATEGORIES: [(DefinitionCategory, &str); 8] = [
    (DefinitionCategory::Noun, "noun"),
    (DefinitionCategory::Verb, "verb"),
    (DefinitionCategory::Adjective, "adjective"),
    (DefinitionCategory::Adverb, "adverb"),
    (DefinitionCategory::Preposition, "preposition"),
    (DefinitionCategory::Interjection, "interjection"),
    (DefinitionCategory::Idiomatic, "idiomatic"),
    (DefinitionCategory::Pronoun, "pronoun"),
];

#[test]
fn categories_are_named_in_lowercase() {
    for (category, name) in CATEGORIES {
        assert_eq!(category.name(), name);
        assert_eq!(DefinitionCategory::from_str(name), Some(category));
        assert_eq!(DefinitionCategory::from_str(&category.name()), Some(category));
    }
}

#[test]
fn other_names_are_no_categories() {
    for name in ["", "Noun", "NOUN", " noun", "noun ", "nouns", "conjunction", "determiner"] {
        assert_eq!(DefinitionCategory::from_str(name), None, "{:?}", name);
    }
}

#[test]
fn render_to_appends_the_name() {
    let mut buffer = "a ".to_string();
    DefinitionCategory::Interjection.render_to(&mut buffer);
    DefinitionCategory::Noun.render_to(&mut buffer);
    assert_eq!(buffer, "a interjectionnoun");
}

#[test]
fn a_word_from_text_knows_nothing_yet() {
    let word = Word::from_text("serendipity");
    assert_eq!(word.text, "serendipity");
    assert_eq!(word.original_text, "serendipity");
    assert_eq!(word.translation, None);
    assert!(word.definitions.is_none());
}

#[test]
fn words_are_the_same_item_by_their_highlight() {
    let mut word = Word::from_text("mice");
    let other = Word::from_text("mice");
    word.text = "mouse".to_string();
    word.translation = Some("мышь".to_string());
    assert!(word.same_item(&other));
    assert!(!word.same_item(&Word::from_text("mouse")));
}

#[test]
fn redaction_changes_the_text_and_clears_the_rest() {
    let mut word = Word::from_text("teh");
    word.translation = Some("?".to_string());
    word.definitions = Some(Definitions::new());
    word.redact("the".to_string());
    assert_eq!(word.text, "the");
    assert_eq!(word.original_text, "teh");
    assert_eq!(word.translation, None);
    assert!(word.definitions.is_none());
}

#[test]
fn clearing_keeps_both_texts() {
    let mut word = Word::from_text("mice");
    word.text = "mouse".to_string();
    word.translation = Some("мышь".to_string());
    word.definitions = Some(Definitions::new());
    word.clear();
    assert_eq!(word.text, "mouse");
    assert_eq!(word.original_text, "mice");
    assert_eq!(word.translation, None);
    assert!(word.definitions.is_none());
}

#[test]
fn copies_of_words_hold_the_same() {
    let mut definitions = Definitions::new();
    definitions.append(
        DefinitionCategory::Noun,
        vec![Definition {
            definition: Some("a small rodent".to_string()),
            examples: vec!["a mouse ran by".to_string()],
        }],
    );
    let word = Word {
        text: "mouse".to_string(),
        original_text: "mice".to_string(),
        translation: Some("мышь".to_string()),
        definitions: Some(definitions),
    };
    let copies = vec![word.clone(), Word::from_text("x")].clone();
    assert_eq!(copies.len(), 2);
    assert_eq!(copies[0].text, word.text);
    assert_eq!(copies[0].original_text, word.original_text);
    assert_eq!(copies[0].translation, word.translation);
    assert_eq!(
        copies[0].definitions.as_ref().expect("definitions").get(DefinitionCategory::Noun),
        word.definitions.as_ref().expect("definitions").get(DefinitionCategory::Noun)
    );
    assert_eq!(copies[1].text, "x");
}

fn book(title: &str, author: Option<&str>) -> Book {
    Book::new(7, title.to_string(), author.map(|name| name.to_string()))
}

#[test]
fn a_book_is_shown_by_author_and_title() {
    assert_eq!(book("Dune", Some("Frank Herbert")).label(), "Frank Herbert: Dune");
    assert_eq!(book("Beowulf", None).label(), "N/A: Beowulf");
    let listed = book("Dune", Some("Frank Herbert"));
    assert_eq!(listed.id, 7);
    assert!(listed.words.is_empty());
}

#[test]
fn books_with_an_author_come_first() {
    assert_eq!(book("Z", Some("a")).partial_cmp(&book("A", None)), Some(Ordering::Less));
    assert_eq!(book("A", None).partial_cmp(&book("Z", Some("a"))), Some(Ordering::Greater));
}

#[test]
fn books_are_ordered_by_author_then_by_title() {
    assert_eq!(
        book("Z", Some("Austen")).partial_cmp(&book("A", Some("Bronte"))),
        Some(Ordering::Less)
    );
    assert_eq!(
        book("A", Some("austen")).partial_cmp(&book("A", Some("Bronte"))),
        Some(Ordering::Greater)
    );
    assert_eq!(
        book("Emma", Some("Austen")).partial_cmp(&book("Persuasion", Some("Austen"))),
        Some(Ordering::Less)
    );
    assert_eq!(
        book("persuasion", Some("Austen")).partial_cmp(&book("Emma", Some("Austen"))),
        Some(Ordering::Greater)
    );
    assert_eq!(
        book("EMMA", Some("Austen")).partial_cmp(&book("emma", Some("Austen"))),
        Some(Ordering::Equal)
    );
    assert_eq!(
        book("Em", Some("Austen")).partial_cmp(&book("Emma", Some("Austen"))),
        Some(Ordering::Less)
    );
}

#[test]
fn books_without_an_author_are_ordered_by_title() {
    assert_eq!(book("beowulf", None).partial_cmp(&book("Edda", None)), Some(Ordering::Less));
    assert_eq!(book("Edda", None).partial_cmp(&book("beowulf", None)), Some(Ordering::Greater));
    assert_eq!(book("Edda", None).partial_cmp(&book("EDDA", None)), Some(Ordering::Equal));
    assert!(book("beowulf", None) < book("Edda", None));
    let mut books = vec![
        book("b", None),
        book("Z", Some("B")),
        book("A", None),
        book("a", Some("B")),
        book("m", Some("A")),
    ];
    books.sort_by(|left, right| left.partial_cmp(right).expect("an order"));
    let labels: Vec<String> = books.iter().map(|book| book.label()).collect();
    assert_eq!(labels, vec!["A: m", "B: a", "B: Z", "N/A: A", "N/A: b"]);
}

#[test]
fn books_are_equal_by_author_and_title() {
    let mut same = book("Dune", Some("Frank Herbert"));
    same.id = 99;
    assert!(book("Dune", Some("Frank Herbert")) == same);
    assert!(book("Dune", Some("Frank Herbert")) != book("dune", Some("Frank Herbert")));
    assert!(book("Dune", Some("Frank Herbert")) != book("Dune", None));
    assert!(book("Dune", None) == book("Dune", None));
}

#[test]
fn a_translation_request_is_from_english_to_russian() {
    assert_eq!(
        Request::new("serendipity"),
        Request {
            q: "serendipity".to_string(),
            source: "en".to_string(),
            target: "ru".to_string(),
            format: "text".to_string(),
        }
    );
}

fn translations(texts: &[Option<&str>]) -> Response {
    Response {
        data: TranslationsResponse {
            translations: texts
                .iter()
                .map(|text| TranslationResponse {
                    translated_text: text.map(|value| value.to_string()),
                })
                .collect(),
        },
    }
}

#[test]
fn the_first_translation_counts() {
    assert_eq!(
        translation_of(translations(&[Some("счастье"), Some("радость")])),
        Ok("счастье".to_string())
    );
    assert_eq!(translation_of(translations(&[Some("one")])), Ok("one".to_string()));
}

#[test]
fn an_answer_without_a_first_text_has_no_translation() {
    assert_eq!(translation_of(translations(&[])), Err(TranslateError::NoTranslation));
    assert_eq!(translation_of(translations(&[None])), Err(TranslateError::NoTranslation));
    assert_eq!(
        translation_of(translations(&[None, Some("late")])),
        Err(TranslateError::NoTranslation)
    );
}

fn credentials() -> ApplicationCredentials {
    ApplicationCredentials {
        cred_type: "service_account".to_string(),
        project_id: "project".to_string(),
        private_key_id: "key-id".to_string(),
        private_key: "a key in PEM".to_string(),
        client_email: "robot@example.com".to_string(),
        client_id: "1".to_string(),
        auth_uri: "https://example.com/auth".to_string(),
        token_uri: "https://example.com/token".to_string(),
        auth_provider_x509_cert_url: "https://example.com/certs".to_string(),
        client_x509_cert_url: "https://example.com/cert".to_string(),
    }
}

fn at(seconds: i64, nanos: u32) -> Instant {
    Instant { seconds, nanos }
}

#[test]
fn a_manager_without_a_token_mints_one() {
    let scopes = vec!["scope-a".to_string(), "scope-b".to_string()];
    let manager = TokenManager::new(&credentials(), &scopes);
    assert_eq!(manager.scopes, "scope-a scope-b");
    assert_eq!(manager.client_email, "robot@example.com");
    assert_eq!(TOKEN_LIFETIME, 45 * 60);
    assert_eq!(
        manager.token(at(1_000, 5)),
        TokenStep::Mint(
            Claims {
                iss: "robot@example.com".to_string(),
                scope: "scope-a scope-b".to_string(),
                aud: "https://oauth2.googleapis.com/token".to_string(),
                exp: 3_700,
                iat: 1_000,
            },
            at(3_700, 5),
        )
    );
    assert_eq!(auth_endpoint(), "https://oauth2.googleapis.com/token");
}

#[test]
fn a_token_serves_until_it_runs_out() {
    let mut manager = TokenManager::new(&credentials(), &vec!["scope".to_string()]);
    let header = manager.store("abc".to_string(), at(3_700, 5));
    assert_eq!(header, "Bearer abc");
    assert_eq!(manager.token(at(1_000, 5)), TokenStep::Use("Bearer abc".to_string()));
    assert_eq!(manager.token(at(3_699, 999_999_999)), TokenStep::Use("Bearer abc".to_string()));
    assert_eq!(manager.token(at(3_700, 5)), TokenStep::Use("Bearer abc".to_string()));
    match manager.token(at(3_700, 6)) {
        TokenStep::Mint(claims, expiry) => {
            assert_eq!(claims.iat, 3_700);
            assert_eq!(claims.exp, 6_400);
            assert_eq!(expiry, at(6_400, 6));
        }
        TokenStep::Use(_) => panic!("a token that had run out was used"),
    }
    match manager.token(at(3_701, 0)) {
        TokenStep::Mint(_, expiry) => assert_eq!(expiry, at(6_401, 0)),
        TokenStep::Use(_) => panic!("a token that had run out was used"),
    }
}

#[test]
fn instants_are_ordered_by_seconds_then_nanoseconds() {
    assert!(at(2, 0).not_before(&at(1, 999)));
    assert!(at(1, 5).not_before(&at(1, 5)));
    assert!(!at(1, 4).not_before(&at(1, 5)));
    assert!(!at(-1, 0).not_before(&at(0, 0)));
}

#[test]
fn token_values_and_grant_forms_are_spelled_out() {
    assert_eq!(TokenValue::Bearer("xyz".to_string()).header(), "Bearer xyz");
    assert_eq!(
        grant_form("signed.jwt"),
        "grant_type=urn:ietf:params:oauth:grant-type:jwt-bearer&assertion=signed.jwt"
    );
}

#[test]
fn joining_puts_the_separator_between() {
    let parts = |values: &[&str]| -> Vec<String> {
        values.iter().map(|value| value.to_string()).collect()
    };
    assert_eq!(join(&parts(&[]), ", "), "");
    assert_eq!(join(&parts(&["a"]), ", "), "a");
    assert_eq!(join(&parts(&["a", "b", "c"]), ", "), "a, b, c");
    assert_eq!(join(&parts(&["", ""]), "-"), "-");
    assert!(same_text("a", "a"));
    assert!(!same_text("a", "A"));
}

fn card_word(translation: Option<&str>, definitions: Option<Vec<Option<&str>>>) -> Word {
    Word {
        text: "mouse".to_string(),
        original_text: "mice".to_string(),
        translation: translation.map(|value| value.to_string()),
        definitions: definitions.map(|texts| {
            let mut definitions = Definitions::new();
            definitions.append(
                DefinitionCategory::Noun,
                vec![Definition { definition: Some("a rodent".to_string()), examples: vec![] }],
            );
            definitions.append(
                DefinitionCategory::Verb,
                texts
                    .into_iter()
                    .map(|text| Definition {
                        definition: text.map(|value| value.to_string()),
                        examples: vec![],
                    })
                    .collect(),
            );
            definitions
        }),
    }
}

#[test]
fn a_card_needs_translation_and_defined_definitions() {
    assert!(is_exportable(&card_word(Some("мышь"), Some(vec![Some("to hunt mice")]))));
    assert!(is_exportable(&card_word(Some("мышь"), Some(vec![]))));
    assert!(!is_exportable(&card_word(None, Some(vec![Some("to hunt mice")]))));
    assert!(!is_exportable(&card_word(Some("мышь"), None)));
    assert!(!is_exportable(&card_word(Some("мышь"), Some(vec![Some("to hunt mice"), None]))));
    assert!(!is_exportable(&Word::from_text("mice")));
}

#[test]
fn a_deck_is_missing_unless_it_is_listed() {
    let decks = vec!["Default".to_string(), "Dune".to_string()];
    assert!(!deck_is_missing(&decks, "Dune"));
    assert!(deck_is_missing(&decks, "dune"));
    assert!(deck_is_missing(&decks, "Emma"));
    assert!(deck_is_missing(&vec![], "Dune"));
}

#[test]
fn storing_a_book_sees_to_the_deck_then_adds_each_word() {
    assert_eq!(
        store_book(3, false),
        vec![
            StoreStep::EnsureDeck,
            StoreStep::AddWord(0),
            StoreStep::AddWord(1),
            StoreStep::AddWord(2)
        ]
    );
    assert_eq!(
        store_book(1, true),
        vec![StoreStep::DeleteDeck, StoreStep::EnsureDeck, StoreStep::AddWord(0)]
    );
    assert_eq!(store_book(0, false), vec![StoreStep::EnsureDeck]);
}

#[test]
fn failures_read_as_text() {
    assert_eq!(OxfordClientError::NoStem.message(), "No inflections found");
    assert_eq!(OxfordClientError::NoEntries.message(), "Entries results array is empty");
    assert_eq!(
        OxfordClientError::NoLeads.message(),
        "Definition entries and other sources are empty"
    );
    assert_eq!(
        OxfordClientError::UnknownCategory("particle".to_string()).message(),
        "Failed to convert lexical category from 'particle'"
    );
    assert_eq!(
        OxfordClientError::Transport(FetchError::MissingRetryAfter).message(),
        "Failed to get Retry-After header"
    );
}

#[test]
fn gathered_failures_read_one_to_a_line() {
    let both = OxfordClientError::CompositeError(vec![
        OxfordClientError::NoEntries,
        OxfordClientError::CompositeError(vec![
            OxfordClientError::UnknownCategory("particle".to_string()),
            OxfordClientError::NoLeads,
        ]),
    ]);
    assert_eq!(
        both.message(),
        "Entries results array is empty\nFailed to convert lexical category from 'particle'\nDefinition entries and other sources are empty"
    );
    assert_eq!(OxfordClientError::CompositeError(vec![]).message(), "");
    assert_eq!(both.clone(), both);
    assert_eq!(
        OxfordClientError::composite(vec![OxfordClientError::NoStem]),
        OxfordClientError::CompositeError(vec![OxfordClientError::NoStem])
    );
}
