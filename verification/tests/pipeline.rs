use anki_words_importer::definitions::Definitions;
use anki_words_importer::error::OxfordClientError;
use anki_words_importer::fetch::FetchError;
use anki_words_importer::model::{Definition, DefinitionCategory};
use anki_words_importer::pipeline::{process_word, word_stem, Next, Pipeline, ProcessError};
use anki_words_importer::translate::TranslateError;
use anki_words_importer::word::Word;

fn fresh(texts: &[&str]) -> Vec<Word> {
    texts.iter().map(|text| Word::from_text(text)).collect()
}

fn keys(words: &[Word]) -> Vec<&str> {
    words.iter().map(|word| word.original_text.as_str()).collect()
}

fn defined(word_id: &str) -> Word {
    let mut definitions = Definitions::new();
    definitions.append(
        DefinitionCategory::Verb,
        vec![Definition { definition: Some("a meaning".to_string()), examples: vec![] }],
    );
    Word {
        text: word_id.to_string(),
        original_text: word_id.to_string(),
        translation: None,
        definitions: Some(definitions),
    }
}

/// Runs an enrichment in which a word succeeds exactly if its current text
/// is among `known`, and the operator replaces the text of every failed word
/// by the next of `corrections`, giving up on the rest once these run out.
/// Tells the order of all that happened.
fn run(words: Vec<Word>, cached: Vec<Word>, known: &[&str], corrections: &[&str]) -> Vec<String> {
    let mut log = Vec::new();
    let mut corrections = corrections.iter();
    let mut pipeline = Pipeline::start(words, cached, false);
    loop {
        match pipeline.next() {
            Next::Process(mut word) => {
                log.push(format!("process {}", word.text));
                if known.contains(&word.text.as_str()) {
                    word.translation = Some("translated".to_string());
                    pipeline.succeeded(word);
                } else {
                    pipeline.failed(word);
                }
            }
            Next::Wait => panic!("nothing was being tried"),
            Next::Redact(failed) => {
                log.push(format!("redact {}", keys(&failed).join(",")));
                let mut retry = Vec::new();
                for mut word in failed {
                    if let Some(correction) = corrections.next() {
                        word.redact(correction.to_string());
                        retry.push(word);
                    }
                }
                pipeline.retry(retry);
            }
            Next::Finished(output) => {
                log.push(format!("finished {}", keys(&output).join(",")));
                return log;
            }
        }
    }
}

#[test]
fn words_are_processed_in_order_and_kept() {
    let log = run(fresh(&["a", "b", "c"]), vec![], &["a", "b", "c"], &[]);
    assert_eq!(log, vec!["process a", "process b", "process c", "finished a,b,c"]);
}

#[test]
fn no_words_finish_at_once() {
    let log = run(vec![], vec![], &[], &[]);
    assert_eq!(log, vec!["finished "]);
}

#[test]
fn failures_are_gathered_until_the_round_is_over() {
    let log = run(fresh(&["a", "bx", "c", "dx"]), vec![], &["a", "b", "c", "d"], &["b", "d"]);
    assert_eq!(
        log,
        vec![
            "process a",
            "process bx",
            "process c",
            "process dx",
            "redact bx,dx",
            "process b",
            "process d",
            "finished a,c,bx,dx",
        ]
    );
}

#[test]
fn rounds_go_on_while_corrections_fail() {
    let log = run(fresh(&["ax"]), vec![], &["a"], &["ay", "a"]);
    assert_eq!(
        log,
        vec!["process ax", "redact ax", "process ay", "redact ax", "process a", "finished ax"]
    );
}

#[test]
fn an_operator_who_hands_nothing_back_ends_the_enrichment() {
    let log = run(fresh(&["a", "bx"]), vec![], &["a"], &[]);
    assert_eq!(log, vec!["process a", "process bx", "redact bx", "finished a"]);
}

#[test]
fn cached_words_come_first_and_are_not_processed() {
    let mut cached = Word::from_text("b");
    cached.translation = Some("known".to_string());
    let log = run(fresh(&["a", "b", "c"]), vec![cached], &["a", "c"], &[]);
    assert_eq!(log, vec!["process a", "process c", "finished b,a,c"]);
}

#[test]
fn the_operator_is_not_asked_while_a_word_is_being_tried() {
    let mut pipeline = Pipeline::start(fresh(&["a", "b"]), vec![], false);
    let first = match pipeline.next() {
        Next::Process(word) => word,
        _ => panic!("no word was handed out"),
    };
    let second = match pipeline.next() {
        Next::Process(word) => word,
        _ => panic!("no word was handed out"),
    };
    assert_eq!(first.text, "a");
    assert_eq!(second.text, "b");
    assert!(matches!(pipeline.next(), Next::Wait));
    pipeline.failed(second);
    assert!(matches!(pipeline.next(), Next::Wait));
    pipeline.succeeded(first);
    match pipeline.next() {
        Next::Redact(failed) => assert_eq!(keys(&failed), vec!["b"]),
        _ => panic!("the operator was not asked"),
    }
    match pipeline.next() {
        Next::Finished(output) => assert_eq!(keys(&output), vec!["a"]),
        _ => panic!("the enrichment went on"),
    }
}

#[test]
fn retried_words_join_the_queue() {
    let mut pipeline = Pipeline::start(fresh(&["a"]), vec![], false);
    pipeline.retry(fresh(&["b", "c"]));
    let mut order = Vec::new();
    loop {
        match pipeline.next() {
            Next::Process(word) => {
                order.push(word.text.clone());
                pipeline.succeeded(word);
            }
            Next::Finished(output) => {
                assert_eq!(keys(&output), vec!["a", "b", "c"]);
                break;
            }
            _ => panic!("nothing failed and nothing was being tried"),
        }
    }
    assert_eq!(order, vec!["a", "b", "c"]);
}

#[test]
fn retried_words_start_over() {
    let mut pipeline = Pipeline::start(vec![], vec![], false);
    let mut word = defined("gone");
    word.translation = Some("ушёл".to_string());
    word.original_text = "went".to_string();
    pipeline.retry(vec![word]);
    match pipeline.next() {
        Next::Process(word) => {
            assert_eq!(word.text, "gone");
            assert_eq!(word.original_text, "went");
            assert_eq!(word.translation, None);
            assert!(word.definitions.is_none());
        }
        _ => panic!("the word was not retried"),
    }
}

#[test]
fn process_failures_read_as_text() {
    assert_eq!(
        ProcessError::Translation(TranslateError::NoTranslation).message(),
        "No translation"
    );
    assert_eq!(
        ProcessError::Definitions(OxfordClientError::NoStem).message(),
        "No inflections found"
    );
    assert_eq!(
        ProcessError::Both(
            TranslateError::Transport(FetchError::Connection),
            OxfordClientError::NoEntries
        )
        .message(),
        "Failed to send the request\nEntries results array is empty"
    );
}

#[test]
fn word_stem_falls_back_to_the_text() {
    assert_eq!(word_stem("running", Ok("run".to_string())), "run");
    assert_eq!(word_stem("running", Err(OxfordClientError::NoStem)), "running");
    assert_eq!(
        word_stem("running", Err(OxfordClientError::Transport(FetchError::Connection))),
        "running"
    );
}

#[test]
fn process_word_needs_translation_and_definitions() {
    let mut word = Word::from_text("ran");
    word.text = "rann".to_string();
    let done = process_word(&mut word, Ok("бежать".to_string()), Ok(defined("run")));
    assert_eq!(done, Ok(()));
    assert_eq!(word.text, "run");
    assert_eq!(word.original_text, "ran");
    assert_eq!(word.translation.as_deref(), Some("бежать"));
    assert_eq!(
        word.definitions.expect("definitions").get(DefinitionCategory::Verb),
        Some(&vec![Definition { definition: Some("a meaning".to_string()), examples: vec![] }])
    );
}

#[test]
fn process_word_leaves_a_failed_word_as_it_was() {
    let mut word = Word::from_text("ran");
    let done = process_word(&mut word, Err(TranslateError::NoTranslation), Ok(defined("run")));
    assert_eq!(done, Err(ProcessError::Translation(TranslateError::NoTranslation)));
    assert_eq!(word.text, "ran");
    assert_eq!(word.translation, None);
    assert!(word.definitions.is_none());

    let done = process_word(&mut word, Ok("бежать".to_string()), Err(OxfordClientError::NoLeads));
    assert_eq!(done, Err(ProcessError::Definitions(OxfordClientError::NoLeads)));
    assert_eq!(word.text, "ran");
    assert_eq!(word.translation, None);

    let done = process_word(
        &mut word,
        Err(TranslateError::Transport(FetchError::Status(403))),
        Err(OxfordClientError::NoEntries),
    );
    assert_eq!(
        done,
        Err(ProcessError::Both(
            TranslateError::Transport(FetchError::Status(403)),
            OxfordClientError::NoEntries
        ))
    );
    assert_eq!(word.text, "ran");
}
