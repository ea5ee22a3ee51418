use anki_words_importer::definitions::Definitions;
use anki_words_importer::dictionary::{
    build_definition, build_definitions, map_lexical_entry, CommonTextEntry, EntriesEntry,
    EntriesLexicalEntry, EntriesResponse, EntriesResults, EntriesSense, MappingResult,
};
use anki_words_importer::error::OxfordClientError;
use anki_words_importer::lookup::{
    entries_outcome, lemmas, lemmas_path, EntriesOutcome, LemmasLexicalEntry, LemmasResponse,
    LemmasResults,
};
use anki_words_importer::model::{Definition, DefinitionCategory, DefinitionsEntry};
use anki_words_importer::resolver::process_entries;

fn text(value: &str) -> CommonTextEntry {
    CommonTextEntry { text: value.to_string() }
}

fn strings(values: &[&str]) -> Option<Vec<String>> {
    Some(values.iter().map(|value| value.to_string()).collect())
}

fn texts(values: &[&str]) -> Option<Vec<CommonTextEntry>> {
    Some(values.iter().map(|value| text(value)).collect())
}

fn empty_sense() -> EntriesSense {
    EntriesSense {
        definitions: None,
        examples: None,
        short_definitions: None,
        subsenses: None,
        cross_references: None,
    }
}

fn defined_sense(definition: &str) -> EntriesSense {
    EntriesSense { definitions: strings(&[definition]), ..empty_sense() }
}

fn referring_sense(references: &[&str]) -> EntriesSense {
    EntriesSense { cross_references: texts(references), ..empty_sense() }
}

fn lexical_entry(category: &str, senses: Vec<EntriesSense>) -> EntriesLexicalEntry {
    EntriesLexicalEntry {
        entries: vec![EntriesEntry { senses }],
        lexical_category: text(category),
        derivative_of: None,
    }
}

fn response(entries: Vec<EntriesLexicalEntry>) -> EntriesResponse {
    EntriesResponse { results: Some(vec![EntriesResults { lexical_entries: entries }]) }
}

fn definition(value: &str) -> Definition {
    Definition { definition: Some(value.to_string()), examples: vec![] }
}

#[test]
fn build_definition_prefers_the_short_definition() {
    let sense = EntriesSense {
        definitions: strings(&["a long account of the thing", "another"]),
        short_definitions: strings(&["the thing", "other"]),
        ..empty_sense()
    };
    assert_eq!(build_definition(sense), MappingResult::Result(definition("the thing")));
}

#[test]
fn build_definition_falls_back_to_the_long_definition() {
    let sense = EntriesSense {
        definitions: strings(&["a long account of the thing"]),
        short_definitions: strings(&[]),
        ..empty_sense()
    };
    assert_eq!(
        build_definition(sense),
        MappingResult::Result(definition("a long account of the thing"))
    );
}

#[test]
fn build_definition_keeps_examples_in_order() {
    let sense = EntriesSense {
        definitions: strings(&["meaning"]),
        examples: texts(&["first use", "second use", "third use"]),
        ..empty_sense()
    };
    assert_eq!(
        build_definition(sense),
        MappingResult::Result(Definition {
            definition: Some("meaning".to_string()),
            examples: vec![
                "first use".to_string(),
                "second use".to_string(),
                "third use".to_string()
            ],
        })
    );
}

#[test]
fn build_definition_without_text_gives_lowercased_leads() {
    let sense = referring_sense(&["See Also", "OTHER"]);
    assert_eq!(
        build_definition(sense),
        MappingResult::OtherSources(vec!["see also".to_string(), "other".to_string()])
    );
}

#[test]
fn build_definition_with_text_ignores_references() {
    let sense = EntriesSense {
        short_definitions: strings(&["meaning"]),
        cross_references: texts(&["elsewhere"]),
        ..empty_sense()
    };
    assert_eq!(build_definition(sense), MappingResult::Result(definition("meaning")));
}

#[test]
fn build_definition_without_text_or_references_gives_a_blank_definition() {
    let sense = EntriesSense { examples: texts(&["a use"]), ..empty_sense() };
    assert_eq!(
        build_definition(sense),
        MappingResult::Result(Definition { definition: None, examples: vec!["a use".to_string()] })
    );
}

#[test]
fn build_definitions_puts_the_sense_before_its_subsenses() {
    let sense = EntriesSense {
        definitions: strings(&["main"]),
        subsenses: Some(vec![defined_sense("first sub"), referring_sense(&["Lead"])]),
        ..empty_sense()
    };
    assert_eq!(
        build_definitions(sense),
        vec![
            MappingResult::Result(definition("main")),
            MappingResult::Result(definition("first sub")),
            MappingResult::OtherSources(vec!["lead".to_string()]),
        ]
    );
}

#[test]
fn build_definitions_reads_only_one_level_of_subsenses() {
    let nested =
        EntriesSense { subsenses: Some(vec![defined_sense("too deep")]), ..defined_sense("sub") };
    let sense = EntriesSense { subsenses: Some(vec![nested]), ..defined_sense("main") };
    assert_eq!(
        build_definitions(sense),
        vec![
            MappingResult::Result(definition("main")),
            MappingResult::Result(definition("sub")),
        ]
    );
}

#[test]
fn map_lexical_entry_fails_on_an_unknown_category() {
    let entry = lexical_entry("Symbol", vec![defined_sense("meaning")]);
    assert_eq!(
        map_lexical_entry(entry),
        Err(OxfordClientError::UnknownCategory("symbol".to_string()))
    );
}

#[test]
fn map_lexical_entry_trims_and_lowercases_the_category() {
    let entry = lexical_entry("  Noun \n", vec![defined_sense("meaning")]);
    assert_eq!(
        map_lexical_entry(entry),
        Ok(MappingResult::Result(DefinitionsEntry {
            definitions: vec![definition("meaning")],
            category: DefinitionCategory::Noun,
        }))
    );
}

#[test]
fn map_lexical_entry_gathers_definitions_across_entries_and_senses() {
    let entry = EntriesLexicalEntry {
        entries: vec![
            EntriesEntry {
                senses: vec![
                    EntriesSense {
                        subsenses: Some(vec![defined_sense("b")]),
                        ..defined_sense("a")
                    },
                    defined_sense("c"),
                ],
            },
            EntriesEntry { senses: vec![defined_sense("d")] },
        ],
        lexical_category: text("verb"),
        derivative_of: None,
    };
    assert_eq!(
        map_lexical_entry(entry),
        Ok(MappingResult::Result(DefinitionsEntry {
            definitions: vec![definition("a"), definition("b"), definition("c"), definition("d")],
            category: DefinitionCategory::Verb,
        }))
    );
}

#[test]
fn map_lexical_entry_drops_definitions_without_text() {
    let entry = lexical_entry(
        "adjective",
        vec![
            EntriesSense { examples: texts(&["a use"]), ..empty_sense() },
            defined_sense("meaning"),
        ],
    );
    assert_eq!(
        map_lexical_entry(entry),
        Ok(MappingResult::Result(DefinitionsEntry {
            definitions: vec![definition("meaning")],
            category: DefinitionCategory::Adjective,
        }))
    );
}

#[test]
fn map_lexical_entry_with_definitions_leaves_leads_aside() {
    let entry =
        lexical_entry("noun", vec![referring_sense(&["elsewhere"]), defined_sense("meaning")]);
    assert_eq!(
        map_lexical_entry(entry),
        Ok(MappingResult::Result(DefinitionsEntry {
            definitions: vec![definition("meaning")],
            category: DefinitionCategory::Noun,
        }))
    );
}

#[test]
fn map_lexical_entry_gives_references_then_derivatives() {
    let entry = EntriesLexicalEntry {
        entries: vec![EntriesEntry {
            senses: vec![referring_sense(&["First", "second"]), referring_sense(&["third"])],
        }],
        lexical_category: text("noun"),
        derivative_of: texts(&["Root"]),
    };
    assert_eq!(
        map_lexical_entry(entry),
        Ok(MappingResult::OtherSources(vec![
            "first".to_string(),
            "second".to_string(),
            "third".to_string(),
            "Root".to_string(),
        ]))
    );
}

#[test]
fn map_lexical_entry_with_derivatives_alone_gives_them_as_leads() {
    let entry = EntriesLexicalEntry {
        entries: vec![],
        lexical_category: text("adverb"),
        derivative_of: texts(&["quick"]),
    };
    assert_eq!(map_lexical_entry(entry), Ok(MappingResult::OtherSources(vec!["quick".to_string()])));
}

#[test]
fn map_lexical_entry_without_definitions_or_leads_fails() {
    let entry = lexical_entry("noun", vec![empty_sense()]);
    assert_eq!(map_lexical_entry(entry), Err(OxfordClientError::NoLeads));
}

#[test]
fn entries_outcome_without_results_is_no_entries() {
    assert_eq!(
        entries_outcome(EntriesResponse { results: None }),
        EntriesOutcome::Failed(OxfordClientError::NoEntries)
    );
    assert_eq!(
        entries_outcome(EntriesResponse { results: Some(vec![]) }),
        EntriesOutcome::Failed(OxfordClientError::NoEntries)
    );
}

#[test]
fn entries_outcome_with_results_but_no_lexical_entries_has_no_leads() {
    assert_eq!(entries_outcome(response(vec![])), EntriesOutcome::Failed(OxfordClientError::NoLeads));
}

#[test]
fn entries_outcome_gathers_every_failure() {
    let outcome = entries_outcome(response(vec![
        lexical_entry("noun", vec![defined_sense("meaning")]),
        lexical_entry("particle", vec![defined_sense("meaning")]),
        lexical_entry("verb", vec![empty_sense()]),
    ]));
    assert_eq!(
        outcome,
        EntriesOutcome::Failed(OxfordClientError::CompositeError(vec![
            OxfordClientError::UnknownCategory("particle".to_string()),
            OxfordClientError::NoLeads,
        ]))
    );
}

#[test]
fn entries_outcome_prefers_definitions_to_leads() {
    let outcome = entries_outcome(response(vec![
        lexical_entry("noun", vec![referring_sense(&["elsewhere"])]),
        lexical_entry("verb", vec![defined_sense("to do")]),
    ]));
    assert_eq!(
        outcome,
        EntriesOutcome::Resolved(vec![DefinitionsEntry {
            definitions: vec![definition("to do")],
            category: DefinitionCategory::Verb,
        }])
    );
}

#[test]
fn entries_outcome_reads_all_results() {
    let outcome = entries_outcome(EntriesResponse {
        results: Some(vec![
            EntriesResults {
                lexical_entries: vec![lexical_entry("noun", vec![defined_sense("a thing")])],
            },
            EntriesResults {
                lexical_entries: vec![lexical_entry("verb", vec![defined_sense("to do")])],
            },
        ]),
    });
    assert_eq!(
        outcome,
        EntriesOutcome::Resolved(vec![
            DefinitionsEntry {
                definitions: vec![definition("a thing")],
                category: DefinitionCategory::Noun,
            },
            DefinitionsEntry {
                definitions: vec![definition("to do")],
                category: DefinitionCategory::Verb,
            },
        ])
    );
}

#[test]
fn entries_outcome_follows_the_first_lead_only() {
    let outcome = entries_outcome(response(vec![
        lexical_entry("noun", vec![referring_sense(&["Foo", "bar"])]),
        lexical_entry("verb", vec![referring_sense(&["baz"])]),
    ]));
    assert_eq!(outcome, EntriesOutcome::Follow("foo".to_string()));
}

#[test]
fn category_merge() {
    let merged = Definitions::from_entries(vec![
        DefinitionsEntry { definitions: vec![definition("a")], category: DefinitionCategory::Noun },
        DefinitionsEntry { definitions: vec![definition("b")], category: DefinitionCategory::Noun },
    ]);
    assert_eq!(
        merged.get(DefinitionCategory::Noun),
        Some(&vec![definition("a"), definition("b")])
    );
    assert_eq!(merged.entries().len(), 1);
}

#[test]
fn merge_keeps_categories_apart_and_duplicates_in() {
    let merged = Definitions::from_entries(vec![
        DefinitionsEntry { definitions: vec![definition("a")], category: DefinitionCategory::Noun },
        DefinitionsEntry { definitions: vec![definition("x")], category: DefinitionCategory::Verb },
        DefinitionsEntry {
            definitions: vec![definition("a"), definition("c")],
            category: DefinitionCategory::Noun,
        },
    ]);
    assert_eq!(
        merged.get(DefinitionCategory::Noun),
        Some(&vec![definition("a"), definition("a"), definition("c")])
    );
    assert_eq!(merged.get(DefinitionCategory::Verb), Some(&vec![definition("x")]));
    assert_eq!(merged.get(DefinitionCategory::Adverb), None);
    assert!(!merged.is_empty());
    let entries = merged.into_entries();
    assert_eq!(entries.len(), 2);
    assert_eq!(entries[0].category, DefinitionCategory::Noun);
    assert_eq!(entries[1].category, DefinitionCategory::Verb);
}

#[test]
fn append_files_after_what_is_there() {
    let mut definitions = Definitions::new();
    assert!(definitions.is_empty());
    definitions.append(DefinitionCategory::Idiomatic, vec![definition("a")]);
    definitions.append(DefinitionCategory::Idiomatic, vec![]);
    definitions.append(DefinitionCategory::Idiomatic, vec![definition("b")]);
    assert_eq!(
        definitions.get(DefinitionCategory::Idiomatic),
        Some(&vec![definition("a"), definition("b")])
    );
    let copy = definitions.clone();
    assert_eq!(copy.get(DefinitionCategory::Idiomatic), definitions.get(DefinitionCategory::Idiomatic));
}

#[test]
fn process_entries_makes_an_untranslated_word() {
    let word = process_entries((
        "run".to_string(),
        vec![
            DefinitionsEntry {
                definitions: vec![definition("to move fast")],
                category: DefinitionCategory::Verb,
            },
            DefinitionsEntry {
                definitions: vec![definition("an act of running")],
                category: DefinitionCategory::Noun,
            },
            DefinitionsEntry {
                definitions: vec![definition("to manage")],
                category: DefinitionCategory::Verb,
            },
        ],
    ));
    assert_eq!(word.text, "run");
    assert_eq!(word.original_text, "run");
    assert_eq!(word.translation, None);
    let definitions = word.definitions.expect("definitions");
    assert_eq!(
        definitions.get(DefinitionCategory::Verb),
        Some(&vec![definition("to move fast"), definition("to manage")])
    );
    assert_eq!(
        definitions.get(DefinitionCategory::Noun),
        Some(&vec![definition("an act of running")])
    );
}

fn lemma_response(groups: &[&[&str]]) -> LemmasResponse {
    LemmasResponse {
        results: Some(vec![LemmasResults {
            lexical_entries: groups
                .iter()
                .map(|group| LemmasLexicalEntry {
                    inflection_of: group.iter().map(|value| text(value)).collect(),
                    lexical_category: text("Verb"),
                })
                .collect(),
        }]),
    }
}

#[test]
fn lemma_lookups_are_asked_under_the_word() {
    assert_eq!(lemmas_path("running"), "/lemmas/en/running");
}

#[test]
fn lemmas_takes_the_only_headword() {
    assert_eq!(lemmas("running", lemma_response(&[&["run"]])), Ok("run".to_string()));
}

#[test]
fn lemmas_counts_repeated_headwords_once() {
    assert_eq!(
        lemmas("saw", lemma_response(&[&["see"], &["see", "see"]])),
        Ok("see".to_string())
    );
}

#[test]
fn lemmas_prefers_the_word_itself_among_several() {
    assert_eq!(
        lemmas("saw", lemma_response(&[&["see"], &["saw"], &["sew"]])),
        Ok("saw".to_string())
    );
}

#[test]
fn lemmas_takes_the_first_of_several_otherwise() {
    assert_eq!(
        lemmas("leaves", lemma_response(&[&["leaf", "leave"], &["leaf"]])),
        Ok("leaf".to_string())
    );
}

#[test]
fn lemmas_reads_every_result() {
    let response = LemmasResponse {
        results: Some(vec![
            LemmasResults { lexical_entries: vec![] },
            LemmasResults {
                lexical_entries: vec![LemmasLexicalEntry {
                    inflection_of: vec![text("go")],
                    lexical_category: text("Verb"),
                }],
            },
        ]),
    };
    assert_eq!(lemmas("went", response), Ok("go".to_string()));
}

#[test]
fn lemmas_without_headwords_is_no_stem() {
    assert_eq!(lemmas("xyzzy", lemma_response(&[])), Err(OxfordClientError::NoStem));
    assert_eq!(lemmas("xyzzy", lemma_response(&[&[]])), Err(OxfordClientError::NoStem));
    assert_eq!(lemmas("xyzzy", LemmasResponse { results: None }), Err(OxfordClientError::NoStem));
}
