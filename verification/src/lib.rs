//! Vocabulary enrichment: turns raw reading highlights into words with
//! dictionary definitions and a translation, ready to be exported as
//! flashcards.
//!
//! Everything that decides or computes lives here and is verified; network
//! traffic, files and prompts belong to the program around this library, which
//! feeds the state machines of `fetch`, `resolver` and `pipeline` with what it
//! observed and performs the actions they answer with.

pub mod auth;
pub mod book;
pub mod cache;
pub mod definitions;
pub mod dictionary;
pub mod error;
pub mod export;
pub mod fetch;
pub mod highlights;
pub mod lookup;
pub mod model;
pub mod pipeline;
pub mod resolver;
pub mod text;
pub mod translate;
pub mod word;
