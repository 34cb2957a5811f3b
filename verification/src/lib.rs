//! A word-streaming pipeline: words are split out of a text, published one
//! message at a time, persisted by a subscriber that acknowledges only what it
//! has stored, and read back page by page through an id cursor.

pub mod cli;
pub mod common;
pub mod decimal;
pub mod gateway;
pub mod publisher;
pub mod render;
pub mod store;
pub mod subscriber;
pub mod text;

pub use common::{log_effective_config, persist_word_mock, AppConfig};
pub use store::{insert_word, list_words_page, Word, WordTable};
pub use text::split_words;
