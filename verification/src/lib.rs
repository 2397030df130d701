//! Core library of a Markdown-based task and note manager.
pub mod cache;
pub mod calendar;
pub mod clock;
pub mod edit;
pub mod editor;
pub mod entry;
pub mod entry_ref;
pub mod error;
pub mod filter;
pub mod id;
pub mod journal;
pub mod labels;
pub mod listing;
pub mod parser;
pub mod path;
pub mod show;
pub mod slug;
pub mod text;
pub mod time;
pub mod yaml_text;
