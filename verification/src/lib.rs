//! A viewer model for JSON-like documents that is driven by vi-style key
//! sequences: a document tree with a tokenizing pretty-printer, a small
//! pattern language for key sequences, a modal input engine built on it, and
//! a cursor and viewport that turn token lines into highlighted spans.

pub mod app;
pub mod components;
pub mod event;
pub mod logger;
pub mod simple_matcher;
pub mod text;
pub mod utils;
pub mod value;
pub mod vi;
