//! A terminal typing test: test configuration, scoring, text generation,
//! key handling and line layout.

pub mod app;
pub mod cli;
pub mod clock;
pub mod code;
pub mod corpus;
pub mod event_loop;
pub mod rng;
pub mod syntax;
pub mod text;
pub mod ui;
pub mod words;
