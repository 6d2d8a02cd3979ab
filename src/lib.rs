//! Derives, from monitoring rule definitions, every time-series selector the
//! rules depend on, and synthesizes one deduplicated "data is missing" alert
//! per unique selector.
pub mod duration;
pub mod grouping;
pub mod ignore;
pub mod naming;
pub mod parse;
pub mod rules;
pub mod selector;
pub mod text;
