//! Extraction of dialogue and structured tables from a NUL-delimited
//! script-archive byte stream: tokenizing, block assembly, payload
//! classification, speaker reconciliation and name translation.

pub mod block;
pub mod classify;
pub mod parse;
pub mod reconcile;
pub mod render;
pub mod translate;
pub mod text;
