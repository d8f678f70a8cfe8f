//! Usage accounting for pi-agent session logs: record selection, session-row
//! limiting, path and identity helpers, with their contracts proved.
#![allow(unused_imports)]

pub mod entry;
pub mod jsonl;
pub mod order;
pub mod paths;
pub mod pi;
pub mod pricing;
pub mod session;
pub mod text;
pub mod timestamp;
