//! Validation of a morphological lookup tool against expected input/output
//! mappings: the line protocol spoken with the tool, the sharding of query
//! batches over a pool of workers, and the verdicts drawn from the results.
//!
//! - `codec`: queries in, tab-separated result lines out, grouped per query.
//! - `reader`: when a pooled worker stops reading the answer to a chunk.
//! - `dispatch`: chunking a batch by pool capacity, and fail-fast reassembly.
//! - `pool`: pool size and which idle worker may be handed out again.
//! - `backend`: the one-shot backend's configuration and finished runs.
//! - `engine`: running suites through a backend and judging each case.
//! - `report`: counting single expectations, and report blocks.
//! - `config`, `yaml`, `lexc`: test files and the cases they define.
//! - `i18n`, `locale`: messages and the choice of their locale.
//! - `select`: picking test blocks from a command-line selector.
//! - `text`, `index`, `group`: strings, ordered maps and grouping by key.
pub mod backend;
pub mod codec;
pub mod config;
pub mod dispatch;
pub mod engine;
pub mod group;
pub mod i18n;
pub mod index;
pub mod lexc;
pub mod locale;
pub mod pool;
pub mod reader;
pub mod report;
pub mod select;
pub mod text;
pub mod types;
pub mod yaml;
