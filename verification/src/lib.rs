//! Exchange-rate extraction for a Terra block feed: the data model of the feed,
//! the rule that turns a block into a table of exchange rates, and the small
//! decisions that drive the streaming loop around it.

pub mod types;
pub mod rate_table;
pub mod matching;
pub mod decimal;
pub mod data_processor;
pub mod config;
pub mod stream_control;
