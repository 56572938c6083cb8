//! Chat statistics and text tools for a group-chat bot: command routing,
//! SQL report rendering, mention lists, word statistics, stemmer output
//! parsing, greeting generation and Markov-chain replies.

pub mod text;
pub mod error;
pub mod sql;
pub mod stem;
mod chance;
pub mod omedeto;
pub mod router;
pub mod report;
pub mod chatter;
pub mod files;
pub mod store;
