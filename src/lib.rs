//! A completion engine for text editors: open buffers, cursor prefixes,
//! word search across buffers, snippets, unicode input, paths and citations.

pub mod backend;
pub mod citations;
pub mod completion;
pub mod error;
pub mod matching;
pub mod paths;
pub mod prefix;
pub mod reader;
pub mod search;
pub mod settings;
pub mod snippets;
pub mod strings;
pub mod text;
