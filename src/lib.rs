//! A markdown parsing engine: a grammar over characters that produces a tree
//! of matched productions, an index over a node's children by rule name, a
//! structural describer, and staged pipelines around them.

pub mod block;
pub mod chain;
pub mod describe;
pub mod engine;
pub mod failure;
pub mod fence;
pub mod grammar;
pub mod inline;
pub mod pipeline;
pub mod rule;
pub mod scan;
pub mod shape;
pub mod text;
pub mod tree;

pub use chain::RuleChain;
pub use describe::MAX_LEVEL;
pub use engine::{get_text, is_only_child, parse_or_panic, parse_rule, test_parse, ParsedContainer};
pub use grammar::{Markdown, ParseError};
pub use pipeline::{
    AbstractParser, Html, Init, Output, Parkdown, Parsed, Parser, ParserStage, StageError,
    TokenContainer,
};
pub use rule::Rule;
pub use text::pad;
pub use tree::Node;
