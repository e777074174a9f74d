//! The directive parser: a word-by-word state machine with exact source
//! offsets, its mathematical model, and its finalized form.

pub mod model;

pub use nodes::Node;
pub use state::FinalParserState;
pub use state::ParserState;

pub mod nodes;
pub mod state;
pub mod types;
