//! Evaluation of document/word retrieval quality: a line-oriented record
//! parser for ground-truth and result files, and a retrieval metrics engine
//! (precision at a cutoff, average precision, cross-query means).
//!
//! Scores are exact scaled integers: a score of `SCORE_SCALE` means 1.0.

pub mod block_parser;
pub mod markers;
pub mod metrics;
pub mod numerals;
pub mod record_line;
pub mod rectangles;
pub mod serialize;
pub mod tokens;

pub use block_parser::FileType;
pub use block_parser::ParsingState;
pub use metrics::QueryScores;
pub use metrics::RetrievalData;
pub use rectangles::Point;
pub use rectangles::Rectangle;
pub use tokens::Relevance;
pub use tokens::RelevantToken;
pub use tokens::TokenId;
