//! Rule-based compliance gate over a small knowledge base of regulatory
//! text chunks.
//!
//! The engine holds an immutable, validated store of chunks, ranks them
//! against a query by similarity, and turns the top-ranked article
//! references into one of three decisions — allow, deny, or warning —
//! with a reason and a fresh audit identifier. Similarity scores enter
//! the library in an order-preserving integer form (see
//! [`similarity::Similarity`]); computing them from raw embedding
//! vectors is the caller's business, and once computed, ranking,
//! thresholding, fall-back and the decision rules are all verified here.

pub mod engine;
pub mod policy;
pub mod search;
pub mod similarity;
pub mod text;

pub use engine::{
    decision_from_results, ChunkMetadata, ComplianceChunk, ComplianceEngine, EngineError,
    EvaluateResponse, SearchResult,
};
pub use policy::{is_article_5, is_high_risk, parse_decision, Decision};
pub use similarity::{Similarity, MIN_SIMILARITY_KEY, TOP_K};
