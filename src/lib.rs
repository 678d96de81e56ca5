//! Merge-and-rank engine for a chunked pattern-matching accelerator.
//!
//! The accelerator scans a partitioned corpus and hands back, per chunk, a
//! best match and a capped list of further matches. This library decodes those
//! partial results, folds them into one title-keyed mapping, ranks the mapping
//! and splits it into tiers, and derives the query statistics.
pub mod cache;
pub mod chunk;
pub mod engine;
pub mod merge;
pub mod query;
pub mod rank;
pub mod stats;
pub mod title;

pub use cache::{cache_key, record_to_cache, FetchOutcome, ImageRecord};
pub use chunk::{copy_bytes, decode_list, parse_chunk, ChunkResult, DecodeError, ParsedChunk, Record};
pub use engine::{merge_and_rank, AcceleratorResult, QueryAnswer, QueryStats};
pub use merge::{aggregate, write_record, Aggregate};
pub use query::{
    answer_query, complete_query, run_config, CompletedQueryParameters, QueryError, QueryParameters,
    QueryResult, RunConfig,
};
pub use rank::{rank, rank_lt, split_tiers, Tiers};
pub use stats::{bandwidth_hundredths, bandwidth_text, decimal_bytes};
pub use title::{title_lt, titles_equal};
