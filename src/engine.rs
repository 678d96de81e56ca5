//! The merge-and-rank engine over one accelerator result.
use vstd::prelude::*;
use crate::chunk::{entries_of, ChunkResult, Entry};
use crate::merge::{aggregate, all_known, lemma_map_of_len, merged, total_bytes, unique_titles};
use crate::rank::{
    lemma_ranking_unique, lemma_tier_sequence_prefix, other_end, rank, ranking, sorted_by_rank,
    split_tiers, tier_sequence, tiers_of, Tiers,
};
use crate::stats::{bandwidth_hundredths, bandwidth_of};

verus! {

/// Everything the accelerator hands back for one query.
pub struct AcceleratorResult {
    /// The partial result of each chunk, in chunk order.
    pub chunks: Vec<ChunkResult>,
    /// The accelerator's own count of word matches.
    pub num_word_matches: u32,
    /// The accelerator's own count of page matches.
    pub num_page_matches: u32,
    /// Elapsed time of the whole query, in microseconds.
    pub time_taken: u32,
}

/// The statistics reported with a query's ranking.
#[derive(PartialEq, Eq, Structural)]
pub struct QueryStats {
    /// Word matches, as the accelerator counted them.
    pub num_word_matches: u32,
    /// Page matches, as the accelerator counted them.
    pub num_page_matches: u32,
    /// Distinct titles in the merged mapping.
    pub num_result_records: usize,
    /// Bytes scanned over all chunks.
    pub input_size: u128,
    /// Elapsed time in whole milliseconds.
    pub time_taken_ms: u32,
    /// Throughput in hundredths of GB/s; none when no time elapsed.
    pub bandwidth_hundredths: Option<u128>,
}

/// A query's ranking with its statistics.
pub struct QueryAnswer {
    pub stats: QueryStats,
    pub tiers: Tiers,
}

/// The answer that the engine owes for an accelerator result.
pub open spec fn answers(a: QueryAnswer, result: AcceleratorResult, min_matches: u32) -> bool {
    let chunks = result.chunks@;
    let m = merged(chunks, min_matches);
    &&& exists|s: Seq<Entry>| ranking(m, s) && tiers_of(a.tiers, s, all_known(chunks))
    &&& a.stats.num_word_matches == result.num_word_matches
    &&& a.stats.num_page_matches == result.num_page_matches
    &&& a.stats.num_result_records == m.len()
    &&& a.stats.input_size == total_bytes(chunks)
    &&& a.stats.time_taken_ms == result.time_taken / 1000
    &&& (a.stats.bandwidth_hundredths is None <==> result.time_taken == 0)
    &&& (a.stats.bandwidth_hundredths matches Some(v) ==> v == bandwidth_of(
        total_bytes(chunks),
        result.time_taken as int,
    ))
}

/// Merges every chunk's partial result, ranks the merged mapping, splits it
/// into tiers and derives the statistics.
pub fn merge_and_rank(result: &AcceleratorResult, min_matches: u32) -> (a: QueryAnswer)
    ensures
        answers(a, *result, min_matches),
{
    let agg = aggregate(&result.chunks, min_matches);
    let sorted = rank(&agg.records);
    let tiers = split_tiers(&sorted, agg.all_known);
    proof {
        lemma_map_of_len(entries_of(agg.records@));
    }
    let stats = QueryStats {
        num_word_matches: result.num_word_matches,
        num_page_matches: result.num_page_matches,
        num_result_records: agg.records.len(),
        input_size: agg.input_size,
        time_taken_ms: result.time_taken / 1000,
        bandwidth_hundredths: bandwidth_hundredths(agg.input_size, result.time_taken),
    };
    let a = QueryAnswer { stats, tiers };
    assert(ranking(merged(result.chunks@, min_matches), entries_of(sorted@))
        && tiers_of(a.tiers, entries_of(sorted@), agg.all_known));
    a
}

/// Each title of the merged mapping appears once in its ranking, and the
/// reported result-record count is the number of distinct titles.
pub proof fn lemma_record_count(result: AcceleratorResult, min_matches: u32, a: QueryAnswer)
    requires
        answers(a, result, min_matches),
    ensures
        exists|s: Seq<Entry>|
            ranking(merged(result.chunks@, min_matches), s) && unique_titles(s) && s.len()
                == a.stats.num_result_records,
{
    let m = merged(result.chunks@, min_matches);
    let s = choose|s: Seq<Entry>| ranking(m, s) && tiers_of(a.tiers, s, all_known(result.chunks@));
    lemma_map_of_len(s);
}

/// When some chunk found more matches than it reported, no top-ten tier is
/// given, however many records there are.
pub proof fn lemma_truncation_hides_top_ten(
    result: AcceleratorResult,
    min_matches: u32,
    a: QueryAnswer,
    i: int,
)
    requires
        answers(a, result, min_matches),
        0 <= i < result.chunks@.len(),
        result.chunks@[i].num_page_matches > result.chunks@[i].num_page_match_records,
    ensures
        a.tiers.top_ten@.len() == 0,
{
    let m = merged(result.chunks@, min_matches);
    assert(!all_known(result.chunks@));
    let s = choose|s: Seq<Entry>| ranking(m, s) && tiers_of(a.tiers, s, all_known(result.chunks@));
    assert(entries_of(a.tiers.top_ten@).len() == 0);
}

/// When every chunk reported all its matches and there are at least ten
/// records, the top-ten tier holds nine, and with the top record they are
/// exactly the first ten of the ranking.
pub proof fn lemma_complete_top_ten(result: AcceleratorResult, min_matches: u32, a: QueryAnswer)
    requires
        answers(a, result, min_matches),
        all_known(result.chunks@),
        merged(result.chunks@, min_matches).len() >= 10,
    ensures
        a.tiers.top_ten@.len() == 9,
        exists|s: Seq<Entry>|
            ranking(merged(result.chunks@, min_matches), s) && (a.tiers.top matches Some(t)
                && seq![t@] + entries_of(a.tiers.top_ten@) == s.subrange(0, 10)),
{
    let m = merged(result.chunks@, min_matches);
    let s = choose|s: Seq<Entry>| ranking(m, s) && tiers_of(a.tiers, s, all_known(result.chunks@));
    lemma_map_of_len(s);
    assert(entries_of(a.tiers.top_ten@).len() == 9);
    let t = a.tiers.top->Some_0;
    assert(seq![t@] + entries_of(a.tiers.top_ten@) =~= s.subrange(0, 10));
}

/// Answering the same accelerator result twice gives the same tiers and
/// statistics.
pub proof fn lemma_answer_deterministic(
    result: AcceleratorResult,
    min_matches: u32,
    a1: QueryAnswer,
    a2: QueryAnswer,
)
    requires
        answers(a1, result, min_matches),
        answers(a2, result, min_matches),
    ensures
        a1.tiers.top.is_some() == a2.tiers.top.is_some(),
        a1.tiers.top matches Some(t1) ==> (a2.tiers.top matches Some(t2) && t1@ == t2@),
        entries_of(a1.tiers.top_ten@) == entries_of(a2.tiers.top_ten@),
        entries_of(a1.tiers.other@) == entries_of(a2.tiers.other@),
        a1.stats == a2.stats,
{
    let m = merged(result.chunks@, min_matches);
    let k = all_known(result.chunks@);
    let s1 = choose|s: Seq<Entry>| ranking(m, s) && tiers_of(a1.tiers, s, k);
    let s2 = choose|s: Seq<Entry>| ranking(m, s) && tiers_of(a2.tiers, s, k);
    lemma_ranking_unique(m, s1, s2);
}

/// The answer's tiers, one after the other, are the first entries of the
/// ranking of the merged mapping: strictly ordered by count descending and
/// title ascending, with no title twice.
pub proof fn lemma_tiers_in_rank_order(result: AcceleratorResult, min_matches: u32, a: QueryAnswer)
    requires
        answers(a, result, min_matches),
    ensures
        exists|s: Seq<Entry>|
            ranking(merged(result.chunks@, min_matches), s) && tier_sequence(a.tiers) == s.subrange(
                0,
                other_end(s.len() as int, all_known(result.chunks@)),
            ),
        sorted_by_rank(tier_sequence(a.tiers)),
        unique_titles(tier_sequence(a.tiers)),
{
    let m = merged(result.chunks@, min_matches);
    let s = choose|s: Seq<Entry>| ranking(m, s) && tiers_of(a.tiers, s, all_known(result.chunks@));
    lemma_tier_sequence_prefix(a.tiers, s, all_known(result.chunks@));
}

} // verus!
