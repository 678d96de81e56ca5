use word_match_server::{
    aggregate, answer_query, bandwidth_hundredths, bandwidth_text, decimal_bytes, complete_query, merge_and_rank, parse_chunk,
    rank, split_tiers, title_lt, AcceleratorResult, ChunkResult, CompletedQueryParameters,
    QueryError, QueryParameters, Record,
};

fn chunk(best: (&str, u32), list: &[(&str, u32)], actual: u32, data_size: u64) -> ChunkResult {
    let mut title_values = Vec::new();
    let mut title_offsets = vec![0u64];
    let mut match_counts = Vec::new();
    for (t, c) in list {
        title_values.extend_from_slice(t.as_bytes());
        title_offsets.push(title_values.len() as u64);
        match_counts.push(*c);
    }
    ChunkResult {
        data_size,
        max_page_title: best.0.as_bytes().to_vec(),
        max_word_matches: best.1,
        title_values,
        title_offsets,
        match_counts,
        num_page_match_records: list.len() as u32,
        num_page_matches: actual,
    }
}

fn result(chunks: Vec<ChunkResult>, time_taken: u32) -> AcceleratorResult {
    AcceleratorResult { chunks, num_word_matches: 7, num_page_matches: 3, time_taken }
}

fn pairs(rs: &[Record]) -> Vec<(String, u32)> {
    rs.iter().map(|r| (String::from_utf8(r.title.clone()).unwrap(), r.count)).collect()
}

fn pair(r: &Record) -> (String, u32) {
    (String::from_utf8(r.title.clone()).unwrap(), r.count)
}

fn owned(v: &[(&str, u32)]) -> Vec<(String, u32)> {
    v.iter().map(|(t, c)| (t.to_string(), *c)).collect()
}

fn completed(min_matches: u32) -> CompletedQueryParameters {
    CompletedQueryParameters {
        pattern: "rust".to_string(),
        whole_words: false,
        min_matches,
        mode: 0,
        wiki: "en".to_string(),
    }
}

#[test]
fn two_chunks_merge_and_rank() {
    let a = chunk(("Page1", 50), &[("Page1", 50), ("Page2", 10)], 2, 100);
    let b = chunk(("Page3", 30), &[("Page3", 30)], 1, 200);
    let ans = merge_and_rank(&result(vec![a, b], 1000), 1);
    assert_eq!(pair(ans.tiers.top.as_ref().unwrap()), ("Page1".to_string(), 50));
    assert_eq!(pairs(&ans.tiers.top_ten), owned(&[("Page3", 30), ("Page2", 10)]));
    assert!(ans.tiers.other.is_empty());
    assert_eq!(ans.stats.num_result_records, 3);
    assert_eq!(ans.stats.input_size, 300);
    assert_eq!(ans.stats.num_word_matches, 7);
    assert_eq!(ans.stats.num_page_matches, 3);
    assert_eq!(ans.stats.time_taken_ms, 1);
}

#[test]
fn truncated_chunk_hides_top_ten() {
    let list = [("A", 5), ("B", 4), ("C", 3), ("D", 2), ("E", 1)];
    let c = chunk(("A", 5), &list, 20, 10);
    let ans = merge_and_rank(&result(vec![c], 10), 1);
    assert_eq!(pair(ans.tiers.top.as_ref().unwrap()), ("A".to_string(), 5));
    assert!(ans.tiers.top_ten.is_empty());
    assert_eq!(pairs(&ans.tiers.other), owned(&[("B", 4), ("C", 3), ("D", 2), ("E", 1)]));
}

#[test]
fn accelerator_without_result_fails_request() {
    let r = answer_query(completed(1), None, "device lost".to_string());
    match r {
        Err(QueryError::AcceleratorUnavailable(msg)) => assert_eq!(msg, "device lost"),
        _ => panic!("expected the accelerator to be reported unavailable"),
    }
}

#[test]
fn accelerator_with_result_answers() {
    let c = chunk(("X", 3), &[("X", 3)], 1, 10);
    let r = answer_query(completed(1), Some(result(vec![c], 10)), String::new());
    let qr = r.ok().expect("an answer");
    assert_eq!(qr.query.wiki, "en");
    assert_eq!(pair(qr.answer.tiers.top.as_ref().unwrap()), ("X".to_string(), 3));
}

#[test]
fn later_write_replaces_larger_count() {
    let a = chunk(("Same", 90), &[], 0, 1);
    let b = chunk(("Other", 5), &[("Same", 2)], 1, 1);
    let agg = aggregate(&vec![a, b], 1);
    let sorted = rank(&agg.records);
    assert_eq!(pairs(&sorted), owned(&[("Other", 5), ("Same", 2)]));
}

#[test]
fn best_match_below_threshold_is_left_out() {
    let c = chunk(("Best", 2), &[("Listed", 1)], 1, 1);
    let p = parse_chunk(&c, 3);
    assert!(p.best.is_none());
    assert_eq!(pairs(&p.records), owned(&[("Listed", 1)]));
    let ans = merge_and_rank(&result(vec![c], 10), 3);
    assert_eq!(ans.stats.num_result_records, 1);
}

#[test]
fn malformed_offsets_drop_list_and_mark_truncated() {
    let mut c = chunk(("Best", 4), &[("One", 3), ("Two", 2)], 2, 40);
    c.title_offsets = vec![0, 5, 3];
    let p = parse_chunk(&c, 1);
    assert!(p.decode_failed);
    assert!(p.truncated);
    assert!(p.records.is_empty());
    assert_eq!(p.data_size, 40);
    let ans = merge_and_rank(&result(vec![c], 10), 1);
    assert_eq!(ans.stats.input_size, 40);
    assert_eq!(ans.stats.num_result_records, 1);
    assert!(ans.tiers.top_ten.is_empty());
}

#[test]
fn offsets_past_buffer_are_rejected() {
    let mut c = chunk(("Best", 4), &[("One", 3)], 1, 1);
    c.title_offsets = vec![0, 99];
    assert!(parse_chunk(&c, 1).decode_failed);
    let mut d = chunk(("Best", 4), &[("One", 3)], 1, 1);
    d.title_offsets = vec![0, 3, 3];
    assert!(parse_chunk(&d, 1).decode_failed);
}

#[test]
fn equal_counts_sort_by_title() {
    let c = chunk(("b", 7), &[("ab", 7), ("a", 7), ("c", 9)], 3, 1);
    let agg = aggregate(&vec![c], 1);
    let sorted = rank(&agg.records);
    assert_eq!(pairs(&sorted), owned(&[("c", 9), ("a", 7), ("ab", 7), ("b", 7)]));
    let again = rank(&sorted);
    assert_eq!(pairs(&again), pairs(&sorted));
    assert!(title_lt(&b"a".to_vec(), &b"ab".to_vec()));
    assert!(!title_lt(&b"ab".to_vec(), &b"ab".to_vec()));
    assert!(!title_lt(&b"b".to_vec(), &b"ab".to_vec()));
}

#[test]
fn complete_ranking_gives_nine_in_top_ten() {
    let names: Vec<String> = (0..12).map(|i| format!("T{:02}", i)).collect();
    let list: Vec<(&str, u32)> = names.iter().enumerate().map(|(i, n)| (n.as_str(), 100 - i as u32)).collect();
    let c = chunk(("T00", 100), &list, 12, 1);
    let ans = merge_and_rank(&result(vec![c], 10), 1);
    assert_eq!(ans.stats.num_result_records, 12);
    assert_eq!(pair(ans.tiers.top.as_ref().unwrap()), ("T00".to_string(), 100));
    assert_eq!(ans.tiers.top_ten.len(), 9);
    assert_eq!(pair(&ans.tiers.top_ten[0]), ("T01".to_string(), 99));
    assert_eq!(pair(&ans.tiers.top_ten[8]), ("T09".to_string(), 91));
    assert_eq!(pairs(&ans.tiers.other), owned(&[("T10", 90), ("T11", 89)]));
}

#[test]
fn other_tier_holds_at_most_ninety() {
    let names: Vec<String> = (0..150).map(|i| format!("P{:03}", i)).collect();
    let list: Vec<(&str, u32)> = names.iter().map(|n| (n.as_str(), 1)).collect();
    let c = chunk(("P000", 1), &list, 150, 1);
    let agg = aggregate(&vec![c], 1);
    let sorted = rank(&agg.records);
    let t = split_tiers(&sorted, true);
    assert_eq!(t.top_ten.len(), 9);
    assert_eq!(t.other.len(), 90);
    assert_eq!(pair(&t.other[0]), ("P010".to_string(), 1));
    let u = split_tiers(&sorted, false);
    assert!(u.top_ten.is_empty());
    assert_eq!(u.other.len(), 90);
    assert_eq!(pair(&u.other[0]), ("P001".to_string(), 1));
}

#[test]
fn empty_result_has_no_tiers() {
    let ans = merge_and_rank(&result(vec![], 10), 1);
    assert!(ans.tiers.top.is_none());
    assert!(ans.tiers.top_ten.is_empty());
    assert!(ans.tiers.other.is_empty());
    assert_eq!(ans.stats.num_result_records, 0);
    assert_eq!(ans.stats.bandwidth_hundredths, Some(0));
}

#[test]
fn bandwidth_is_rounded_hundredths() {
    // 3_000_000 bytes in 1_000 us: 3.00 GB/s.
    assert_eq!(bandwidth_hundredths(3_000_000, 1_000), Some(300));
    // 1_234_567 bytes in 1_000 us: 1.234567 GB/s, rounds to 1.23.
    assert_eq!(bandwidth_hundredths(1_234_567, 1_000), Some(123));
    // 1_235_000 bytes in 1_000 us: 1.235 GB/s, half rounds up to 1.24.
    assert_eq!(bandwidth_hundredths(1_235_000, 1_000), Some(124));
    assert_eq!(bandwidth_hundredths(5, 0), None);
    assert_eq!(bandwidth_hundredths(u64::MAX as u128, 1), Some(u64::MAX as u128 / 10 + 1));
    // u128::MAX ends in 5: the half rounds up.
    assert_eq!(bandwidth_hundredths(u128::MAX, 1), Some(u128::MAX / 10 + 1));
}

#[test]
fn bandwidth_from_summed_chunk_bytes() {
    let a = chunk(("A", 1), &[], 0, 2_000_000);
    let b = chunk(("B", 1), &[], 0, 1_000_000);
    let ans = merge_and_rank(&result(vec![a, b], 1_500), 1);
    assert_eq!(ans.stats.input_size, 3_000_000);
    assert_eq!(ans.stats.bandwidth_hundredths, Some(200));
    assert_eq!(ans.stats.time_taken_ms, 1);
}

#[test]
fn defaults_are_applied() {
    let q = QueryParameters {
        pattern: "x".to_string(),
        whole_words: None,
        min_matches: None,
        mode: None,
        wiki: None,
    };
    let c = complete_query(q).ok().expect("accepted");
    assert_eq!(c.pattern, "x");
    assert!(!c.whole_words);
    assert_eq!(c.min_matches, 1);
    assert_eq!(c.mode, 0);
    assert_eq!(c.wiki, "en");
}

#[test]
fn given_values_are_kept() {
    let q = QueryParameters {
        pattern: "y".to_string(),
        whole_words: Some(true),
        min_matches: Some(4),
        mode: Some(2),
        wiki: Some("en".to_string()),
    };
    let c = complete_query(q).ok().expect("accepted");
    assert!(c.whole_words);
    assert_eq!(c.min_matches, 4);
    assert_eq!(c.mode, 2);
    let cfg = word_match_server::run_config(&c);
    assert_eq!(cfg.whole_words, 1);
    assert_eq!(cfg.min_matches, 4);
    assert_eq!(cfg.mode, 2);
    assert_eq!(cfg.pattern, "y");
}

#[test]
fn other_language_is_unsupported() {
    let q = QueryParameters {
        pattern: "y".to_string(),
        whole_words: None,
        min_matches: None,
        mode: None,
        wiki: Some("de".to_string()),
    };
    match complete_query(q) {
        Err(QueryError::UnsupportedQuery(msg)) => assert_eq!(msg, "unknown Wiki language"),
        _ => panic!("expected the corpus language to be rejected"),
    }
}

#[test]
fn bandwidth_text_has_two_decimals() {
    assert_eq!(bandwidth_text(Some(300), 1), b"3.00 GB/s".to_vec());
    assert_eq!(bandwidth_text(Some(7), 1), b"0.07 GB/s".to_vec());
    assert_eq!(bandwidth_text(Some(12345), 1), b"123.45 GB/s".to_vec());
    assert_eq!(bandwidth_text(None, 0), b"NaN GB/s".to_vec());
    assert_eq!(bandwidth_text(None, 10), b"inf GB/s".to_vec());
    assert_eq!(decimal_bytes(0), b"0".to_vec());
    assert_eq!(decimal_bytes(u128::MAX), u128::MAX.to_string().into_bytes());
}

#[test]
fn lone_offset_past_empty_buffer_is_rejected() {
    let mut a = chunk(("Solo", 8), &[], 0, 5);
    a.title_offsets = vec![5];
    let p = parse_chunk(&a, 1);
    assert!(p.decode_failed);
    assert!(p.truncated);
    let b = chunk(("Next", 3), &[("Next", 3), ("Last", 2)], 2, 5);
    let ans = merge_and_rank(&result(vec![a, b], 10), 1);
    assert_eq!(pair(ans.tiers.top.as_ref().unwrap()), ("Solo".to_string(), 8));
    assert!(ans.tiers.top_ten.is_empty());
    assert_eq!(pairs(&ans.tiers.other), owned(&[("Next", 3), ("Last", 2)]));
    assert_eq!(ans.stats.input_size, 10);
}

#[test]
fn lone_offset_within_buffer_is_accepted() {
    let mut a = chunk(("Solo", 8), &[], 0, 5);
    a.title_offsets = vec![0];
    let p = parse_chunk(&a, 1);
    assert!(!p.decode_failed);
    assert!(!p.truncated);
}

#[test]
fn large_byte_counts_sum_exactly() {
    let a = chunk(("A", 1), &[], 0, u64::MAX);
    let b = chunk(("B", 1), &[], 0, u64::MAX);
    let ans = merge_and_rank(&result(vec![a, b], 1), 1);
    assert_eq!(ans.stats.input_size, 2 * (u64::MAX as u128));
}
