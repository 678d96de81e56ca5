//! Ranking the merged mapping and splitting it into tiers.
use vstd::prelude::*;
use crate::chunk::{copy_bytes, entries_of, Entry, Record};
use crate::merge::{lemma_map_of_index, lemma_map_of_len, map_of, unique_titles};
use crate::title::{lemma_lex_irreflexive, lemma_lex_total, lemma_lex_transitive, lex_lt, title_lt};

verus! {

/// Entry `a` ranks before entry `b`: a higher count, or an equal count and
/// a lexicographically smaller title.
pub open spec fn ranks_before(a: Entry, b: Entry) -> bool {
    a.1 > b.1 || (a.1 == b.1 && lex_lt(a.0, b.0))
}

/// Every entry ranks strictly before every later one.
pub open spec fn sorted_by_rank(s: Seq<Entry>) -> bool {
    forall|i: int, j: int| 0 <= i < j < s.len() ==> ranks_before(#[trigger] s[i], #[trigger] s[j])
}

/// `s` is the ranking of the mapping `m`: its entries, each once, in rank order.
pub open spec fn ranking(m: Map<Seq<u8>, u32>, s: Seq<Entry>) -> bool {
    &&& sorted_by_rank(s)
    &&& unique_titles(s)
    &&& map_of(s) == m
}

/// No entry ranks before itself.
pub proof fn lemma_rank_irreflexive(a: Entry)
    ensures
        !ranks_before(a, a),
{
    lemma_lex_irreflexive(a.0);
}

/// Of two entries with distinct titles, exactly one ranks before the other.
pub proof fn lemma_rank_total(a: Entry, b: Entry)
    requires
        a.0 != b.0,
    ensures
        ranks_before(a, b) != ranks_before(b, a),
{
    lemma_lex_total(a.0, b.0);
}

/// The rank order is transitive.
pub proof fn lemma_rank_transitive(a: Entry, b: Entry, c: Entry)
    requires
        ranks_before(a, b),
        ranks_before(b, c),
    ensures
        ranks_before(a, c),
{
    if a.1 == b.1 && b.1 == c.1 {
        lemma_lex_transitive(a.0, b.0, c.0);
    }
}

/// Dropping the first entry of a ranking leaves the ranking of the mapping
/// without that title.
pub proof fn lemma_ranking_drop_first(m: Map<Seq<u8>, u32>, s: Seq<Entry>)
    requires
        ranking(m, s),
        s.len() > 0,
    ensures
        ranking(m.remove(s[0].0), s.drop_first()),
{
    let t = s.drop_first();
    assert(sorted_by_rank(t)) by {
        assert forall|i: int, j: int| 0 <= i < j < t.len() implies ranks_before(
            #[trigger] t[i],
            #[trigger] t[j],
        ) by {
            assert(ranks_before(s[i + 1], s[j + 1]));
        }
    }
    assert(unique_titles(t)) by {
        assert forall|i: int, j: int| 0 <= i < j < t.len() implies (#[trigger] t[i]).0 != (
        #[trigger] t[j]).0 by {
            assert(s[i + 1].0 != s[j + 1].0);
        }
    }
    assert(map_of(t) =~= m.remove(s[0].0)) by {
        assert forall|k: Seq<u8>| #[trigger] map_of(t).contains_key(k) <==> m.remove(
            s[0].0,
        ).contains_key(k) by {
            if map_of(t).contains_key(k) {
                let i = choose|i: int| 0 <= i < t.len() && t[i].0 == k;
                assert(s[0].0 != s[i + 1].0);
                assert(s[i + 1].0 == k);
            }
            if m.remove(s[0].0).contains_key(k) {
                let i = choose|i: int| 0 <= i < s.len() && s[i].0 == k;
                assert(t[i - 1].0 == k);
            }
        }
        assert forall|k: Seq<u8>| #[trigger] map_of(t).contains_key(k) implies map_of(t)[k]
            == m.remove(s[0].0)[k] by {
            let i = choose|i: int| 0 <= i < t.len() && t[i].0 == k;
            lemma_map_of_index(t, i);
            lemma_map_of_index(s, i + 1);
        }
    }
}

/// A mapping has one ranking only: ranking the same mapping twice gives the
/// same sequence.
pub proof fn lemma_ranking_unique(m: Map<Seq<u8>, u32>, s1: Seq<Entry>, s2: Seq<Entry>)
    requires
        ranking(m, s1),
        ranking(m, s2),
    ensures
        s1 == s2,
    decreases s1.len(),
{
    lemma_map_of_len(s1);
    lemma_map_of_len(s2);
    if s1.len() == 0 {
        assert(s1 =~= s2);
    } else {
        lemma_map_of_index(s1, 0);
        lemma_map_of_index(s2, 0);
        assert(map_of(s2).contains_key(s1[0].0));
        let q = choose|q: int| 0 <= q < s2.len() && s2[q].0 == s1[0].0;
        lemma_map_of_index(s2, q);
        assert(map_of(s1).contains_key(s2[0].0));
        let p = choose|p: int| 0 <= p < s1.len() && s1[p].0 == s2[0].0;
        lemma_map_of_index(s1, p);
        assert(s2[q] == s1[0]);
        assert(s1[p] == s2[0]);
        if q > 0 && p > 0 {
            assert(ranks_before(s2[0], s2[q]));
            assert(ranks_before(s1[0], s1[p]));
            lemma_rank_transitive(s1[0], s2[0], s1[0]);
            lemma_rank_irreflexive(s1[0]);
        }
        assert(s1[0] == s2[0]);
        lemma_ranking_drop_first(m, s1);
        lemma_ranking_drop_first(m, s2);
        lemma_ranking_unique(m.remove(s1[0].0), s1.drop_first(), s2.drop_first());
        assert(s1 =~= seq![s1[0]] + s1.drop_first());
        assert(s2 =~= seq![s2[0]] + s2.drop_first());
    }
}

/// In a ranking, of two entries with equal counts the one with the
/// lexicographically smaller title comes first.
pub proof fn lemma_ties_by_title(s: Seq<Entry>, i: int, j: int)
    requires
        sorted_by_rank(s),
        0 <= i < s.len(),
        0 <= j < s.len(),
        i != j,
        s[i].1 == s[j].1,
    ensures
        i < j <==> lex_lt(s[i].0, s[j].0),
{
    if i < j {
        assert(ranks_before(s[i], s[j]));
    } else {
        assert(ranks_before(s[j], s[i]));
        lemma_lex_irreflexive(s[j].0);
        lemma_lex_total(s[j].0, s[i].0);
    }
}

/// Inserting an entry at the place where it ranks keeps a list sorted.
pub proof fn lemma_insert_sorted(o: Seq<Entry>, x: Entry, p: int)
    requires
        sorted_by_rank(o),
        0 <= p <= o.len(),
        forall|j: int| 0 <= j < p ==> ranks_before(#[trigger] o[j], x),
        forall|j: int| p <= j < o.len() ==> ranks_before(x, #[trigger] o[j]),
    ensures
        sorted_by_rank(o.insert(p, x)),
{
    let o2 = o.insert(p, x);
    assert forall|a: int, b: int| 0 <= a < b < o2.len() implies ranks_before(
        #[trigger] o2[a],
        #[trigger] o2[b],
    ) by {
        if b < p {
            assert(o2[a] == o[a] && o2[b] == o[b]);
        } else if b == p {
            assert(o2[a] == o[a]);
        } else if a < p {
            assert(o2[a] == o[a] && o2[b] == o[b - 1]);
        } else if a == p {
            assert(o2[b] == o[b - 1]);
        } else {
            assert(o2[a] == o[a - 1] && o2[b] == o[b - 1]);
        }
    }
}

/// Inserting an entry with a new title keeps titles unique.
pub proof fn lemma_insert_unique(o: Seq<Entry>, x: Entry, p: int)
    requires
        unique_titles(o),
        0 <= p <= o.len(),
        forall|j: int| 0 <= j < o.len() ==> (#[trigger] o[j]).0 != x.0,
    ensures
        unique_titles(o.insert(p, x)),
{
    let o2 = o.insert(p, x);
    assert forall|a: int, b: int| 0 <= a < b < o2.len() implies (#[trigger] o2[a]).0 != (
    #[trigger] o2[b]).0 by {
        if b < p {
            assert(o2[a] == o[a] && o2[b] == o[b]);
        } else if b == p {
            assert(o2[a] == o[a]);
        } else if a < p {
            assert(o2[a] == o[a] && o2[b] == o[b - 1]);
        } else if a == p {
            assert(o2[b] == o[b - 1]);
        } else {
            assert(o2[a] == o[a - 1] && o2[b] == o[b - 1]);
        }
    }
}

/// `o` holds exactly the first `n` entries of `e`, in some order.
#[verifier::opaque]
pub open spec fn covers(o: Seq<Entry>, e: Seq<Entry>, n: int) -> bool {
    &&& o.len() == n
    &&& forall|j: int| 0 <= j < n ==> exists|k: int| 0 <= k < n && #[trigger] o[j] == e[k]
    &&& forall|k: int| 0 <= k < n ==> exists|j: int| 0 <= j < n && o[j] == #[trigger] e[k]
}

/// Inserting the next entry of `e` anywhere extends what `o` covers.
pub proof fn lemma_insert_covers(o: Seq<Entry>, e: Seq<Entry>, x: Entry, p: int, n: int)
    requires
        covers(o, e, n),
        0 <= n < e.len(),
        x == e[n],
        0 <= p <= n,
    ensures
        covers(o.insert(p, x), e, n + 1),
{
    reveal(covers);
    let o2 = o.insert(p, x);
    assert forall|j: int| 0 <= j < n + 1 implies exists|k: int|
        0 <= k < n + 1 && #[trigger] o2[j] == e[k] by {
        if j < p {
            let k = choose|k: int| 0 <= k < n && o[j] == e[k];
            assert(o2[j] == e[k]);
        } else if j == p {
            assert(o2[j] == e[n]);
        } else {
            let k = choose|k: int| 0 <= k < n && o[j - 1] == e[k];
            assert(o2[j] == e[k]);
        }
    }
    assert forall|k: int| 0 <= k < n + 1 implies exists|j: int|
        0 <= j < n + 1 && o2[j] == #[trigger] e[k] by {
        if k == n {
            assert(o2[p] == e[k]);
        } else {
            let j = choose|j: int| 0 <= j < n && o[j] == e[k];
            if j < p {
                assert(o2[j] == e[k]);
            } else {
                assert(o2[j + 1] == e[k]);
            }
        }
    }
}

/// Whether record `a` ranks before record `b`.
pub fn rank_lt(a: &Record, b: &Record) -> (r: bool)
    ensures
        r == ranks_before(a@, b@),
{
    a.count > b.count || (a.count == b.count && title_lt(&a.title, &b.title))
}

/// A copy of one record.
fn copy_record(r: &Record) -> (c: Record)
    ensures
        c@ == r@,
{
    let title = copy_bytes(&r.title, 0, r.title.len());
    assert(r.title@.subrange(0, r.title@.len() as int) =~= r.title@);
    Record { title, count: r.count }
}

/// Sorts a list of records with unique titles into rank order: count
/// descending, and on equal counts title ascending.
pub fn rank(records: &Vec<Record>) -> (r: Vec<Record>)
    requires
        unique_titles(entries_of(records@)),
    ensures
        ranking(map_of(entries_of(records@)), entries_of(r@)),
{
    let ghost e = entries_of(records@);
    let mut out: Vec<Record> = Vec::new();
    proof {
        reveal(covers);
    }
    let mut i: usize = 0;
    while i < records.len()
        invariant
            e == entries_of(records@),
            unique_titles(e),
            i <= e.len(),
            out@.len() == i,
            sorted_by_rank(entries_of(out@)),
            unique_titles(entries_of(out@)),
            covers(entries_of(out@), e, i as int),
        decreases e.len() - i,
    {
        let ghost o = entries_of(out@);
        let x = copy_record(&records[i]);
        assert(x@ == e[i as int]);
        assert forall|j: int| 0 <= j < i implies (#[trigger] o[j]).0 != x@.0 by {
            reveal(covers);
            let k = choose|k: int| 0 <= k < i && o[j] == e[k];
            assert(e[k].0 != e[i as int].0);
        }
        let mut p: usize = 0;
        while p < out.len() && !rank_lt(&x, &out[p])
            invariant
                o == entries_of(out@),
                p <= o.len(),
                forall|j: int| 0 <= j < p ==> !ranks_before(x@, #[trigger] o[j]),
            decreases o.len() - p,
        {
            p += 1;
        }
        let ghost at_p = p < o.len() ==> ranks_before(x@, o[p as int]);
        assert(at_p);
        out.insert(p, x);
        let ghost o2 = entries_of(out@);
        assert(o2 =~= o.insert(p as int, x@));
        proof {
            assert forall|j: int| 0 <= j < p implies ranks_before(#[trigger] o[j], x@) by {
                lemma_rank_total(o[j], x@);
            }
            assert forall|j: int| p <= j < o.len() implies ranks_before(x@, #[trigger] o[j]) by {
                if j > p {
                    lemma_rank_transitive(x@, o[p as int], o[j]);
                }
            }
            lemma_insert_sorted(o, x@, p as int);
            lemma_insert_unique(o, x@, p as int);
        }
        proof {
            lemma_insert_covers(o, e, x@, p as int, i as int);
        }
        i += 1;
    }
    let ghost o = entries_of(out@);
    assert(map_of(o) =~= map_of(e)) by {
        reveal(covers);
        assert forall|t: Seq<u8>| #[trigger] map_of(o).contains_key(t) <==> map_of(e).contains_key(
            t,
        ) by {
            if map_of(o).contains_key(t) {
                let j = choose|j: int| 0 <= j < o.len() && o[j].0 == t;
                let k = choose|k: int| 0 <= k < i && o[j] == e[k];
                assert(e[k].0 == t);
            }
            if map_of(e).contains_key(t) {
                let k = choose|k: int| 0 <= k < e.len() && e[k].0 == t;
                let j = choose|j: int| 0 <= j < i && o[j] == e[k];
                assert(o[j].0 == t);
            }
        }
        assert forall|t: Seq<u8>| #[trigger] map_of(o).contains_key(t) implies map_of(o)[t]
            == map_of(e)[t] by {
            let j = choose|j: int| 0 <= j < o.len() && o[j].0 == t;
            let k = choose|k: int| 0 <= k < i && o[j] == e[k];
            lemma_map_of_index(o, j);
            lemma_map_of_index(e, k);
        }
    }
    out
}

/// The three output tiers of a ranking.
pub struct Tiers {
    /// The first record, if any.
    pub top: Option<Record>,
    /// The next up to nine records, only when every chunk was complete.
    pub top_ten: Vec<Record>,
    /// The next up to ninety records after the tiers above.
    pub other: Vec<Record>,
}

/// Where the `top` tier ends in a ranking of `len` entries.
pub open spec fn top_end(len: int) -> int {
    if len < 1 {
        len
    } else {
        1
    }
}

/// Where the `top_ten` tier ends.
pub open spec fn top_ten_end(len: int, all_known: bool) -> int {
    if !all_known {
        top_end(len)
    } else if len < 10 {
        len
    } else {
        10
    }
}

/// Where the `other` tier ends.
pub open spec fn other_end(len: int, all_known: bool) -> int {
    if len < top_ten_end(len, all_known) + 90 {
        len
    } else {
        top_ten_end(len, all_known) + 90
    }
}

/// The tiers are the consecutive slices of the ranking `s`.
pub open spec fn tiers_of(t: Tiers, s: Seq<Entry>, all_known: bool) -> bool {
    &&& (t.top is Some <==> s.len() > 0)
    &&& (t.top matches Some(r) ==> r@ == s[0])
    &&& entries_of(t.top_ten@) == s.subrange(top_end(s.len() as int), top_ten_end(s.len() as int, all_known))
    &&& entries_of(t.other@) == s.subrange(
        top_ten_end(s.len() as int, all_known),
        other_end(s.len() as int, all_known),
    )
}

/// The tiers laid end to end: `top`, then `top_ten`, then `other`.
pub open spec fn tier_sequence(t: Tiers) -> Seq<Entry> {
    (match t.top {
        Some(r) => seq![r@],
        None => Seq::empty(),
    }) + entries_of(t.top_ten@) + entries_of(t.other@)
}

/// The tiers of a ranking, laid end to end, are a prefix of it: strictly
/// ordered by rank, with no title twice.
pub proof fn lemma_tier_sequence_prefix(t: Tiers, s: Seq<Entry>, all_known: bool)
    requires
        tiers_of(t, s, all_known),
        sorted_by_rank(s),
        unique_titles(s),
    ensures
        tier_sequence(t) == s.subrange(0, other_end(s.len() as int, all_known)),
        sorted_by_rank(tier_sequence(t)),
        unique_titles(tier_sequence(t)),
{
    let e = other_end(s.len() as int, all_known);
    assert(tier_sequence(t) =~= s.subrange(0, e));
    let q = s.subrange(0, e);
    assert forall|i: int, j: int| 0 <= i < j < q.len() implies ranks_before(
        #[trigger] q[i],
        #[trigger] q[j],
    ) by {
        assert(q[i] == s[i] && q[j] == s[j]);
    }
    assert forall|i: int, j: int| 0 <= i < j < q.len() implies (#[trigger] q[i]).0 != (
    #[trigger] q[j]).0 by {
        assert(q[i] == s[i] && q[j] == s[j]);
    }
}

/// Copies of the records from `lo` up to `hi`.
fn copy_records(v: &Vec<Record>, lo: usize, hi: usize) -> (r: Vec<Record>)
    requires
        lo <= hi <= v@.len(),
    ensures
        entries_of(r@) == entries_of(v@).subrange(lo as int, hi as int),
{
    let mut out: Vec<Record> = Vec::new();
    let mut i: usize = lo;
    while i < hi
        invariant
            lo <= i <= hi <= v@.len(),
            out@.len() == i - lo,
            entries_of(out@) =~= entries_of(v@).subrange(lo as int, i as int),
        decreases hi - i,
    {
        let ghost before = out@;
        let c = copy_record(&v[i]);
        assert(c@ == entries_of(v@)[i as int]);
        out.push(c);
        i += 1;
        assert(out@ == before.push(c));
        assert(entries_of(out@)[i - lo - 1] == c@);
        assert(entries_of(out@) =~= entries_of(v@).subrange(lo as int, i as int));
    }
    out
}

/// Splits a ranking into its tiers: the first record; the next up to nine,
/// only when `all_known`; and up to ninety more after whichever were taken.
pub fn split_tiers(sorted: &Vec<Record>, all_known: bool) -> (t: Tiers)
    ensures
        tiers_of(t, entries_of(sorted@), all_known),
{
    let len = sorted.len();
    let top = if len > 0 {
        Some(copy_record(&sorted[0]))
    } else {
        None
    };
    let first_end: usize = if len < 1 {
        len
    } else {
        1
    };
    let ten_end: usize = if !all_known {
        first_end
    } else if len < 10 {
        len
    } else {
        10
    };
    let rest_end: usize = if len - ten_end < 90 {
        len
    } else {
        ten_end + 90
    };
    let top_ten = copy_records(sorted, first_end, ten_end);
    let other = copy_records(sorted, ten_end, rest_end);
    Tiers { top, top_ten, other }
}

} // verus!
