//! Folding parsed chunks into one title-keyed mapping, tracking completeness
//! and the bytes scanned along the way.
use vstd::prelude::*;
use crate::chunk::{
    parsed_writes, chunk_truncated, chunk_writes, entries_of, parse_chunk, ChunkResult, Entry, Record,
};
use crate::title::titles_equal;

verus! {

/// Applies the writes `s` to `m` in order; each write replaces any earlier
/// count of the same title.
pub open spec fn write_all(m: Map<Seq<u8>, u32>, s: Seq<Entry>) -> Map<Seq<u8>, u32>
    decreases s.len(),
{
    if s.len() == 0 {
        m
    } else {
        write_all(m, s.drop_last()).insert(s.last().0, s.last().1)
    }
}

/// The merged mapping of a sequence of chunks, folded in chunk order.
pub open spec fn merged(chunks: Seq<ChunkResult>, min_matches: u32) -> Map<Seq<u8>, u32>
    decreases chunks.len(),
{
    if chunks.len() == 0 {
        Map::empty()
    } else {
        write_all(merged(chunks.drop_last(), min_matches), chunk_writes(chunks.last(), min_matches))
    }
}

/// Whether no chunk lost matches.
pub open spec fn all_known(chunks: Seq<ChunkResult>) -> bool {
    forall|i: int| 0 <= i < chunks.len() ==> !chunk_truncated(#[trigger] chunks[i])
}

/// The bytes scanned over all chunks.
pub open spec fn total_bytes(chunks: Seq<ChunkResult>) -> int
    decreases chunks.len(),
{
    if chunks.len() == 0 {
        0
    } else {
        total_bytes(chunks.drop_last()) + chunks.last().data_size
    }
}

/// The titles of a sequence of entries.
pub open spec fn titles(s: Seq<Entry>) -> Seq<Seq<u8>> {
    s.map_values(|e: Entry| e.0)
}

/// No title occurs twice.
pub open spec fn unique_titles(s: Seq<Entry>) -> bool {
    forall|i: int, j: int| 0 <= i < j < s.len() ==> (#[trigger] s[i]).0 != (#[trigger] s[j]).0
}

/// The mapping that a sequence of entries with unique titles stands for.
pub open spec fn map_of(s: Seq<Entry>) -> Map<Seq<u8>, u32> {
    Map::new(
        |t: Seq<u8>| exists|i: int| 0 <= i < s.len() && s[i].0 == t,
        |t: Seq<u8>| s[choose|i: int| 0 <= i < s.len() && s[i].0 == t].1,
    )
}

/// Each entry of a list with unique titles is what the mapping holds for
/// its title.
pub proof fn lemma_map_of_index(s: Seq<Entry>, i: int)
    requires
        unique_titles(s),
        0 <= i < s.len(),
    ensures
        map_of(s).contains_key(s[i].0),
        map_of(s)[s[i].0] == s[i].1,
{
    let j = choose|j: int| 0 <= j < s.len() && s[j].0 == s[i].0;
    if i < j {
        assert(s[i].0 != s[j].0);
    } else if j < i {
        assert(s[j].0 != s[i].0);
    }
}

/// A list with unique titles has as many entries as its mapping has keys.
pub proof fn lemma_map_of_len(s: Seq<Entry>)
    requires
        unique_titles(s),
    ensures
        map_of(s).dom() == titles(s).to_set(),
        map_of(s).dom().finite(),
        map_of(s).len() == s.len(),
{
    assert(map_of(s).dom() =~= titles(s).to_set()) by {
        assert forall|t: Seq<u8>| map_of(s).dom().contains(t) implies titles(s).to_set().contains(
            t,
        ) by {
            let i = choose|i: int| 0 <= i < s.len() && s[i].0 == t;
            assert(titles(s)[i] == t);
        }
        assert forall|t: Seq<u8>| titles(s).to_set().contains(t) implies map_of(s).dom().contains(
            t,
        ) by {
            let i = choose|i: int| 0 <= i < titles(s).len() && titles(s)[i] == t;
            assert(s[i].0 == t);
        }
    }
    assert(titles(s).no_duplicates()) by {
        assert forall|i: int, j: int|
            0 <= i < titles(s).len() && 0 <= j < titles(s).len() && i != j implies titles(s)[i]
            != titles(s)[j] by {
            if i < j {
                assert(s[i].0 != s[j].0);
            } else {
                assert(s[j].0 != s[i].0);
            }
        }
    }
    titles(s).unique_seq_to_set();
}

/// Writes `count` for `title` into a list of records with unique titles,
/// replacing the count of an equal title if there is one.
pub fn write_record(records: &mut Vec<Record>, title: &Vec<u8>, count: u32)
    requires
        unique_titles(entries_of(old(records)@)),
    ensures
        unique_titles(entries_of(final(records)@)),
        map_of(entries_of(final(records)@)) == map_of(entries_of(old(records)@)).insert(
            title@,
            count,
        ),
{
    let ghost s0 = entries_of(records@);
    let mut j: usize = 0;
    while j < records.len()
        invariant
            records@ == old(records)@,
            s0 == entries_of(records@),
            unique_titles(s0),
            j <= records@.len(),
            forall|k: int| 0 <= k < j ==> (#[trigger] s0[k]).0 != title@,
        decreases records@.len() - j,
    {
        if titles_equal(&records[j].title, title) {
            records.set(j, Record { title: copy_all(title), count });
            let ghost s1 = entries_of(records@);
            assert(s1 =~= s0.update(j as int, (title@, count)));
            assert(unique_titles(s1)) by {
                assert forall|a: int, b: int| 0 <= a < b < s1.len() implies (#[trigger] s1[a]).0
                    != (#[trigger] s1[b]).0 by {
                    assert(s0[a].0 != s0[b].0);
                }
            }
            assert(map_of(s1) =~= map_of(s0).insert(title@, count)) by {
                assert forall|t: Seq<u8>| #[trigger] map_of(s1).contains_key(t) <==> map_of(
                    s0,
                ).insert(title@, count).contains_key(t) by {
                    if map_of(s1).contains_key(t) {
                        let i = choose|i: int| 0 <= i < s1.len() && s1[i].0 == t;
                        assert(s0[i].0 == t);
                    }
                    if map_of(s0).contains_key(t) {
                        let i = choose|i: int| 0 <= i < s0.len() && s0[i].0 == t;
                        assert(s1[i].0 == t);
                    }
                    if t == title@ {
                        assert(s1[j as int].0 == t);
                    }
                }
                assert forall|t: Seq<u8>| #[trigger] map_of(s1).contains_key(t) implies map_of(
                    s1,
                )[t] == map_of(s0).insert(title@, count)[t] by {
                    let i = choose|i: int| 0 <= i < s1.len() && s1[i].0 == t;
                    lemma_map_of_index(s1, i);
                    if i < j {
                        assert(s0[i].0 != s0[j as int].0);
                        lemma_map_of_index(s0, i);
                    } else if i > j {
                        assert(s0[j as int].0 != s0[i].0);
                        lemma_map_of_index(s0, i);
                    }
                }
            }
            return;
        }
        j += 1;
    }
    records.push(Record { title: copy_all(title), count });
    let ghost s1 = entries_of(records@);
    assert(s1 =~= s0.push((title@, count)));
    assert(map_of(s1) =~= map_of(s0).insert(title@, count)) by {
        assert forall|t: Seq<u8>| #[trigger] map_of(s1).contains_key(t) <==> map_of(s0).insert(
            title@,
            count,
        ).contains_key(t) by {
            if map_of(s1).contains_key(t) {
                let i = choose|i: int| 0 <= i < s1.len() && s1[i].0 == t;
                if i < s0.len() {
                    assert(s0[i].0 == t);
                }
            }
            if map_of(s0).contains_key(t) {
                let i = choose|i: int| 0 <= i < s0.len() && s0[i].0 == t;
                assert(s1[i].0 == t);
            }
            if t == title@ {
                assert(s1[s0.len() as int].0 == t);
            }
        }
        assert forall|t: Seq<u8>| #[trigger] map_of(s1).contains_key(t) implies map_of(s1)[t]
            == map_of(s0).insert(title@, count)[t] by {
            let i = choose|i: int| 0 <= i < s1.len() && s1[i].0 == t;
            lemma_map_of_index(s1, i);
            if i < s0.len() {
                lemma_map_of_index(s0, i);
            }
        }
    }
}

/// The result of folding every chunk of a query.
pub struct Aggregate {
    /// The merged mapping, one record per distinct title, in no set order.
    pub records: Vec<Record>,
    /// Whether no chunk lost matches.
    pub all_known: bool,
    /// The bytes scanned over all chunks.
    pub input_size: u128,
}

/// Writing one more entry after `s` is inserting it into the result.
pub proof fn lemma_write_all_push(m: Map<Seq<u8>, u32>, s: Seq<Entry>, e: Entry)
    ensures
        write_all(m, s.push(e)) == write_all(m, s).insert(e.0, e.1),
{
    assert(s.push(e).drop_last() =~= s);
}

/// A sum of at most `2^64` byte counts of 64 bits each stays within 128 bits.
proof fn lemma_byte_sum_bound(sum: int, next: int, i: int)
    requires
        0 <= sum <= i * 0xffff_ffff_ffff_ffff,
        0 <= next <= 0xffff_ffff_ffff_ffff,
        0 <= i < 0x1_0000_0000_0000_0000,
    ensures
        sum + next <= (i + 1) * 0xffff_ffff_ffff_ffff,
        (i + 1) * 0xffff_ffff_ffff_ffff < 0x1_0000_0000_0000_0000_0000_0000_0000_0000,
{
    assert(sum + next <= (i + 1) * 0xffff_ffff_ffff_ffff) by (nonlinear_arith)
        requires
            sum <= i * 0xffff_ffff_ffff_ffff,
            next <= 0xffff_ffff_ffff_ffff,
    ;
    assert((i + 1) * 0xffff_ffff_ffff_ffff <= 0x1_0000_0000_0000_0000 * 0xffff_ffff_ffff_ffff)
        by (nonlinear_arith)
        requires
            i + 1 <= 0x1_0000_0000_0000_0000,
    ;
}

/// Folds the chunks, in order, into one mapping: for each chunk its best
/// match (when it reaches `min_matches`) and then its reported list, each
/// write replacing an earlier count of the same title. Alongside, ANDs the
/// chunks' completeness and sums their byte counts.
#[verifier::rlimit(40)]
pub fn aggregate(chunks: &Vec<ChunkResult>, min_matches: u32) -> (r: Aggregate)
    ensures
        unique_titles(entries_of(r.records@)),
        map_of(entries_of(r.records@)) == merged(chunks@, min_matches),
        r.all_known == all_known(chunks@),
        r.input_size == total_bytes(chunks@),
{
    let mut records: Vec<Record> = Vec::new();
    let mut known = true;
    let mut input_size: u128 = 0;
    let mut i: usize = 0;
    assert(map_of(entries_of(records@)) =~= Map::empty());
    while i < chunks.len()
        invariant
            i <= chunks@.len(),
            unique_titles(entries_of(records@)),
            map_of(entries_of(records@)) == merged(chunks@.subrange(0, i as int), min_matches),
            known == all_known(chunks@.subrange(0, i as int)),
            input_size == total_bytes(chunks@.subrange(0, i as int)),
            input_size <= i * 0xffff_ffff_ffff_ffffnat,
        decreases chunks@.len() - i,
    {
        let ghost before = chunks@.subrange(0, i as int);
        let ghost m0 = map_of(entries_of(records@));
        let c = &chunks[i];
        let p = parse_chunk(c, min_matches);
        let ghost best_seq: Seq<Entry> = parsed_writes(p).subrange(
            0,
            parsed_writes(p).len() - p.records@.len(),
        );
        match &p.best {
            Some(b) => {
                write_record(&mut records, &b.title, b.count);
                proof {
                    lemma_write_all_push(m0, Seq::empty(), b@);
                }
                assert(seq![b@] =~= Seq::<Entry>::empty().push(b@));
            },
            None => {},
        }
        assert(best_seq =~= match p.best {
            Some(r) => seq![r@],
            None => Seq::<Entry>::empty(),
        });
        assert(map_of(entries_of(records@)) == write_all(m0, best_seq));
        let mut k: usize = 0;
        while k < p.records.len()
            invariant
                k <= p.records@.len(),
                unique_titles(entries_of(records@)),
                map_of(entries_of(records@)) == write_all(
                    m0,
                    best_seq + entries_of(p.records@).subrange(0, k as int),
                ),
            decreases p.records@.len() - k,
        {
            let ghost w = best_seq + entries_of(p.records@).subrange(0, k as int);
            write_record(&mut records, &p.records[k].title, p.records[k].count);
            proof {
                lemma_write_all_push(m0, w, p.records@[k as int]@);
            }
            k += 1;
            assert(best_seq + entries_of(p.records@).subrange(0, k as int) =~= w.push(
                p.records@[k - 1]@,
            ));
        }
        assert(best_seq + entries_of(p.records@).subrange(0, k as int) =~= chunk_writes(
            *c,
            min_matches,
        ));
        let ghost after = chunks@.subrange(0, i + 1);
        assert(after.drop_last() =~= before);
        if p.truncated {
            known = false;
        }
        proof {
            lemma_byte_sum_bound(input_size as int, c.data_size as int, i as int);
        }
        input_size = input_size + c.data_size as u128;
        i += 1;
        assert(after[i - 1] == *c);
        assert(known == all_known(after)) by {
            if known {
                assert forall|q: int| 0 <= q < after.len() implies !chunk_truncated(
                    #[trigger] after[q],
                ) by {
                    if q < i - 1 {
                        assert(after[q] == before[q]);
                    }
                }
            } else if !p.truncated {
                let q = choose|q: int| 0 <= q < before.len() && chunk_truncated(#[trigger] before[q]);
                assert(after[q] == before[q]);
            } else {
                assert(chunk_truncated(after[i - 1]));
            }
        }
    }
    assert(chunks@.subrange(0, i as int) =~= chunks@);
    Aggregate { records, all_known: known, input_size }
}

/// A copy of a whole title.
fn copy_all(title: &Vec<u8>) -> (r: Vec<u8>)
    ensures
        r@ == title@,
{
    let r = crate::chunk::copy_bytes(title, 0, title.len());
    assert(title@.subrange(0, title@.len() as int) =~= title@);
    r
}

} // verus!
