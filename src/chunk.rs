//! One chunk's partial result, and its decoding into (title, count) records.
use vstd::prelude::*;

verus! {

/// A (title, count) pair as the engine models it.
pub type Entry = (Seq<u8>, u32);

/// One title with its match count.
pub struct Record {
    pub title: Vec<u8>,
    pub count: u32,
}

impl View for Record {
    type V = Entry;

    open spec fn view(&self) -> Entry {
        (self.title@, self.count)
    }
}

/// The entries that a sequence of records stands for, in order.
pub open spec fn entries_of(rs: Seq<Record>) -> Seq<Entry> {
    rs.map_values(|r: Record| r@)
}

/// The raw partial result that the accelerator reports for one chunk.
///
/// Titles of the reported list are packed into `title_values`; title `i`
/// spans the bytes from `title_offsets[i]` up to `title_offsets[i + 1]`, and
/// its count is `match_counts[i]`.
pub struct ChunkResult {
    /// Bytes scanned in this chunk.
    pub data_size: u64,
    /// Title of the chunk's best match.
    pub max_page_title: Vec<u8>,
    /// Match count of the chunk's best match.
    pub max_word_matches: u32,
    /// Packed title buffer of the reported list.
    pub title_values: Vec<u8>,
    /// Offsets table into `title_values`.
    pub title_offsets: Vec<u64>,
    /// Count of each title of the reported list.
    pub match_counts: Vec<u32>,
    /// Length of the reported list.
    pub num_page_match_records: u32,
    /// Number of matches actually found in this chunk.
    pub num_page_matches: u32,
}

/// The chunk's packed title data is malformed.
#[derive(Debug, Clone, Copy, PartialEq, Eq, Structural)]
pub struct DecodeError;

/// The offsets table has one entry more than the reported list, the counts
/// array one per item, every offset is in bounds and each pair is
/// non-decreasing.
pub open spec fn offsets_valid(c: ChunkResult) -> bool {
    let n = c.num_page_match_records as int;
    &&& c.title_offsets@.len() == n + 1
    &&& c.match_counts@.len() == n
    &&& c.title_offsets@[0] <= c.title_values@.len()
    &&& forall|i: int|
        0 <= i < n ==> #[trigger] c.title_offsets@[i] <= c.title_offsets@[i + 1] && c.title_offsets@[i
            + 1] <= c.title_values@.len()
}

/// The reported list of a chunk whose offsets are valid.
pub open spec fn decoded(c: ChunkResult) -> Seq<Entry> {
    Seq::new(
        c.num_page_match_records as nat,
        |i: int|
            (
                c.title_values@.subrange(
                    c.title_offsets@[i] as int,
                    c.title_offsets@[i + 1] as int,
                ),
                c.match_counts@[i],
            ),
    )
}

/// Whether the chunk lost matches: it reported fewer than it found, or its
/// list could not be decoded.
pub open spec fn chunk_truncated(c: ChunkResult) -> bool {
    c.num_page_match_records < c.num_page_matches || !offsets_valid(c)
}

/// The chunk's best match, kept only when it reaches the threshold.
pub open spec fn best_entry(c: ChunkResult, min_matches: u32) -> Seq<Entry> {
    if c.max_word_matches >= min_matches {
        seq![(c.max_page_title@, c.max_word_matches)]
    } else {
        Seq::empty()
    }
}

/// The reported list that the chunk contributes: empty when it is malformed.
pub open spec fn list_entries(c: ChunkResult) -> Seq<Entry> {
    if offsets_valid(c) {
        decoded(c)
    } else {
        Seq::empty()
    }
}

/// The writes that one chunk makes into the merged mapping, in order.
pub open spec fn chunk_writes(c: ChunkResult, min_matches: u32) -> Seq<Entry> {
    best_entry(c, min_matches) + list_entries(c)
}

/// What the parser makes of one chunk.
pub struct ParsedChunk {
    /// The best match, when it reaches the threshold.
    pub best: Option<Record>,
    /// The decoded reported list; empty when decoding failed.
    pub records: Vec<Record>,
    /// Whether the reported list could not be decoded.
    pub decode_failed: bool,
    /// Whether the chunk lost matches.
    pub truncated: bool,
    /// Bytes scanned in this chunk.
    pub data_size: u64,
}

/// The writes that a parsed chunk makes into the merged mapping, in order.
pub open spec fn parsed_writes(p: ParsedChunk) -> Seq<Entry> {
    (match p.best {
        Some(r) => seq![r@],
        None => Seq::empty(),
    }) + entries_of(p.records@)
}

/// A copy of `buf[start..stop]`.
pub fn copy_bytes(buf: &Vec<u8>, start: usize, stop: usize) -> (r: Vec<u8>)
    requires
        start <= stop <= buf@.len(),
    ensures
        r@ == buf@.subrange(start as int, stop as int),
{
    let mut out: Vec<u8> = Vec::new();
    let mut i: usize = start;
    while i < stop
        invariant
            start <= i <= stop <= buf@.len(),
            out@ == buf@.subrange(start as int, i as int),
        decreases stop - i,
    {
        out.push(buf[i]);
        i += 1;
        assert(out@ =~= buf@.subrange(start as int, i as int));
    }
    out
}

/// Decodes the chunk's reported list from its packed title buffer.
pub fn decode_list(c: &ChunkResult) -> (r: Result<Vec<Record>, DecodeError>)
    ensures
        r is Ok <==> offsets_valid(*c),
        r matches Ok(v) ==> entries_of(v@) == decoded(*c),
{
    let n = c.num_page_match_records as usize;
    if c.match_counts.len() != n || c.title_offsets.len() == 0 || c.title_offsets.len() - 1 != n {
        return Err(DecodeError);
    }
    if c.title_offsets[0] > c.title_values.len() as u64 {
        return Err(DecodeError);
    }
    let mut out: Vec<Record> = Vec::new();
    let mut i: usize = 0;
    while i < n
        invariant
            n == c.num_page_match_records,
            c.match_counts@.len() == n,
            c.title_offsets@.len() == n + 1,
            c.title_offsets@[0] <= c.title_values@.len(),
            i <= n,
            out@.len() == i,
            forall|k: int|
                0 <= k < i ==> #[trigger] c.title_offsets@[k] <= c.title_offsets@[k + 1]
                    && c.title_offsets@[k + 1] <= c.title_values@.len(),
            entries_of(out@) =~= decoded(*c).subrange(0, i as int),
        decreases n - i,
    {
        let start = c.title_offsets[i];
        let stop = c.title_offsets[i + 1];
        if start > stop || stop > c.title_values.len() as u64 {
            return Err(DecodeError);
        }
        let title = copy_bytes(&c.title_values, start as usize, stop as usize);
        let ghost before = out@;
        out.push(Record { title, count: c.match_counts[i] });
        assert(out@ == before.push(out@[i as int]));
        assert(entries_of(out@)[i as int] == decoded(*c)[i as int]);
        i += 1;
        assert(entries_of(out@) =~= decoded(*c).subrange(0, i as int)) by {
            assert forall|k: int| 0 <= k < i - 1 implies entries_of(out@)[k] == entries_of(before)[k] by {}
        }
    }
    assert(decoded(*c).subrange(0, n as int) =~= decoded(*c));
    Ok(out)
}

/// Parses one chunk: keeps its best match when it reaches `min_matches`,
/// decodes its reported list, and tells whether matches were lost.
pub fn parse_chunk(c: &ChunkResult, min_matches: u32) -> (p: ParsedChunk)
    ensures
        p.best matches Some(r) <==> c.max_word_matches >= min_matches,
        parsed_writes(p) == chunk_writes(*c, min_matches),
        p.decode_failed == !offsets_valid(*c),
        p.truncated == chunk_truncated(*c),
        p.data_size == c.data_size,
{
    let best = if c.max_word_matches >= min_matches {
        let title = copy_bytes(&c.max_page_title, 0, c.max_page_title.len());
        assert(c.max_page_title@.subrange(0, c.max_page_title@.len() as int) =~= c.max_page_title@);
        Some(Record { title, count: c.max_word_matches })
    } else {
        None
    };
    let (records, decode_failed) = match decode_list(c) {
        Ok(v) => (v, false),
        Err(_) => (Vec::new(), true),
    };
    assert(entries_of(records@) =~= list_entries(*c));
    let truncated = c.num_page_match_records < c.num_page_matches || decode_failed;
    ParsedChunk { best, records, decode_failed, truncated, data_size: c.data_size }
}

} // verus!
