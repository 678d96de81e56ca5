//! Query parameters, their defaults, and the request-level outcome.
use vstd::prelude::*;
use crate::engine::{answers, merge_and_rank, AcceleratorResult, QueryAnswer};

verus! {

/// A query as the client sends it; absent fields take defaults.
pub struct QueryParameters {
    pub pattern: String,
    pub whole_words: Option<bool>,
    pub min_matches: Option<u32>,
    pub mode: Option<i32>,
    pub wiki: Option<String>,
}

/// A query with every default applied.
pub struct CompletedQueryParameters {
    pub pattern: String,
    pub whole_words: bool,
    pub min_matches: u32,
    pub mode: i32,
    pub wiki: String,
}

/// Why a request failed.
pub enum QueryError {
    /// The accelerator gave no result; carries its last diagnostic.
    AcceleratorUnavailable(String),
    /// A parameter is outside the supported values.
    UnsupportedQuery(String),
}

/// The one corpus language served.
pub open spec fn supported_wiki(w: Seq<char>) -> bool {
    w == seq!['e', 'n']
}

/// The text of a rejected corpus language: "unknown Wiki language".
pub open spec fn unsupported_wiki_message() -> Seq<char> {
    seq![
        'u', 'n', 'k', 'n', 'o', 'w', 'n', ' ', 'W', 'i', 'k', 'i', ' ', 'l', 'a', 'n', 'g', 'u',
        'a', 'g', 'e',
    ]
}

/// Applies the defaults (whole words off, a threshold of one match, mode
/// zero, the English corpus) and rejects any other corpus language.
pub fn complete_query(q: QueryParameters) -> (r: Result<CompletedQueryParameters, QueryError>)
    ensures
        r is Ok <==> (q.wiki matches Some(w) ==> supported_wiki(w@)),
        r matches Err(e) ==> (e matches QueryError::UnsupportedQuery(m) && m@
            == unsupported_wiki_message()),
        r matches Ok(c) ==> {
            &&& c.pattern@ == q.pattern@
            &&& c.whole_words == (q.whole_words matches Some(x) && x)
            &&& c.min_matches == (match q.min_matches {
                Some(x) => x,
                None => 1u32,
            })
            &&& c.mode == (match q.mode {
                Some(x) => x,
                None => 0i32,
            })
            &&& supported_wiki(c.wiki@)
        },
{
    proof {
        reveal_strlit("en");
    }
    let en = "en".to_owned();
    assert(en@ == seq!['e', 'n']);
    let wiki = match q.wiki {
        Some(w) => w,
        None => en.clone(),
    };
    assert(q.wiki matches Some(w) ==> wiki@ == w@);
    assert(q.wiki is None ==> supported_wiki(wiki@));
    if wiki != en {
        proof {
            reveal_strlit("unknown Wiki language");
        }
        let msg = "unknown Wiki language".to_owned();
        assert(msg@ =~= unsupported_wiki_message());
        return Err(QueryError::UnsupportedQuery(msg));
    }
    let whole_words = match q.whole_words {
        Some(x) => x,
        None => false,
    };
    let min_matches = match q.min_matches {
        Some(x) => x,
        None => 1,
    };
    let mode = match q.mode {
        Some(x) => x,
        None => 0,
    };
    Ok(CompletedQueryParameters { pattern: q.pattern, whole_words, min_matches, mode, wiki })
}

/// The settings handed to the accelerator for one run.
pub struct RunConfig {
    pub pattern: String,
    /// One for whole-word matching, zero otherwise.
    pub whole_words: i32,
    pub min_matches: u32,
    pub mode: i32,
}

/// The accelerator settings of a completed query.
pub fn run_config(q: &CompletedQueryParameters) -> (r: RunConfig)
    ensures
        r.pattern@ == q.pattern@,
        r.whole_words == (if q.whole_words {
            1i32
        } else {
            0i32
        }),
        r.min_matches == q.min_matches,
        r.mode == q.mode,
{
    RunConfig {
        pattern: q.pattern.clone(),
        whole_words: if q.whole_words {
            1
        } else {
            0
        },
        min_matches: q.min_matches,
        mode: q.mode,
    }
}

/// The full response to a query.
pub struct QueryResult {
    /// The query as it was run.
    pub query: CompletedQueryParameters,
    pub answer: QueryAnswer,
}

/// Answers a completed query from what the accelerator returned: no result
/// fails the request with the accelerator's last diagnostic, and nothing
/// else is produced.
pub fn answer_query(
    query: CompletedQueryParameters,
    result: Option<AcceleratorResult>,
    last_error: String,
) -> (r: Result<QueryResult, QueryError>)
    ensures
        r is Ok <==> result is Some,
        r matches Err(e) ==> (e matches QueryError::AcceleratorUnavailable(msg) && msg@
            == last_error@),
        r matches Ok(qr) ==> qr.query == query && (result matches Some(res) && answers(
            qr.answer,
            res,
            query.min_matches,
        )),
{
    match result {
        None => Err(QueryError::AcceleratorUnavailable(last_error)),
        Some(res) => {
            let answer = merge_and_rank(&res, query.min_matches);
            Ok(QueryResult { query, answer })
        },
    }
}

} // verus!
