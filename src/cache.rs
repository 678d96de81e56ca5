//! Keys and records of the thumbnail cache.
use vstd::prelude::*;
use vstd::string::StringExecFns;

verus! {

/// The lowercase hexadecimal SHA-1 digest of a text's UTF-8 bytes.
pub uninterp spec fn sha1_hex_of(s: Seq<char>) -> Seq<char>;

/// Relies on rust-crypto's `Sha1` with `Digest::input_str` and
/// `Digest::result_str`: the digest of the text's bytes, twenty bytes written
/// as forty hexadecimal characters.
#[verifier::external_body]
fn sha1_hex(s: &str) -> (r: String)
    ensures
        r@ == sha1_hex_of(s@),
        r@.len() == 40,
{
    let mut hasher = crypto::sha1::Sha1::new();
    crypto::digest::Digest::input_str(&mut hasher, s);
    crypto::digest::Digest::result_str(&mut hasher)
}

/// The separator between the two parts of a cache key.
pub open spec fn key_separator() -> Seq<char> {
    seq!['#', '#', '#']
}

/// The cache key of an article of a corpus: the digest of the corpus name,
/// the separator and the article title.
pub fn cache_key(wiki: &String, article: &String) -> (r: String)
    ensures
        r@ == sha1_hex_of(wiki@ + key_separator() + article@),
        r@.len() == 40,
{
    proof {
        reveal_strlit("###");
    }
    let sep = "###";
    assert(sep@ =~= key_separator());
    let mut joined = wiki.clone();
    joined.append(sep);
    let tail = article.as_str();
    joined.append(tail);
    assert(joined@ =~= wiki@ + key_separator() + article@);
    let whole = joined.as_str();
    assert(whole@ == joined@);
    sha1_hex(whole)
}

/// A cached thumbnail: the image bytes and the response headers to send.
pub struct ImageRecord {
    pub data: Vec<u8>,
    pub headers: Vec<(String, String)>,
}

/// What fetching a thumbnail from its source gave.
pub enum FetchOutcome {
    /// An image was found.
    Found(ImageRecord),
    /// The source answered, but has no image for the article.
    NotFound,
    /// The source could not be queried.
    FetchFailed(String),
}

/// The header name of the placeholder's content type.
pub open spec fn content_type_name() -> Seq<char> {
    seq!['C', 'o', 'n', 't', 'e', 'n', 't', '-', 'T', 'y', 'p', 'e']
}

/// The content type of the placeholder image.
pub open spec fn png_type() -> Seq<char> {
    seq!['i', 'm', 'a', 'g', 'e', '/', 'p', 'n', 'g']
}

/// The record to serve and to store under the article's key: the fetched
/// image when there is one, else the placeholder image, which is stored too
/// so that a failure is not fetched again.
pub fn record_to_cache(outcome: FetchOutcome, placeholder: Vec<u8>) -> (r: ImageRecord)
    ensures
        outcome matches FetchOutcome::Found(rec) ==> r.data@ == rec.data@ && r.headers@
            == rec.headers@,
        !(outcome is Found) ==> {
            &&& r.data@ == placeholder@
            &&& r.headers@.len() == 1
            &&& r.headers@[0].0@ == content_type_name()
            &&& r.headers@[0].1@ == png_type()
        },
{
    match outcome {
        FetchOutcome::Found(rec) => rec,
        _ => {
            proof {
                reveal_strlit("Content-Type");
                reveal_strlit("image/png");
            }
            let mut headers: Vec<(String, String)> = Vec::new();
            headers.push(("Content-Type".to_owned(), "image/png".to_owned()));
            ImageRecord { data: placeholder, headers }
        },
    }
}

} // verus!
