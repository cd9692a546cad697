//! URL extraction: every `http(s)://...` match in the raw text, and the
//! deduplicated candidate set the pipeline probes.

use vstd::prelude::*;
use crate::dedup::{dedup_spec, dedup_urls, lemma_dedup_membership, lemma_dedup_idempotent};
use crate::scan::{url_matches, scan_urls};
use crate::text::str_chars;

verus! {

/// Every URL match of the text, in match order, duplicates included: a scheme
/// followed by the maximal run of non-whitespace, non-`)` characters.
pub fn extract_urls(text: &str) -> (r: Vec<String>)
    ensures
        r.deep_view() == url_matches(text@, 0),
{
    let cs = str_chars(text);
    scan_urls(cs.as_slice())
}

/// The candidate URL set: the matches with duplicates collapsed.
pub fn candidate_urls(text: &str) -> (r: Vec<String>)
    ensures
        r.deep_view() == dedup_spec(url_matches(text@, 0)),
{
    dedup_urls(extract_urls(text))
}

/// Extraction is idempotent on the deduplicated set: the candidate set of a
/// text is a function of the text alone, holds exactly the matched URLs, and
/// deduplicating it again changes nothing.
pub proof fn lemma_extraction_idempotent(t: Seq<char>)
    ensures
        dedup_spec(dedup_spec(url_matches(t, 0))) == dedup_spec(url_matches(t, 0)),
        forall|u: Seq<char>|
            dedup_spec(url_matches(t, 0)).contains(u) <==> url_matches(t, 0).contains(u),
{
    lemma_dedup_idempotent(url_matches(t, 0));
    lemma_dedup_membership(url_matches(t, 0));
}

} // verus!
