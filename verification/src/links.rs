//! Extraction of validated deep links from raw process-invocation arguments:
//! the validation predicate shared with the pending queue, the per-argument
//! extraction step, and the deduplicating extraction over a whole argument
//! vector.

use vstd::prelude::*;
use vstd::string::StrSliceExecFns;
use crate::text::{
    contains_pattern, contains_seq, find_from, find_pattern, is_space, lemma_find_from,
    matches_at, occurs_at, strip_layer_spec, strip_quote_layer, trim_spaces, trim_spec,
};

verus! {

/// Longest a link may be, in characters, after trimming.
pub const MAX_EXTERNAL_LINK_LENGTH: usize = 4096;

/// The scheme marker that announces a deep link inside an argument.
pub open spec fn scheme_marker() -> Seq<char> {
    "youwee://"@
}

/// The prefix every valid link must start with after trimming.
pub open spec fn download_prefix() -> Seq<char> {
    "youwee://download"@
}

/// The version marker a valid link must contain.
pub open spec fn version_marker() -> Seq<char> {
    "v=1"@
}

/// The payload marker a valid link must contain.
pub open spec fn payload_marker() -> Seq<char> {
    "url="@
}

/// The validation predicate: after trimming, a link is non-empty, no longer
/// than `MAX_EXTERNAL_LINK_LENGTH` characters, starts with the download
/// prefix, and contains both the version and the payload marker.
pub open spec fn valid_link(s: Seq<char>) -> bool {
    let t = trim_spec(s);
    &&& t.len() > 0
    &&& t.len() <= MAX_EXTERNAL_LINK_LENGTH
    &&& occurs_at(t, download_prefix(), 0)
    &&& contains_seq(t, version_marker())
    &&& contains_seq(t, payload_marker())
}

/// Decides the validation predicate `valid_link`.
pub fn is_valid_external_link(link: &str) -> (r: bool)
    ensures
        r == valid_link(link@),
{
    let trimmed = trim_spaces(link);
    let n = trimmed.unicode_len();
    if n == 0 || n > MAX_EXTERNAL_LINK_LENGTH {
        return false;
    }
    if !matches_at(trimmed, 0, "youwee://download") {
        return false;
    }
    contains_pattern(trimmed, "v=1") && contains_pattern(trimmed, "url=")
}

/// An argument after cleaning: surrounding whitespace trimmed, then one layer
/// of surrounding double quotes, then one layer of surrounding single quotes.
pub open spec fn clean_arg_spec(s: Seq<char>) -> Seq<char> {
    strip_layer_spec(strip_layer_spec(trim_spec(s), '"'), '\'')
}

/// The link extracted from one raw argument, if any: a cleaned argument that
/// starts with the scheme marker is validated as a whole; otherwise the tail
/// from the first embedded scheme marker, with one layer of surrounding
/// double quotes removed, is validated.
pub open spec fn extract_spec(arg: Seq<char>) -> Option<Seq<char>> {
    let t = clean_arg_spec(arg);
    if occurs_at(t, scheme_marker(), 0) {
        if valid_link(t) {
            Some(t)
        } else {
            None
        }
    } else {
        match find_from(t, scheme_marker(), 0) {
            Some(k) => {
                let c = strip_layer_spec(t.subrange(k as int, t.len() as int), '"');
                if valid_link(c) {
                    Some(c)
                } else {
                    None
                }
            },
            None => None,
        }
    }
}

/// Extracts the deep link carried by one raw argument, as `extract_spec`
/// describes; `None` if the argument carries none.
pub fn extract_external_link_from_arg(arg: &str) -> (r: Option<String>)
    ensures
        match r {
            Some(link) => extract_spec(arg@) == Some(link@),
            None => extract_spec(arg@) is None,
        },
{
    let cleaned = strip_quote_layer(strip_quote_layer(trim_spaces(arg), '"'), '\'');
    if matches_at(cleaned, 0, "youwee://") {
        if is_valid_external_link(cleaned) {
            return Some(cleaned.to_owned());
        }
        return None;
    }
    match find_pattern(cleaned, "youwee://") {
        Some(start) => {
            proof {
                lemma_find_from(cleaned@, "youwee://"@, 0);
            }
            let tail = cleaned.substring_char(start, cleaned.unicode_len());
            let candidate = strip_quote_layer(tail, '"');
            if is_valid_external_link(candidate) {
                Some(candidate.to_owned())
            } else {
                None
            }
        },
        None => None,
    }
}

/// No two entries of `s` are equal.
pub open spec fn distinct_seqs(s: Seq<Seq<char>>) -> bool {
    forall|i: int, j: int| 0 <= i < j < s.len() ==> s[i] != s[j]
}

/// The links extracted from a whole argument vector: per-argument extraction
/// in order, keeping only the first occurrence of each link.
pub open spec fn extract_all_spec(args: Seq<Seq<char>>) -> Seq<Seq<char>>
    decreases args.len(),
{
    if args.len() == 0 {
        Seq::empty()
    } else {
        let prev = extract_all_spec(args.drop_last());
        match extract_spec(args.last()) {
            Some(link) => if prev.contains(link) {
                prev
            } else {
                prev.push(link)
            },
            None => prev,
        }
    }
}

/// Whether some entry of `v` views to the same characters as `s`.
pub(crate) fn contains_string(v: &Vec<String>, s: &String) -> (r: bool)
    ensures
        r == v.deep_view().contains(s@),
{
    let n = v.len();
    let mut i: usize = 0;
    while i < n
        invariant
            i <= n,
            n == v@.len(),
            forall|k: int| 0 <= k < i ==> v.deep_view()[k] != s@,
        decreases n - i,
    {
        if v[i] == *s {
            proof {
                assert(v.deep_view()[i as int] == s@);
            }
            return true;
        }
        i = i + 1;
    }
    false
}

/// Extracts every deep link from the argument vector, in first-seen order and
/// without duplicates, as `extract_all_spec` describes.
pub fn extract_external_links_from_argv(argv: &[String]) -> (links: Vec<String>)
    ensures
        links.deep_view() == extract_all_spec(argv.deep_view()),
{
    let mut links: Vec<String> = Vec::new();
    let n = argv.len();
    proof {
        assert(links.deep_view() =~= extract_all_spec(argv.deep_view().take(0)));
    }
    let mut idx: usize = 0;
    while idx < n
        invariant
            idx <= n,
            n == argv@.len(),
            links.deep_view() == extract_all_spec(argv.deep_view().take(idx as int)),
        decreases n - idx,
    {
        let ghost prev = links.deep_view();
        match extract_external_link_from_arg(argv[idx].as_str()) {
            Some(link) => {
                if !contains_string(&links, &link) {
                    links.push(link);
                    proof {
                        assert(links.deep_view() =~= prev.push(links@.last()@));
                    }
                }
            },
            None => {},
        }
        proof {
            let dv = argv.deep_view();
            assert(dv.take(idx + 1).drop_last() =~= dv.take(idx as int));
            assert(dv.take(idx + 1).last() == argv@[idx as int]@);
        }
        idx = idx + 1;
    }
    proof {
        assert(argv.deep_view().take(n as int) =~= argv.deep_view());
    }
    links
}

/// Soundness of extraction: every string that extraction outputs satisfies
/// the validation predicate.
pub proof fn lemma_extraction_valid(args: Seq<Seq<char>>)
    ensures
        forall|i: int|
            0 <= i < extract_all_spec(args).len() ==> valid_link(
                #[trigger] extract_all_spec(args)[i],
            ),
    decreases args.len(),
{
    if args.len() > 0 {
        lemma_extraction_valid(args.drop_last());
        let prev = extract_all_spec(args.drop_last());
        let whole = extract_all_spec(args);
        match extract_spec(args.last()) {
            Some(link) => {
                assert(valid_link(link));
                if !prev.contains(link) {
                    assert(whole == prev.push(link));
                    assert(forall|i: int|
                        0 <= i < whole.len() ==> valid_link(#[trigger] whole[i]));
                }
            },
            None => {},
        }
    }
}

/// Extraction output has no duplicate entries.
pub proof fn lemma_extraction_distinct(args: Seq<Seq<char>>)
    ensures
        distinct_seqs(extract_all_spec(args)),
    decreases args.len(),
{
    if args.len() > 0 {
        lemma_extraction_distinct(args.drop_last());
    }
}

/// Extraction preserves first-seen order: extending the argument vector only
/// ever appends to the extraction output.
pub proof fn lemma_extraction_prefix(args: Seq<Seq<char>>, more: Seq<Seq<char>>)
    ensures
        extract_all_spec(args).is_prefix_of(extract_all_spec(args + more)),
    decreases more.len(),
{
    if more.len() == 0 {
        assert(args + more =~= args);
    } else {
        lemma_extraction_prefix(args, more.drop_last());
        assert((args + more).drop_last() =~= args + more.drop_last());
        let prev = extract_all_spec(args + more.drop_last());
        let whole = extract_all_spec(args + more);
        assert(prev.is_prefix_of(whole)) by {
            assert((args + more).len() > 0);
            match extract_spec((args + more).last()) {
                Some(link) => {
                    if !prev.contains(link) {
                        assert(whole == prev.push(link));
                        assert(prev =~= whole.subrange(0, prev.len() as int));
                    }
                },
                None => {},
            }
        }
        assert(extract_all_spec(args) =~= whole.subrange(0, extract_all_spec(args).len() as int));
    }
}

} // verus!
