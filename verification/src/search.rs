//! Searching layouts by name: case-insensitive matching that ranks names with earlier matches
//! first.

use std::cmp::Ordering;
use std::ops::Range;

use aho_corasick::AhoCorasick;
use vstd::prelude::*;
use vstd::utf8::encode_utf8;

use crate::text::{
    ascii_lowercase_chars, chars_of, lemma_str_less_total, lemma_str_less_transitive,
    spec_ascii_lowercase, spec_str_less, str_equals, str_less, string_from_chars, to_lowercase,
    spec_lowercase,
};

verus! {

/// The start and end of each range.
pub open spec fn spec_bounds(ranges: Seq<Range<usize>>) -> Seq<(usize, usize)> {
    ranges.map_values(|r: Range<usize>| (r.start, r.end))
}

/// Whether `aho_corasick` builds an automaton for the single pattern `pattern`
/// (`AhoCorasick::new`). The source refuses a pattern set only when the automaton would outgrow
/// its internal size limits; where those limits lie is left unstated.
pub uninterp spec fn aho_corasick_builds(pattern: Seq<char>) -> bool;

/// Whether the bytes `pattern` occur in `haystack` at byte `at`.
pub open spec fn spec_occurs_at(pattern: Seq<u8>, haystack: Seq<u8>, at: int) -> bool {
    &&& 0 <= at
    &&& at + pattern.len() <= haystack.len()
    &&& haystack.subrange(at, at + pattern.len()) == pattern
}

/// The non-overlapping occurrences of `pattern` in `haystack` from byte `from` on, leftmost
/// first: after an occurrence the search resumes where it ended, and one byte further when it
/// was empty.
pub open spec fn spec_occurrences_from(pattern: Seq<u8>, haystack: Seq<u8>, from: int) -> Seq<(usize, usize)>
    decreases haystack.len() + 1 - from,
{
    if from < 0 || from > haystack.len() {
        Seq::empty()
    } else if spec_occurs_at(pattern, haystack, from) {
        let next = if pattern.len() == 0 { from + 1 } else { from + pattern.len() };
        seq![(from as usize, (from + pattern.len()) as usize)] + spec_occurrences_from(pattern, haystack, next)
    } else {
        spec_occurrences_from(pattern, haystack, from + 1)
    }
}

/// The byte ranges of the leftmost non-overlapping occurrences of `pattern` in `haystack`, both
/// taken as UTF-8.
pub open spec fn spec_occurrences(pattern: Seq<char>, haystack: Seq<char>) -> Seq<(usize, usize)> {
    spec_occurrences_from(encode_utf8(pattern), encode_utf8(haystack), 0)
}

/// What a search for `pattern` in `haystack` reports: its occurrences, or `None` when the
/// automaton cannot be built.
pub open spec fn spec_search_matches(pattern: Seq<char>, haystack: Seq<char>) -> Option<Seq<(usize, usize)>> {
    if aho_corasick_builds(pattern) {
        Some(spec_occurrences(pattern, haystack))
    } else {
        None
    }
}

/// Finds the occurrences of `pattern` in `haystack` with `aho_corasick`: `AhoCorasick::new` with
/// the single pattern (standard match semantics), then `find_iter`, which reports the
/// non-overlapping matches from left to right and steps past an empty match that ends where the
/// previous one did. With one pattern, the match found first from a position is the one that
/// starts first. `None` when the automaton cannot be built.
#[verifier::external_body]
fn find_matches(pattern: &str, haystack: &str) -> (r: Option<Vec<Range<usize>>>)
    ensures
        r is Some == aho_corasick_builds(pattern@),
        r matches Some(v) ==> spec_bounds(v@) == spec_occurrences(pattern@, haystack@),
{
    let matcher = AhoCorasick::new([pattern]).ok()?;
    Some(matcher.find_iter(haystack).map(|found| found.range()).collect())
}

/// How two lists of matches order: by the start of each paired match, then by the number of
/// matches; negative, zero or positive.
pub open spec fn match_order(a: Seq<(usize, usize)>, b: Seq<(usize, usize)>) -> int
    decreases a.len(),
{
    if a.len() == 0 || b.len() == 0 {
        a.len() - b.len()
    } else if a[0].0 != b[0].0 {
        a[0].0 - b[0].0
    } else {
        match_order(a.drop_first(), b.drop_first())
    }
}

proof fn lemma_match_order_antisymmetric(a: Seq<(usize, usize)>, b: Seq<(usize, usize)>)
    ensures
        (match_order(a, b) < 0) == (match_order(b, a) > 0),
        (match_order(a, b) == 0) == (match_order(b, a) == 0),
    decreases a.len(),
{
    if a.len() > 0 && b.len() > 0 && a[0].0 == b[0].0 {
        lemma_match_order_antisymmetric(a.drop_first(), b.drop_first());
    }
}

proof fn lemma_match_order_transitive(a: Seq<(usize, usize)>, b: Seq<(usize, usize)>, c: Seq<(usize, usize)>)
    requires
        match_order(a, b) <= 0,
        match_order(b, c) <= 0,
    ensures
        match_order(a, c) <= 0,
        match_order(a, b) < 0 || match_order(b, c) < 0 ==> match_order(a, c) < 0,
    decreases a.len(),
{
    if a.len() > 0 && b.len() > 0 && c.len() > 0 && a[0].0 == b[0].0 && b[0].0 == c[0].0 {
        lemma_match_order_transitive(a.drop_first(), b.drop_first(), c.drop_first());
    }
}

/// The sign of [`match_order`] for two lists of matches: -1, 0 or 1.
fn match_order_sign(a: &[Range<usize>], b: &[Range<usize>]) -> (r: i8)
    ensures
        (r < 0) == (match_order(spec_bounds(a@), spec_bounds(b@)) < 0),
        (r == 0) == (match_order(spec_bounds(a@), spec_bounds(b@)) == 0),
        (r > 0) == (match_order(spec_bounds(a@), spec_bounds(b@)) > 0),
{
    let ghost sa = spec_bounds(a@);
    let ghost sb = spec_bounds(b@);
    let mut k: usize = 0;
    assert(sa.subrange(0, sa.len() as int) =~= sa);
    assert(sb.subrange(0, sb.len() as int) =~= sb);
    while k < a.len() && k < b.len()
        invariant
            k <= a@.len(),
            k <= b@.len(),
            sa == spec_bounds(a@),
            sb == spec_bounds(b@),
            match_order(sa, sb) == match_order(
                sa.subrange(k as int, sa.len() as int),
                sb.subrange(k as int, sb.len() as int),
            ),
        decreases a.len() - k,
    {
        let ghost ra = sa.subrange(k as int, sa.len() as int);
        let ghost rb = sb.subrange(k as int, sb.len() as int);
        assert(ra[0] == sa[k as int] && rb[0] == sb[k as int]);
        if a[k].start < b[k].start {
            return -1;
        }
        if a[k].start > b[k].start {
            return 1;
        }
        assert(ra.drop_first() =~= sa.subrange(k + 1, sa.len() as int));
        assert(rb.drop_first() =~= sb.subrange(k + 1, sb.len() as int));
        k += 1;
    }
    if a.len() < b.len() {
        -1
    } else if a.len() > b.len() {
        1
    } else {
        0
    }
}

/// Compares two lists of matches: earlier paired match starts first, then fewer matches first.
pub fn compare_matches(a: &[Range<usize>], b: &[Range<usize>]) -> (r: Ordering)
    ensures
        (r == Ordering::Less) == (match_order(spec_bounds(a@), spec_bounds(b@)) < 0),
        (r == Ordering::Equal) == (match_order(spec_bounds(a@), spec_bounds(b@)) == 0),
        (r == Ordering::Greater) == (match_order(spec_bounds(a@), spec_bounds(b@)) > 0),
{
    let sign = match_order_sign(a, b);
    if sign < 0 {
        Ordering::Less
    } else if sign == 0 {
        Ordering::Equal
    } else {
        Ordering::Greater
    }
}

/// A layout name that matched a search: its position among the searched names and the byte
/// ranges of the matches in its lowercased form.
#[derive(Debug)]
pub struct NameSearchResult {
    pub index: usize,
    pub matches: Vec<Range<usize>>,
}

/// The matches reported for name `i`: none for an empty query, otherwise those of the ASCII
/// lowercased query in the ASCII lowercased name, or `None` when the matcher cannot be built.
pub open spec fn spec_name_matches(names: Seq<String>, query: Seq<char>, i: int) -> Option<Seq<(usize, usize)>> {
    if query.len() == 0 {
        Some(Seq::empty())
    } else {
        spec_search_matches(spec_ascii_lowercase(query), spec_ascii_lowercase(names[i]@))
    }
}

/// Whether name `i` is a search result: every name is for an empty query, otherwise the names
/// with at least one match.
pub open spec fn spec_name_included(names: Seq<String>, query: Seq<char>, i: int) -> bool {
    spec_name_matches(names, query, i) matches Some(m) && (query.len() == 0 || m.len() > 0)
}

/// Whether the search failed because the matcher could not be built.
pub open spec fn spec_search_failed(names: Seq<String>, query: Seq<char>) -> bool {
    query.len() > 0 && exists|i: int| 0 <= i < names.len() && #[trigger] spec_name_matches(names, query, i) is None
}

/// Whether result `x` ranks before result `y`: earlier matches first, then by name, then by
/// position among the searched names.
pub open spec fn spec_result_before(names: Seq<String>, x: NameSearchResult, y: NameSearchResult) -> bool {
    let o = match_order(spec_bounds(x.matches@), spec_bounds(y.matches@));
    ||| o < 0
    ||| (o == 0 && spec_str_less(names[x.index as int]@, names[y.index as int]@))
    ||| (o == 0 && names[x.index as int]@ == names[y.index as int]@ && x.index < y.index)
}

/// Whether `results` is the outcome of searching `names` for `query`: every included name once,
/// with its matches, ranked; nothing when the search failed.
pub open spec fn spec_is_name_search(names: Seq<String>, query: Seq<char>, results: Seq<NameSearchResult>) -> bool {
    if spec_search_failed(names, query) {
        results.len() == 0
    } else {
        &&& forall|k: int|
            0 <= k < results.len() ==> {
                &&& (#[trigger] results[k]).index < names.len()
                &&& spec_name_included(names, query, results[k].index as int)
                &&& spec_name_matches(names, query, results[k].index as int) == Some(
                    spec_bounds(results[k].matches@),
                )
            }
        &&& forall|i: int|
            0 <= i < names.len() && #[trigger] spec_name_included(names, query, i) ==> exists|k: int|
                0 <= k < results.len() && results[k].index == i
        &&& forall|a: int, b: int|
            0 <= a < b < results.len() ==> spec_result_before(names, results[a], results[b])
    }
}

proof fn lemma_before_total(names: Seq<String>, x: NameSearchResult, y: NameSearchResult)
    requires
        x.index != y.index,
    ensures
        spec_result_before(names, x, y) || spec_result_before(names, y, x),
        !(spec_result_before(names, x, y) && spec_result_before(names, y, x)),
{
    lemma_match_order_antisymmetric(spec_bounds(x.matches@), spec_bounds(y.matches@));
    lemma_str_less_total(names[x.index as int]@, names[y.index as int]@);
}

proof fn lemma_before_transitive(
    names: Seq<String>,
    x: NameSearchResult,
    y: NameSearchResult,
    z: NameSearchResult,
)
    requires
        spec_result_before(names, x, y),
        spec_result_before(names, y, z),
    ensures
        spec_result_before(names, x, z),
{
    let bx = spec_bounds(x.matches@);
    let by = spec_bounds(y.matches@);
    let bz = spec_bounds(z.matches@);
    lemma_match_order_transitive(bx, by, bz);
    lemma_match_order_antisymmetric(bx, by);
    lemma_match_order_antisymmetric(by, bz);
    lemma_match_order_antisymmetric(bx, bz);
    if match_order(bx, by) == 0 && match_order(by, bz) == 0 {
        let nx = names[x.index as int]@;
        let ny = names[y.index as int]@;
        let nz = names[z.index as int]@;
        if spec_str_less(nx, ny) && spec_str_less(ny, nz) {
            lemma_str_less_transitive(nx, ny, nz);
        }
    }
}

/// Returns whether result `x` ranks before result `y`.
fn result_before(names: &[String], x: &NameSearchResult, y: &NameSearchResult) -> (r: bool)
    requires
        x.index < names@.len(),
        y.index < names@.len(),
    ensures
        r == spec_result_before(names@, *x, *y),
{
    let o = match_order_sign(x.matches.as_slice(), y.matches.as_slice());
    if o != 0 {
        return o < 0;
    }
    let nx = chars_of(names[x.index].as_str());
    let ny = chars_of(names[y.index].as_str());
    if str_less(nx.as_slice(), ny.as_slice()) {
        return true;
    }
    if str_less(ny.as_slice(), nx.as_slice()) {
        proof {
            lemma_str_less_total(nx@, ny@);
        }
        return false;
    }
    proof {
        lemma_str_less_total(nx@, ny@);
    }
    x.index < y.index
}

/// Inserts result `x`, whose position exceeds every ranked result's, at its rank.
fn insert_ranked(names: &[String], results: &mut Vec<NameSearchResult>, x: NameSearchResult)
    requires
        x.index < names@.len(),
        forall|k: int| 0 <= k < old(results)@.len() ==> (#[trigger] old(results)@[k]).index < x.index,
        forall|a: int, b: int|
            0 <= a < b < old(results)@.len() ==> spec_result_before(names@, old(results)@[a], old(results)@[b]),
    ensures
        exists|p: int| 0 <= p <= old(results)@.len() && final(results)@ == old(results)@.insert(p, x),
        forall|a: int, b: int|
            0 <= a < b < final(results)@.len() ==> spec_result_before(names@, final(results)@[a], final(results)@[b]),
{
    let ghost before = results@;
    let mut p: usize = 0;
    while p < results.len() && !result_before(names, &x, &results[p])
        invariant
            p <= results@.len(),
            results@ == before,
            x.index < names@.len(),
            forall|k: int| 0 <= k < before.len() ==> (#[trigger] before[k]).index < x.index,
            forall|q: int| 0 <= q < p ==> !spec_result_before(names@, x, #[trigger] before[q]),
        decreases results.len() - p,
    {
        p += 1;
    }
    proof {
        assert forall|q: int| 0 <= q < p implies spec_result_before(names@, #[trigger] before[q], x) by {
            lemma_before_total(names@, before[q], x);
        }
        if p < before.len() {
            assert forall|q: int| p <= q < before.len() implies spec_result_before(
                names@,
                x,
                #[trigger] before[q],
            ) by {
                if q > p {
                    lemma_before_transitive(names@, x, before[p as int], before[q]);
                }
            }
        }
    }
    results.insert(p, x);
    proof {
        let after = results@;
        assert forall|a: int, b: int| 0 <= a < b < after.len() implies spec_result_before(
            names@,
            after[a],
            after[b],
        ) by {
            if a < p && b < p {
                assert(after[a] == before[a] && after[b] == before[b]);
            } else if a < p && b == p {
                assert(after[a] == before[a]);
            } else if a < p {
                assert(after[a] == before[a] && after[b] == before[b - 1]);
            } else if a == p {
                assert(after[b] == before[b - 1]);
            } else {
                assert(after[a] == before[a - 1] && after[b] == before[b - 1]);
            }
        }
    }
}

/// Filters layout names case-insensitively and ranks earlier matches first, then by name.
///
/// An empty query lists every name, ranked by name. Otherwise a name is listed when the ASCII
/// lowercased query occurs in its ASCII lowercased form; nothing is listed when the matcher
/// cannot be built.
pub fn search_names(names: &[String], query: &str) -> (results: Vec<NameSearchResult>)
    ensures
        spec_is_name_search(names@, query@, results@),
{
    let n = names.len();
    let query_chars = chars_of(query);
    let lowered = string_from_chars(ascii_lowercase_chars(query_chars.as_slice()).as_slice());
    let empty = query_chars.len() == 0;
    let mut results: Vec<NameSearchResult> = Vec::new();
    let mut i: usize = 0;
    while i < n
        invariant
            i <= n,
            n == names@.len(),
            query_chars@ == query@,
            lowered@ == spec_ascii_lowercase(query@),
            empty == (query@.len() == 0),
            forall|k: int|
                0 <= k < results@.len() ==> {
                    &&& (#[trigger] results@[k]).index < i
                    &&& spec_name_included(names@, query@, results@[k].index as int)
                    &&& spec_name_matches(names@, query@, results@[k].index as int) == Some(
                        spec_bounds(results@[k].matches@),
                    )
                },
            forall|j: int|
                0 <= j < i && #[trigger] spec_name_included(names@, query@, j) ==> exists|k: int|
                    0 <= k < results@.len() && results@[k].index == j,
            forall|j: int| 0 <= j < i ==> !(#[trigger] spec_name_matches(names@, query@, j) is None),
            forall|a: int, b: int|
                0 <= a < b < results@.len() ==> spec_result_before(names@, results@[a], results@[b]),
        decreases n - i,
    {
        let matches: Vec<Range<usize>> = if empty {
            Vec::new()
        } else {
            let name_chars = chars_of(names[i].as_str());
            let haystack = string_from_chars(ascii_lowercase_chars(name_chars.as_slice()).as_slice());
            match find_matches(lowered.as_str(), haystack.as_str()) {
                Some(m) => m,
                None => {
                    proof {
                        assert(spec_name_matches(names@, query@, i as int) is None);
                    }
                    return Vec::new();
                },
            }
        };
        proof {
            if empty {
                assert(spec_bounds(matches@) =~= Seq::<(usize, usize)>::empty());
            }
        }
        if empty || matches.len() > 0 {
            let ghost old_results = results@;
            let entry = NameSearchResult { index: i, matches };
            insert_ranked(names, &mut results, entry);
            proof {
                let p = choose|p: int| 0 <= p <= old_results.len() && results@ == old_results.insert(p, entry);
                assert forall|k: int| 0 <= k < results@.len() implies {
                    &&& (#[trigger] results@[k]).index < i + 1
                    &&& spec_name_included(names@, query@, results@[k].index as int)
                    &&& spec_name_matches(names@, query@, results@[k].index as int) == Some(
                        spec_bounds(results@[k].matches@),
                    )
                } by {
                    if k < p {
                        assert(results@[k] == old_results[k]);
                    } else if k > p {
                        assert(results@[k] == old_results[k - 1]);
                    }
                }
                assert forall|j: int|
                    0 <= j < i + 1 && #[trigger] spec_name_included(names@, query@, j) implies exists|k: int|
                    0 <= k < results@.len() && results@[k].index == j by {
                    if j == i as int {
                        assert(results@[p].index == j);
                    } else {
                        let k = choose|k: int| 0 <= k < old_results.len() && old_results[k].index == j;
                        if k < p {
                            assert(results@[k] == old_results[k]);
                        } else {
                            assert(results@[k + 1] == old_results[k]);
                        }
                    }
                }
            }
        }
        i += 1;
    }
    results
}


/// Finds a pattern in texts, case-insensitively: the pattern is kept in Unicode lowercase.
#[derive(Debug, Clone)]
pub struct TextFinder {
    pattern: String,
}

/// The matches of finder pattern `pattern` (already lowercased) in text `text`: those of the
/// pattern in the Unicode lowercased text, or `None` when the matcher cannot be built.
pub open spec fn spec_found(pattern: Seq<char>, text: Seq<char>) -> Option<Seq<(usize, usize)>> {
    spec_search_matches(pattern, spec_lowercase(text))
}

/// Whether text `i` is found: the matcher can be built and reports at least one match.
pub open spec fn spec_text_found(pattern: Seq<char>, texts: Seq<String>, i: int) -> bool {
    spec_found(pattern, texts[i]@) matches Some(m) && m.len() > 0
}

/// Whether found text `x` ranks before found text `y`: earlier matches first, then the earlier
/// text.
pub open spec fn spec_found_before(x: NameSearchResult, y: NameSearchResult) -> bool {
    let o = match_order(spec_bounds(x.matches@), spec_bounds(y.matches@));
    ||| o < 0
    ||| (o == 0 && x.index < y.index)
}

/// Whether `results` lists every text that `pattern` is found in, once, with its matches,
/// ranked by [`spec_found_before`].
pub open spec fn spec_is_found_list(pattern: Seq<char>, texts: Seq<String>, results: Seq<NameSearchResult>) -> bool {
    &&& forall|k: int|
        0 <= k < results.len() ==> {
            &&& (#[trigger] results[k]).index < texts.len()
            &&& spec_text_found(pattern, texts, results[k].index as int)
            &&& spec_found(pattern, texts[results[k].index as int]@) == Some(spec_bounds(results[k].matches@))
        }
    &&& forall|i: int|
        0 <= i < texts.len() && #[trigger] spec_text_found(pattern, texts, i) ==> exists|k: int|
            0 <= k < results.len() && results[k].index == i
    &&& forall|a: int, b: int| 0 <= a < b < results.len() ==> spec_found_before(results[a], results[b])
}

/// Inserts found text `x`, whose position exceeds every listed text's, at its rank.
fn insert_found(results: &mut Vec<NameSearchResult>, x: NameSearchResult)
    requires
        forall|k: int| 0 <= k < old(results)@.len() ==> (#[trigger] old(results)@[k]).index < x.index,
        forall|a: int, b: int|
            0 <= a < b < old(results)@.len() ==> spec_found_before(old(results)@[a], old(results)@[b]),
    ensures
        exists|p: int| 0 <= p <= old(results)@.len() && final(results)@ == old(results)@.insert(p, x),
        forall|a: int, b: int|
            0 <= a < b < final(results)@.len() ==> spec_found_before(final(results)@[a], final(results)@[b]),
{
    let ghost before = results@;
    let mut p: usize = 0;
    while p < results.len() && match_order_sign(results[p].matches.as_slice(), x.matches.as_slice()) <= 0
        invariant
            p <= results@.len(),
            results@ == before,
            forall|k: int| 0 <= k < before.len() ==> (#[trigger] before[k]).index < x.index,
            forall|q: int|
                0 <= q < p ==> match_order(spec_bounds((#[trigger] before[q]).matches@), spec_bounds(x.matches@))
                    <= 0,
        decreases results.len() - p,
    {
        p += 1;
    }
    proof {
        let bx = spec_bounds(x.matches@);
        assert forall|q: int| 0 <= q < p implies spec_found_before(#[trigger] before[q], x) by {}
        if p < before.len() {
            assert forall|q: int| p <= q < before.len() implies spec_found_before(x, #[trigger] before[q]) by {
                let bp = spec_bounds(before[p as int].matches@);
                let bq = spec_bounds(before[q].matches@);
                lemma_match_order_antisymmetric(bp, bx);
                if q > p {
                    assert(spec_found_before(before[p as int], before[q]));
                    lemma_match_order_antisymmetric(bp, bq);
                    lemma_match_order_transitive(bx, bp, bq);
                }
            }
        }
    }
    results.insert(p, x);
    proof {
        let after = results@;
        assert forall|a: int, b: int| 0 <= a < b < after.len() implies spec_found_before(after[a], after[b]) by {
            if a < p && b < p {
                assert(after[a] == before[a] && after[b] == before[b]);
            } else if a < p && b == p {
                assert(after[a] == before[a]);
            } else if a < p {
                assert(after[a] == before[a] && after[b] == before[b - 1]);
            } else if a == p {
                assert(after[b] == before[b - 1]);
            } else {
                assert(after[a] == before[a - 1] && after[b] == before[b - 1]);
            }
        }
    }
}

impl TextFinder {
    /// The pattern, in Unicode lowercase.
    pub closed spec fn view_pattern(&self) -> Seq<char> {
        self.pattern@
    }

    /// Creates a finder for `pattern`.
    pub fn new(pattern: &str) -> (f: Self)
        ensures
            f.view_pattern() == spec_lowercase(pattern@),
    {
        TextFinder { pattern: to_lowercase(pattern) }
    }

    /// Returns whether the finder was made for a pattern with the same lowercase form.
    pub fn has_same_pattern(&self, pattern: &str) -> (r: bool)
        ensures
            r == (self.view_pattern() == spec_lowercase(pattern@)),
    {
        let lowered = to_lowercase(pattern);
        str_equals(self.pattern.as_str(), lowered.as_str())
    }

    /// Finds the pattern in each text, case-insensitively, and lists the texts that it occurs
    /// in, ranked by their matches (earlier first); texts with equal matches keep their order.
    pub fn find_in(&self, texts: &[String]) -> (results: Vec<NameSearchResult>)
        ensures
            spec_is_found_list(self.view_pattern(), texts@, results@),
    {
        let n = texts.len();
        let mut results: Vec<NameSearchResult> = Vec::new();
        let mut i: usize = 0;
        while i < n
            invariant
                i <= n,
                n == texts@.len(),
                forall|k: int|
                    0 <= k < results@.len() ==> {
                        &&& (#[trigger] results@[k]).index < i
                        &&& spec_text_found(self.view_pattern(), texts@, results@[k].index as int)
                        &&& spec_found(self.view_pattern(), texts@[results@[k].index as int]@) == Some(
                            spec_bounds(results@[k].matches@),
                        )
                    },
                forall|j: int|
                    0 <= j < i && #[trigger] spec_text_found(self.view_pattern(), texts@, j) ==> exists|k: int|
                        0 <= k < results@.len() && results@[k].index == j,
                forall|a: int, b: int|
                    0 <= a < b < results@.len() ==> spec_found_before(results@[a], results@[b]),
            decreases n - i,
        {
            let haystack = to_lowercase(texts[i].as_str());
            if let Some(matches) = find_matches(self.pattern.as_str(), haystack.as_str()) {
                if matches.len() > 0 {
                    let ghost old_results = results@;
                    let entry = NameSearchResult { index: i, matches };
                    insert_found(&mut results, entry);
                    proof {
                        let p = choose|p: int| 0 <= p <= old_results.len() && results@ == old_results.insert(p, entry);
                        assert forall|k: int| 0 <= k < results@.len() implies {
                            &&& (#[trigger] results@[k]).index < i + 1
                            &&& spec_text_found(self.view_pattern(), texts@, results@[k].index as int)
                            &&& spec_found(self.view_pattern(), texts@[results@[k].index as int]@) == Some(
                                spec_bounds(results@[k].matches@),
                            )
                        } by {
                            if k < p {
                                assert(results@[k] == old_results[k]);
                            } else if k > p {
                                assert(results@[k] == old_results[k - 1]);
                            }
                        }
                        assert forall|j: int|
                            0 <= j < i + 1 && #[trigger] spec_text_found(self.view_pattern(), texts@, j) implies exists|k: int|
                            0 <= k < results@.len() && results@[k].index == j by {
                            if j == i as int {
                                assert(results@[p].index == j);
                            } else {
                                let k = choose|k: int| 0 <= k < old_results.len() && old_results[k].index == j;
                                if k < p {
                                    assert(results@[k] == old_results[k]);
                                } else {
                                    assert(results@[k + 1] == old_results[k]);
                                }
                            }
                        }
                    }
                }
            }
            i += 1;
        }
        results
    }
}

} // verus!
