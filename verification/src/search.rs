//! The search functions: split a text into lines and keep, in source order,
//! the lines that contain the query, either exactly or after lowercasing
//! both sides.

use vstd::prelude::*;

use crate::config::Config;
use crate::text::{
    is_embedding, is_match, is_subsequence_of, lemma_embedding_extend_full, lemma_embedding_push,
    lemma_empty_query_matches, lemma_find_newline_is, lemma_subsequence_empty, line_content,
    lines_from, lines_spec, match_at,
};

verus! {

/// What `str::to_lowercase` returns for a given sequence of characters: a
/// pure function of the characters alone, left uninterpreted.
pub uninterp spec fn lower_of(s: Seq<char>) -> Seq<char>;

/// Relies on `str::to_lowercase`: the returned string is the Unicode
/// lowercase form of the input, a function of the input characters alone.
#[verifier::external_body]
fn to_lowercase_str(s: &str) -> (r: String)
    ensures
        r@ == lower_of(s@),
{
    s.to_lowercase()
}

/// The lines among `lines` that contain `q`.
pub open spec fn matching_lines(lines: Seq<Seq<char>>, q: Seq<char>) -> Seq<Seq<char>> {
    lines.filter(|l: Seq<char>| is_match(l, q))
}

/// The lines among `lines` whose lowercase form contains the lowercase form
/// of `q`; the lines themselves are kept unfolded.
pub open spec fn matching_lines_folded(lines: Seq<Seq<char>>, q: Seq<char>) -> Seq<Seq<char>> {
    lines.filter(|l: Seq<char>| is_match(lower_of(l), lower_of(q)))
}

/// What `search` returns: the lines of `text` that contain `q`, in order.
pub open spec fn search_spec(q: Seq<char>, text: Seq<char>) -> Seq<Seq<char>> {
    matching_lines(lines_spec(text), q)
}

/// What `search_case_insensitive` returns: the lines of `text` whose
/// lowercase form contains the lowercase form of `q`, in order and with
/// their original casing.
pub open spec fn search_case_insensitive_spec(q: Seq<char>, text: Seq<char>) -> Seq<Seq<char>> {
    matching_lines_folded(lines_spec(text), q)
}

proof fn lemma_matching_lines_push(lines: Seq<Seq<char>>, q: Seq<char>, l: Seq<char>)
    ensures
        is_match(l, q) ==> matching_lines(lines.push(l), q) == matching_lines(lines, q).push(l),
        !is_match(l, q) ==> matching_lines(lines.push(l), q) == matching_lines(lines, q),
{
    reveal(Seq::filter);
    let s = lines.push(l);
    assert(s.drop_last() =~= lines);
    assert(s.last() == l);
}

proof fn lemma_matching_lines_folded_push(lines: Seq<Seq<char>>, q: Seq<char>, l: Seq<char>)
    ensures
        is_match(lower_of(l), lower_of(q)) ==> matching_lines_folded(lines.push(l), q)
            == matching_lines_folded(lines, q).push(l),
        !is_match(lower_of(l), lower_of(q)) ==> matching_lines_folded(lines.push(l), q)
            == matching_lines_folded(lines, q),
{
    reveal(Seq::filter);
    let s = lines.push(l);
    assert(s.drop_last() =~= lines);
    assert(s.last() == l);
}

proof fn lemma_matching_lines_all(lines: Seq<Seq<char>>, q: Seq<char>)
    requires
        q.len() == 0,
    ensures
        matching_lines(lines, q) == lines,
    decreases lines.len(),
{
    reveal(Seq::filter);
    if lines.len() == 0 {
        assert(matching_lines(lines, q) =~= lines);
    } else {
        let d = lines.drop_last();
        lemma_matching_lines_all(d, q);
        lemma_empty_query_matches(lines.last(), q);
        assert(matching_lines(lines, q) =~= lines);
    }
}

/// Law: with an empty query, the case-sensitive search returns every line of
/// the text, in order.
pub proof fn lemma_empty_query_returns_all_lines(q: Seq<char>, text: Seq<char>)
    requires
        q.len() == 0,
    ensures
        search_spec(q, text) == lines_spec(text),
{
    lemma_matching_lines_all(lines_spec(text), q);
}

proof fn lemma_matching_lines_subsequence(lines: Seq<Seq<char>>, q: Seq<char>)
    ensures
        is_subsequence_of(matching_lines(lines, q), lines),
    decreases lines.len(),
{
    reveal(Seq::filter);
    if lines.len() == 0 {
        assert(matching_lines(lines, q) =~= Seq::<Seq<char>>::empty());
        lemma_subsequence_empty(lines);
    } else {
        let d = lines.drop_last();
        let l = lines.last();
        lemma_matching_lines_subsequence(d, q);
        let idx = choose|idx: Seq<int>| is_embedding(idx, matching_lines(d, q), d);
        assert(d.push(l) =~= lines);
        if is_match(l, q) {
            lemma_embedding_push(idx, matching_lines(d, q), d, l);
            assert(matching_lines(lines, q) == matching_lines(d, q).push(l));
            assert(is_embedding(idx.push(d.len() as int), matching_lines(lines, q), lines));
        } else {
            lemma_embedding_extend_full(idx, matching_lines(d, q), d, l);
            assert(matching_lines(lines, q) == matching_lines(d, q));
            assert(is_embedding(idx, matching_lines(lines, q), lines));
        }
    }
}

proof fn lemma_matching_lines_folded_subsequence(lines: Seq<Seq<char>>, q: Seq<char>)
    ensures
        is_subsequence_of(matching_lines_folded(lines, q), lines),
    decreases lines.len(),
{
    reveal(Seq::filter);
    if lines.len() == 0 {
        assert(matching_lines_folded(lines, q) =~= Seq::<Seq<char>>::empty());
        lemma_subsequence_empty(lines);
    } else {
        let d = lines.drop_last();
        let l = lines.last();
        lemma_matching_lines_folded_subsequence(d, q);
        let idx = choose|idx: Seq<int>| is_embedding(idx, matching_lines_folded(d, q), d);
        assert(d.push(l) =~= lines);
        if is_match(lower_of(l), lower_of(q)) {
            lemma_embedding_push(idx, matching_lines_folded(d, q), d, l);
            assert(matching_lines_folded(lines, q) == matching_lines_folded(d, q).push(l));
            assert(is_embedding(
                idx.push(d.len() as int),
                matching_lines_folded(lines, q),
                lines,
            ));
        } else {
            lemma_embedding_extend_full(idx, matching_lines_folded(d, q), d, l);
            assert(matching_lines_folded(lines, q) == matching_lines_folded(d, q));
            assert(is_embedding(idx, matching_lines_folded(lines, q), lines));
        }
    }
}

/// Law: the case-sensitive search output is a subsequence of the text's
/// lines — source order is kept, and no line is duplicated.
pub proof fn lemma_search_is_subsequence_of_lines(q: Seq<char>, text: Seq<char>)
    ensures
        is_subsequence_of(search_spec(q, text), lines_spec(text)),
{
    lemma_matching_lines_subsequence(lines_spec(text), q);
}

/// Law: the case-insensitive search output is a subsequence of the text's
/// lines — source order is kept, and no line is duplicated.
pub proof fn lemma_search_case_insensitive_is_subsequence_of_lines(q: Seq<char>, text: Seq<char>)
    ensures
        is_subsequence_of(search_case_insensitive_spec(q, text), lines_spec(text)),
{
    lemma_matching_lines_folded_subsequence(lines_spec(text), q);
}

proof fn lemma_matching_subsequence_of_folded(lines: Seq<Seq<char>>, q: Seq<char>)
    requires
        forall|i: int|
            0 <= i < lines.len() && is_match(#[trigger] lines[i], q) ==> is_match(
                lower_of(lines[i]),
                lower_of(q),
            ),
    ensures
        is_subsequence_of(matching_lines(lines, q), matching_lines_folded(lines, q)),
    decreases lines.len(),
{
    reveal(Seq::filter);
    if lines.len() == 0 {
        assert(matching_lines(lines, q) =~= Seq::<Seq<char>>::empty());
        lemma_subsequence_empty(matching_lines_folded(lines, q));
    } else {
        let d = lines.drop_last();
        let l = lines.last();
        assert forall|i: int|
            0 <= i < d.len() && is_match(#[trigger] d[i], q) implies is_match(
            lower_of(d[i]),
            lower_of(q),
        ) by {
            assert(d[i] == lines[i]);
        }
        lemma_matching_subsequence_of_folded(d, q);
        let idx = choose|idx: Seq<int>|
            is_embedding(idx, matching_lines(d, q), matching_lines_folded(d, q));
        if is_match(l, q) {
            assert(lines[lines.len() - 1] == l);
            assert(is_match(lower_of(l), lower_of(q)));
            lemma_embedding_push(idx, matching_lines(d, q), matching_lines_folded(d, q), l);
            assert(matching_lines(lines, q) == matching_lines(d, q).push(l));
            assert(matching_lines_folded(lines, q) == matching_lines_folded(d, q).push(l));
            assert(is_embedding(
                idx.push(matching_lines_folded(d, q).len() as int),
                matching_lines(lines, q),
                matching_lines_folded(lines, q),
            ));
        } else if is_match(lower_of(l), lower_of(q)) {
            lemma_embedding_extend_full(idx, matching_lines(d, q), matching_lines_folded(d, q), l);
            assert(matching_lines(lines, q) == matching_lines(d, q));
            assert(matching_lines_folded(lines, q) == matching_lines_folded(d, q).push(l));
            assert(is_embedding(idx, matching_lines(lines, q), matching_lines_folded(lines, q)));
        } else {
            assert(matching_lines(lines, q) == matching_lines(d, q));
            assert(matching_lines_folded(lines, q) == matching_lines_folded(d, q));
            assert(is_embedding(idx, matching_lines(lines, q), matching_lines_folded(lines, q)));
        }
    }
}

/// Law: folding only broadens matches.  On every text whose matching lines
/// still match after both sides are lowercased, the case-sensitive output is
/// a subsequence — line for line, with the original text — of the
/// case-insensitive output.  The premise is stated as a hypothesis because
/// Rust's lowercase mapping is context-sensitive for a few characters (the
/// Greek capital sigma lowers to a different letter at the end of a word),
/// so a line can match a query exactly and yet not match it after folding.
pub proof fn lemma_case_insensitive_broadens(q: Seq<char>, text: Seq<char>)
    requires
        forall|i: int|
            0 <= i < lines_spec(text).len() && is_match(#[trigger] lines_spec(text)[i], q)
                ==> is_match(lower_of(lines_spec(text)[i]), lower_of(q)),
    ensures
        is_subsequence_of(search_spec(q, text), search_case_insensitive_spec(q, text)),
{
    lemma_matching_subsequence_of_folded(lines_spec(text), q);
}

/// Whether `line` contains `query` as a contiguous substring, by exact
/// character equality.
pub fn contains_substring(line: &str, query: &str) -> (found: bool)
    ensures
        found == is_match(line@, query@),
{
    let llen: usize = line.unicode_len();
    let qlen: usize = query.unicode_len();
    if qlen > llen {
        assert(forall|k: int| !match_at(line@, query@, k));
        return false;
    }
    let mut i: usize = 0;
    while i <= llen - qlen
        invariant
            qlen <= llen,
            llen == line@.len(),
            qlen == query@.len(),
            i <= llen - qlen + 1,
            forall|k: int| 0 <= k < i ==> !match_at(line@, query@, k),
        decreases llen - qlen - i + 1,
    {
        let mut j: usize = 0;
        while j < qlen && line.get_char(i + j) == query.get_char(j)
            invariant
                qlen <= llen,
                llen == line@.len(),
                qlen == query@.len(),
                i + qlen <= llen,
                j <= qlen,
                forall|m: int| 0 <= m < j ==> line@[i + m] == query@[m],
            decreases qlen - j,
        {
            j = j + 1;
        }
        if j == qlen {
            assert(line@.subrange(i as int, i + qlen as int) =~= query@);
            assert(match_at(line@, query@, i as int));
            return true;
        }
        assert(!match_at(line@, query@, i as int)) by {
            if match_at(line@, query@, i as int) {
                assert(line@.subrange(i as int, i + qlen as int)[j as int] == line@[i + j]);
            }
        }
        i = i + 1;
    }
    assert forall|k: int| !match_at(line@, query@, k) by {
        if k >= i {
            assert(k + qlen > llen);
        }
    }
    false
}

/// The lines of `contents`, in source order, as slices of the original text.
pub fn split_lines<'a>(contents: &'a str) -> (lines: Vec<&'a str>)
    ensures
        lines.deep_view() == lines_spec(contents@),
{
    let n: usize = contents.unicode_len();
    let mut lines: Vec<&'a str> = Vec::new();
    let mut from: usize = 0;
    proof {
        assert(lines.deep_view() =~= Seq::<Seq<char>>::empty());
        assert(lines_spec(contents@) =~= lines.deep_view() + lines_from(contents@, 0));
    }
    while from < n
        invariant
            n == contents@.len(),
            from <= n,
            lines_spec(contents@) == lines.deep_view() + lines_from(contents@, from as int),
        decreases n - from,
    {
        let mut j: usize = from;
        while j < n && contents.get_char(j) != '\n'
            invariant
                n == contents@.len(),
                from <= j <= n,
                forall|k: int| from <= k < j ==> contents@[k] != '\n',
            decreases n - j,
        {
            j = j + 1;
        }
        proof {
            lemma_find_newline_is(contents@, from as int, j as int);
        }
        let end: usize = if j < n && j > from && contents.get_char(j - 1) == '\r' {
            j - 1
        } else {
            j
        };
        let line: &'a str = contents.substring_char(from, end);
        assert(line@ == line_content(contents@, from as int));
        let ghost prev = lines.deep_view();
        let ghost tail = lines_from(contents@, if j < n { j + 1 as int } else { n as int });
        proof {
            assert(lines_from(contents@, from as int) =~= seq![line@] + tail);
        }
        lines.push(line);
        from = if j < n {
            j + 1
        } else {
            n
        };
        proof {
            assert(lines.deep_view() =~= prev.push(line@));
            assert(prev + (seq![line@] + tail) =~= prev.push(line@) + tail);
            assert(lines_from(contents@, from as int) == tail);
        }
    }
    proof {
        assert(lines_from(contents@, from as int) =~= Seq::<Seq<char>>::empty());
        assert(lines.deep_view() =~= lines.deep_view() + Seq::<Seq<char>>::empty());
    }
    lines
}

/// Every line of `contents` that contains `query`, in source order, as
/// slices of the original text.  An empty query matches every line; no
/// matches yield an empty vector, never an error.
pub fn search<'a>(query: &str, contents: &'a str) -> (results: Vec<&'a str>)
    ensures
        results.deep_view() == search_spec(query@, contents@),
{
    let lines = split_lines(contents);
    let mut results: Vec<&'a str> = Vec::new();
    let n: usize = lines.len();
    let mut i: usize = 0;
    proof {
        reveal(Seq::filter);
        assert(lines.deep_view().take(0) =~= Seq::<Seq<char>>::empty());
        assert(results.deep_view() =~= Seq::<Seq<char>>::empty());
        assert(matching_lines(Seq::<Seq<char>>::empty(), query@) =~= Seq::<Seq<char>>::empty());
    }
    while i < n
        invariant
            n == lines.len(),
            i <= n,
            lines.deep_view() == lines_spec(contents@),
            results.deep_view() == matching_lines(lines.deep_view().take(i as int), query@),
        decreases n - i,
    {
        let line: &'a str = lines[i];
        let ghost prev_take = lines.deep_view().take(i as int);
        let ghost prev_results = results.deep_view();
        assert(line@ == lines.deep_view()[i as int]);
        if contains_substring(line, query) {
            results.push(line);
            proof {
                assert(results.deep_view() =~= prev_results.push(line@));
            }
        }
        proof {
            assert(lines.deep_view().take(i + 1 as int) =~= prev_take.push(line@));
            lemma_matching_lines_push(prev_take, query@, line@);
        }
        i = i + 1;
    }
    proof {
        assert(lines.deep_view().take(n as int) =~= lines.deep_view());
    }
    results
}

/// Every line of `contents` whose lowercase form contains the lowercase form
/// of `query`, in source order.  Folding affects only the match test: the
/// returned slices keep the original casing.
pub fn search_case_insensitive<'a>(query: &str, contents: &'a str) -> (results: Vec<&'a str>)
    ensures
        results.deep_view() == search_case_insensitive_spec(query@, contents@),
{
    let folded_query = to_lowercase_str(query);
    let lines = split_lines(contents);
    let mut results: Vec<&'a str> = Vec::new();
    let n: usize = lines.len();
    let mut i: usize = 0;
    proof {
        reveal(Seq::filter);
        assert(lines.deep_view().take(0) =~= Seq::<Seq<char>>::empty());
        assert(results.deep_view() =~= Seq::<Seq<char>>::empty());
        assert(matching_lines_folded(Seq::<Seq<char>>::empty(), query@)
            =~= Seq::<Seq<char>>::empty());
    }
    while i < n
        invariant
            n == lines.len(),
            i <= n,
            folded_query@ == lower_of(query@),
            lines.deep_view() == lines_spec(contents@),
            results.deep_view() == matching_lines_folded(
                lines.deep_view().take(i as int),
                query@,
            ),
        decreases n - i,
    {
        let line: &'a str = lines[i];
        let ghost prev_take = lines.deep_view().take(i as int);
        let ghost prev_results = results.deep_view();
        assert(line@ == lines.deep_view()[i as int]);
        let folded_line = to_lowercase_str(line);
        if contains_substring(folded_line.as_str(), folded_query.as_str()) {
            results.push(line);
            proof {
                assert(results.deep_view() =~= prev_results.push(line@));
            }
        }
        proof {
            assert(lines.deep_view().take(i + 1 as int) =~= prev_take.push(line@));
            lemma_matching_lines_folded_push(prev_take, query@, line@);
        }
        i = i + 1;
    }
    proof {
        assert(lines.deep_view().take(n as int) =~= lines.deep_view());
    }
    results
}

/// The matching lines for `config`'s query over `contents`, searched in the
/// mode the configuration selects.
pub fn run<'a>(config: &Config, contents: &'a str) -> (results: Vec<&'a str>)
    ensures
        config.case_sensitive ==> results.deep_view() == search_spec(
            config.query@,
            contents@,
        ),
        !config.case_sensitive ==> results.deep_view() == search_case_insensitive_spec(
            config.query@,
            contents@,
        ),
{
    if config.case_sensitive {
        search(config.query.as_str(), contents)
    } else {
        search_case_insensitive(config.query.as_str(), contents)
    }
}

} // verus!
