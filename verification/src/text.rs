//! The mathematical model of the search: substring containment, splitting a
//! text into lines, and order-preserving subsequences.

use vstd::prelude::*;

verus! {

/// `q` occurs in `line` as a contiguous substring starting at position `i`.
pub open spec fn match_at(line: Seq<char>, q: Seq<char>, i: int) -> bool {
    &&& 0 <= i
    &&& i + q.len() <= line.len()
    &&& line.subrange(i, i + q.len() as int) == q
}

/// `line` contains `q` as a contiguous substring.
pub open spec fn is_match(line: Seq<char>, q: Seq<char>) -> bool {
    exists|i: int| match_at(line, q, i)
}

/// An empty query occurs in every line, at position 0.
pub proof fn lemma_empty_query_matches(line: Seq<char>, q: Seq<char>)
    requires
        q.len() == 0,
    ensures
        is_match(line, q),
{
    assert(line.subrange(0, 0) =~= q);
    assert(match_at(line, q, 0));
}

/// The position of the first newline at or after `from`, or `text.len()`
/// when none follows.
pub open spec fn find_newline(text: Seq<char>, from: int) -> int
    decreases text.len() - from,
{
    if from < 0 || from >= text.len() {
        text.len() as int
    } else if text[from] == '\n' {
        from
    } else {
        find_newline(text, from + 1)
    }
}

pub proof fn lemma_find_newline_bounds(text: Seq<char>, from: int)
    requires
        0 <= from <= text.len(),
    ensures
        from <= find_newline(text, from) <= text.len(),
        find_newline(text, from) < text.len() ==> text[find_newline(text, from)] == '\n',
        forall|k: int| from <= k < find_newline(text, from) ==> text[k] != '\n',
    decreases text.len() - from,
{
    if from >= text.len() {
    } else if text[from] == '\n' {
    } else {
        lemma_find_newline_bounds(text, from + 1);
    }
}

/// The scan that ran to `j` without seeing a newline found the first one.
pub proof fn lemma_find_newline_is(text: Seq<char>, from: int, j: int)
    requires
        0 <= from <= j <= text.len(),
        forall|k: int| from <= k < j ==> text[k] != '\n',
        j < text.len() ==> text[j] == '\n',
    ensures
        find_newline(text, from) == j,
    decreases j - from,
{
    if from < j {
        lemma_find_newline_is(text, from + 1, j);
    }
}

/// The content of the line starting at `from`: the characters up to the next
/// newline, with a carriage return stripped when it immediately precedes that
/// newline.  A carriage return at the very end of the text, with no newline
/// after it, is kept.
pub open spec fn line_content(text: Seq<char>, from: int) -> Seq<char> {
    let j = find_newline(text, from);
    if j < text.len() && from < j && text[j - 1] == '\r' {
        text.subrange(from, j - 1)
    } else {
        text.subrange(from, j)
    }
}

/// The lines of `text` starting at position `from`.
pub open spec fn lines_from(text: Seq<char>, from: int) -> Seq<Seq<char>>
    decreases text.len() - from,
        via lines_from_decreases
{
    if from < 0 || from >= text.len() {
        Seq::empty()
    } else {
        let j = find_newline(text, from);
        let next = if j >= text.len() {
            text.len() as int
        } else {
            j + 1
        };
        seq![line_content(text, from)] + lines_from(text, next)
    }
}

#[via_fn]
proof fn lines_from_decreases(text: Seq<char>, from: int) {
    if 0 <= from && from < text.len() {
        lemma_find_newline_bounds(text, from);
    }
}

/// The lines of `text`, split on newline characters.  Lines terminated by a
/// carriage return followed by a newline lose the carriage return; a trailing
/// newline produces no empty final line; the empty text has no lines.
pub open spec fn lines_spec(text: Seq<char>) -> Seq<Seq<char>> {
    lines_from(text, 0)
}

/// `idx` lists, in strictly increasing order, positions in `full` at which
/// the elements of `sub` appear.
pub open spec fn is_embedding<A>(idx: Seq<int>, sub: Seq<A>, full: Seq<A>) -> bool {
    &&& idx.len() == sub.len()
    &&& forall|i: int|
        0 <= i < idx.len() ==> 0 <= #[trigger] idx[i] < full.len() && sub[i] == full[idx[i]]
    &&& forall|i: int, j: int| #![trigger idx[i], idx[j]] 0 <= i < j < idx.len() ==> idx[i] < idx[j]
}

/// `sub` can be obtained from `full` by deleting elements, never reordering
/// or duplicating the ones that are kept.
pub open spec fn is_subsequence_of<A>(sub: Seq<A>, full: Seq<A>) -> bool {
    exists|idx: Seq<int>| is_embedding(idx, sub, full)
}

pub proof fn lemma_subsequence_empty<A>(full: Seq<A>)
    ensures
        is_subsequence_of(Seq::<A>::empty(), full),
{
    assert(is_embedding(Seq::<int>::empty(), Seq::<A>::empty(), full));
}

/// An embedding survives appending to the long sequence.
pub proof fn lemma_embedding_extend_full<A>(idx: Seq<int>, sub: Seq<A>, full: Seq<A>, x: A)
    requires
        is_embedding(idx, sub, full),
    ensures
        is_embedding(idx, sub, full.push(x)),
{
    assert forall|i: int| 0 <= i < idx.len() implies 0 <= #[trigger] idx[i] < full.push(x).len()
        && sub[i] == full.push(x)[idx[i]] by {
        assert(full.push(x)[idx[i]] == full[idx[i]]);
    }
}

/// An embedding extends when the same element is appended to both sequences.
pub proof fn lemma_embedding_push<A>(idx: Seq<int>, sub: Seq<A>, full: Seq<A>, x: A)
    requires
        is_embedding(idx, sub, full),
    ensures
        is_embedding(idx.push(full.len() as int), sub.push(x), full.push(x)),
{
    let idx2 = idx.push(full.len() as int);
    let sub2 = sub.push(x);
    let full2 = full.push(x);
    assert forall|i: int| 0 <= i < idx2.len() implies 0 <= #[trigger] idx2[i] < full2.len()
        && sub2[i] == full2[idx2[i]] by {
        if i < idx.len() {
            assert(idx2[i] == idx[i]);
            assert(sub2[i] == sub[i]);
            assert(full2[idx[i]] == full[idx[i]]);
        } else {
            assert(idx2[i] == full.len() as int);
            assert(sub2[i] == x);
            assert(full2[full.len() as int] == x);
        }
    }
    assert forall|i: int, j: int| #![trigger idx2[i], idx2[j]] 0 <= i < j < idx2.len() implies
        idx2[i] < idx2[j] by {
        if j < idx.len() {
            assert(idx2[i] == idx[i] && idx2[j] == idx[j]);
        } else {
            assert(idx2[j] == full.len() as int);
            assert(idx2[i] == idx[i] && idx[i] < full.len());
        }
    }
}

} // verus!
