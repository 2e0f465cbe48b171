//! Block extraction: locates every non-overlapping span that begins with a
//! start marker and ends with the nearest following end marker reachable by
//! consuming whole lines, scanning the document left to right.

use vstd::prelude::*;

use crate::textops::find_sub;
use crate::textops::is_match_at;
use crate::textops::lemma_find_some;
use crate::textops::match_at;
use crate::textops::spec_find;

verus! {

/// The single newline character, the line terminator the matcher consumes.
pub open spec fn nl() -> Seq<char> {
    seq!['\n']
}

/// Searching from `p`, the position of the first end-marker occurrence that
/// is reachable by consuming one or more whole lines: after each consumed
/// line the end marker is tried at the position just past the newline.
pub open spec fn spec_end_after_lines(text: Seq<char>, em: Seq<char>, p: int) -> Option<int>
    decreases text.len() + 1 - p,
    via spec_end_after_lines_decreases
{
    match spec_find(text, nl(), p) {
        None => None,
        Some(n) => if match_at(text, em, n + 1) {
            Some(n + 1)
        } else {
            spec_end_after_lines(text, em, n + 1)
        },
    }
}

#[via_fn]
proof fn spec_end_after_lines_decreases(text: Seq<char>, em: Seq<char>, p: int) {
    if p >= 0 {
        lemma_find_some(text, nl(), p);
    }
}

/// Where a block opened by a start marker ending at `p` closes: the nearest
/// end marker reached by consuming one or more whole lines, or, failing
/// that, an end marker standing immediately at `p`.
pub open spec fn spec_find_end(text: Seq<char>, em: Seq<char>, p: int) -> Option<int> {
    match spec_end_after_lines(text, em, p) {
        Some(e) => Some(e),
        None => if match_at(text, em, p) {
            Some(p)
        } else {
            None
        },
    }
}

/// A position returned by the line-consuming search carries an end-marker
/// occurrence and lies past `p`.
pub proof fn lemma_end_after_lines(text: Seq<char>, em: Seq<char>, p: int)
    ensures
        match spec_end_after_lines(text, em, p) {
            Some(e) => p < e && match_at(text, em, e),
            None => true,
        },
    decreases text.len() + 1 - p,
{
    match spec_find(text, nl(), p) {
        None => {},
        Some(n) => {
            lemma_find_some(text, nl(), p);
            if !match_at(text, em, n + 1) {
                lemma_end_after_lines(text, em, n + 1);
            }
        },
    }
}

/// A position returned by `spec_find_end` carries an end-marker occurrence
/// and does not lie before `p`.
pub proof fn lemma_find_end(text: Seq<char>, em: Seq<char>, p: int)
    requires
        0 <= p,
    ensures
        match spec_find_end(text, em, p) {
            Some(e) => p <= e && match_at(text, em, e),
            None => true,
        },
{
    lemma_end_after_lines(text, em, p);
}

/// One matched block: the half-open span `[start, end)` of the matched text,
/// delimiters included, in the document it was extracted from.
pub struct BlockSpan {
    pub start: usize,
    pub end: usize,
}

/// The spans as a sequence of integer pairs.
pub open spec fn spans_view(v: Seq<BlockSpan>) -> Seq<(int, int)> {
    Seq::new(v.len(), |k: int| (v[k].start as int, v[k].end as int))
}

/// Every block matched at or after `pos`: at the leftmost start marker that
/// closes, the span runs to the end of its end marker and scanning resumes
/// just past it; a start marker that never closes is skipped.
pub open spec fn spec_extract(text: Seq<char>, sm: Seq<char>, em: Seq<char>, pos: int) -> Seq<
    (int, int),
>
    decreases text.len() + 1 - pos,
    via spec_extract_decreases
{
    if sm.len() == 0 {
        Seq::empty()
    } else {
        match spec_find(text, sm, pos) {
            None => Seq::empty(),
            Some(s) => match spec_find_end(text, em, s + sm.len()) {
                Some(e) => seq![(s, e + em.len())] + spec_extract(text, sm, em, e + em.len()),
                None => spec_extract(text, sm, em, s + 1),
            },
        }
    }
}

#[via_fn]
proof fn spec_extract_decreases(text: Seq<char>, sm: Seq<char>, em: Seq<char>, pos: int) {
    if sm.len() > 0 && pos >= 0 {
        lemma_find_some(text, sm, pos);
        match spec_find(text, sm, pos) {
            None => {},
            Some(s) => {
                lemma_find_end(text, em, s + sm.len());
            },
        }
    }
}

/// Law: matched blocks never merge or overlap and come in document order:
/// every extracted span lies inside the text, opens with the start marker,
/// closes with the end marker, and ends no later than the next span begins.
pub proof fn lemma_extract_ordered(text: Seq<char>, sm: Seq<char>, em: Seq<char>, pos: int)
    requires
        0 <= pos,
        sm.len() > 0,
    ensures
        ({
            let spans = spec_extract(text, sm, em, pos);
            &&& forall|k: int|
                0 <= k < spans.len() ==> pos <= (#[trigger] spans[k]).0 && spans[k].0 + sm.len()
                    <= spans[k].1 <= text.len()
            &&& forall|k: int|
                0 <= k < spans.len() ==> match_at(text, sm, (#[trigger] spans[k]).0) && match_at(
                    text,
                    em,
                    spans[k].1 - em.len(),
                )
            &&& forall|k: int| 1 <= k < spans.len() ==> (#[trigger] spans[k]).0 >= spans[k
                - 1].1
        }),
    decreases text.len() + 1 - pos,
{
    let spans = spec_extract(text, sm, em, pos);
    match spec_find(text, sm, pos) {
        None => {},
        Some(s) => {
            lemma_find_some(text, sm, pos);
            match spec_find_end(text, em, s + sm.len()) {
                Some(e) => {
                    lemma_find_end(text, em, s + sm.len());
                    let next = e + em.len();
                    lemma_extract_ordered(text, sm, em, next);
                    let rest = spec_extract(text, sm, em, next);
                    assert(spans == seq![(s, next)] + rest);
                    assert((seq![(s, next)] + rest).len() == 1 + rest.len());
                    assert(spans[0] == (s, next));
                    assert forall|k: int|
                        0 <= k < spans.len() implies pos <= (#[trigger] spans[k]).0 && spans[k].0
                        + sm.len() <= spans[k].1 <= text.len() by {
                        if k > 0 {
                            assert(spans[k] == rest[k - 1]);
                        }
                    }
                    assert forall|k: int|
                        0 <= k < spans.len() implies match_at(text, sm, (#[trigger] spans[k]).0)
                        && match_at(text, em, spans[k].1 - em.len()) by {
                        if k > 0 {
                            assert(spans[k] == rest[k - 1]);
                        }
                    }
                    assert forall|k: int|
                        1 <= k < spans.len() implies (#[trigger] spans[k]).0 >= spans[k
                        - 1].1 by {
                        assert((seq![(s, next)] + rest)[k] == rest[k - 1]);
                        if k > 1 {
                            assert((seq![(s, next)] + rest)[k - 1] == rest[k - 2]);
                        }
                    }
                },
                None => {
                    lemma_extract_ordered(text, sm, em, s + 1);
                    assert(spans == spec_extract(text, sm, em, s + 1));
                    assert forall|k: int|
                        0 <= k < spans.len() implies pos <= (#[trigger] spans[k]).0 by {
                        assert(s + 1 <= spans[k].0);
                    }
                },
            }
        },
    }
}

/// Law: a start marker that no end marker ever follows yields no match:
/// when no end-marker occurrence stands at or after the close of any
/// start-marker occurrence at or after `pos`, extraction finds nothing.
pub proof fn lemma_unterminated(text: Seq<char>, sm: Seq<char>, em: Seq<char>, pos: int)
    requires
        0 <= pos,
        sm.len() > 0,
        forall|s: int, j: int|
            #![trigger match_at(text, sm, s), match_at(text, em, j)]
            pos <= s && match_at(text, sm, s) && s + sm.len() <= j ==> !match_at(text, em, j),
    ensures
        spec_extract(text, sm, em, pos).len() == 0,
    decreases text.len() + 1 - pos,
{
    match spec_find(text, sm, pos) {
        None => {},
        Some(s) => {
            lemma_find_some(text, sm, pos);
            lemma_find_end(text, em, s + sm.len());
            match spec_find_end(text, em, s + sm.len()) {
                Some(e) => {
                    assert(match_at(text, sm, s) && match_at(text, em, e));
                    assert(false);
                },
                None => {
                    lemma_unterminated(text, sm, em, s + 1);
                },
            }
        },
    }
}

/// Searches for the closing position of a block whose start marker ends at
/// `p`, following the line-consuming rule of `spec_find_end`.
fn find_end(text: &Vec<char>, em: &Vec<char>, p: usize) -> (r: Option<usize>)
    requires
        p <= text@.len(),
        em@.len() > 0,
    ensures
        match r {
            Some(e) => spec_find_end(text@, em@, p as int) == Some(e as int),
            None => spec_find_end(text@, em@, p as int) is None,
        },
{
    let nlv: Vec<char> = vec!['\n'];
    proof {
        assert(nlv@ =~= nl());
    }
    let mut q: usize = p;
    loop
        invariant
            p <= q <= text@.len(),
            text@.len() == text.len(),
            em@.len() > 0,
            nlv@ == nl(),
            spec_end_after_lines(text@, em@, p as int) == spec_end_after_lines(
                text@,
                em@,
                q as int,
            ),
        decreases text@.len() - q,
    {
        match find_sub(text, &nlv, q) {
            None => {
                if em.len() <= text.len() - p && is_match_at(text, em, p) {
                    return Some(p);
                } else {
                    return None;
                }
            },
            Some(n) => {
                proof {
                    lemma_find_some(text@, nlv@, q as int);
                }
                if em.len() <= text.len() - (n + 1) && is_match_at(text, em, n + 1) {
                    return Some(n + 1);
                }
                q = n + 1;
            },
        }
    }
}

/// Extracts every matched block of `text` for the given delimiter pair, in
/// document order.
pub fn extract(text: &Vec<char>, sm: &Vec<char>, em: &Vec<char>) -> (r: Vec<BlockSpan>)
    requires
        sm@.len() > 0,
        em@.len() > 0,
    ensures
        spans_view(r@) == spec_extract(text@, sm@, em@, 0),
        forall|k: int| 0 <= k < r@.len() ==> (#[trigger] r@[k]).start < r@[k].end <= text@.len(),
{
    let mut result: Vec<BlockSpan> = Vec::new();
    let mut pos: usize = 0;
    proof {
        assert(spans_view(result@) + spec_extract(text@, sm@, em@, 0) =~= spec_extract(
            text@,
            sm@,
            em@,
            0,
        ));
    }
    loop
        invariant
            sm@.len() > 0,
            em@.len() > 0,
            pos <= text@.len(),
            text@.len() == text.len(),
            spec_extract(text@, sm@, em@, 0) == spans_view(result@) + spec_extract(
                text@,
                sm@,
                em@,
                pos as int,
            ),
            forall|k: int| 0 <= k < result@.len() ==> (#[trigger] result@[k]).start
                < result@[k].end <= text@.len(),
        decreases text@.len() - pos,
    {
        let ghost result_old = result@;
        match find_sub(text, sm, pos) {
            None => {
                proof {
                    assert(spans_view(result@) + spec_extract(text@, sm@, em@, pos as int)
                        =~= spans_view(result@));
                }
                return result;
            },
            Some(s) => {
                proof {
                    lemma_find_some(text@, sm@, pos as int);
                }
                let p = s + sm.len();
                match find_end(text, em, p) {
                    Some(e) => {
                        proof {
                            lemma_find_end(text@, em@, p as int);
                        }
                        let mend = e + em.len();
                        result.push(BlockSpan { start: s, end: mend });
                        pos = mend;
                        proof {
                            assert(spans_view(result@) =~= spans_view(result_old) + seq![
                                (s as int, mend as int),
                            ]);
                            assert(spans_view(result_old) + (seq![(s as int, mend as int)]
                                + spec_extract(text@, sm@, em@, pos as int)) =~= spans_view(
                                result@,
                            ) + spec_extract(text@, sm@, em@, pos as int));
                        }
                    },
                    None => {
                        pos = s + 1;
                    },
                }
            },
        }
    }
}

} // verus!
