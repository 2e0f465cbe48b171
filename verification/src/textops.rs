//! Searching and splicing over sequences of characters: first-occurrence
//! search, single replacement, and left-to-right replacement of every
//! occurrence, each pinned to a spec-level definition.

use vstd::prelude::*;

verus! {

/// `pat` occurs in `text` at position `i`.
pub open spec fn match_at(text: Seq<char>, pat: Seq<char>, i: int) -> bool {
    0 <= i && i + pat.len() <= text.len() && text.subrange(i, i + pat.len()) == pat
}

/// Position of the first occurrence of `pat` in `text` at or after `from`,
/// or `None` when there is none.
pub open spec fn spec_find(text: Seq<char>, pat: Seq<char>, from: int) -> Option<int>
    decreases text.len() + 1 - from,
{
    if from < 0 || from + pat.len() > text.len() {
        None
    } else if match_at(text, pat, from) {
        Some(from)
    } else {
        spec_find(text, pat, from + 1)
    }
}

/// `spec_find` returns the first match at or after `from`, and `None` only
/// when no position at or after `from` matches.
pub proof fn lemma_find_some(text: Seq<char>, pat: Seq<char>, from: int)
    requires
        0 <= from,
    ensures
        match spec_find(text, pat, from) {
            Some(i) => from <= i && match_at(text, pat, i) && (forall|j: int|
                from <= j < i ==> !match_at(text, pat, j)),
            None => forall|j: int| from <= j ==> !match_at(text, pat, j),
        },
    decreases text.len() + 1 - from,
{
    if from + pat.len() > text.len() {
        assert forall|j: int| from <= j implies !match_at(text, pat, j) by {
            assert(j + pat.len() > text.len());
        }
    } else if match_at(text, pat, from) {
    } else {
        lemma_find_some(text, pat, from + 1);
    }
}

/// The first match at or after `from` is `i` whenever `i` matches and no
/// earlier position at or after `from` does.
pub proof fn lemma_find_at(text: Seq<char>, pat: Seq<char>, from: int, i: int)
    requires
        0 <= from <= i,
        match_at(text, pat, i),
        forall|j: int| from <= j < i ==> !match_at(text, pat, j),
    ensures
        spec_find(text, pat, from) == Some(i),
    decreases i - from,
{
    if from < i {
        assert(!match_at(text, pat, from));
        lemma_find_at(text, pat, from + 1, i);
    }
}

/// When no position at or after `from` matches, the search fails.
pub proof fn lemma_find_none(text: Seq<char>, pat: Seq<char>, from: int)
    requires
        0 <= from,
        forall|j: int| from <= j ==> !match_at(text, pat, j),
    ensures
        spec_find(text, pat, from) is None,
    decreases text.len() + 1 - from,
{
    if from + pat.len() <= text.len() {
        assert(!match_at(text, pat, from));
        lemma_find_none(text, pat, from + 1);
    }
}

/// Whether `pat` occurs in `text` at position `i`.
pub fn is_match_at(text: &Vec<char>, pat: &Vec<char>, i: usize) -> (r: bool)
    requires
        i + pat@.len() <= text@.len(),
    ensures
        r == match_at(text@, pat@, i as int),
{
    let mut k: usize = 0;
    while k < pat.len()
        invariant
            i + pat@.len() <= text@.len(),
            text@.len() == text.len(),
            k <= pat@.len(),
            forall|m: int| 0 <= m < k ==> text@[i + m] == pat@[m],
        decreases pat@.len() - k,
    {
        if text[i + k] != pat[k] {
            proof {
                if match_at(text@, pat@, i as int) {
                    assert(text@.subrange(i as int, i + pat@.len())[k as int] == pat@[k as int]);
                }
            }
            return false;
        }
        k += 1;
    }
    proof {
        assert(text@.subrange(i as int, i + pat@.len()) =~= pat@);
    }
    true
}

/// First occurrence of `pat` in `text` at or after `from`.
pub fn find_sub(text: &Vec<char>, pat: &Vec<char>, from: usize) -> (r: Option<usize>)
    requires
        pat@.len() > 0,
    ensures
        match r {
            Some(i) => from <= i && spec_find(text@, pat@, from as int) == Some(i as int),
            None => spec_find(text@, pat@, from as int) is None,
        },
{
    if pat.len() > text.len() {
        proof {
            lemma_find_some(text@, pat@, from as int);
        }
        return None;
    }
    let bound: usize = text.len() - pat.len();
    let mut i: usize = from;
    while i <= bound
        invariant
            from <= i,
            0 < pat@.len() <= text@.len(),
            text@.len() == text.len(),
            bound == text@.len() - pat@.len(),
            forall|j: int| from <= j < i ==> !match_at(text@, pat@, j),
        decreases bound + 1 - i,
    {
        if is_match_at(text, pat, i) {
            proof {
                lemma_find_at(text@, pat@, from as int, i as int);
            }
            return Some(i);
        }
        i += 1;
    }
    proof {
        assert forall|j: int| from <= j implies !match_at(text@, pat@, j) by {
            if j > bound {
                assert(j + pat@.len() > text@.len());
            }
        }
        lemma_find_none(text@, pat@, from as int);
    }
    None
}

/// Copy of `text[a..b]`.
pub fn subvec(text: &Vec<char>, a: usize, b: usize) -> (r: Vec<char>)
    requires
        a <= b <= text@.len(),
    ensures
        r@ == text@.subrange(a as int, b as int),
{
    let mut r: Vec<char> = Vec::new();
    let mut i: usize = a;
    while i < b
        invariant
            a <= i <= b <= text@.len(),
            r@ == text@.subrange(a as int, i as int),
        decreases b - i,
    {
        r.push(text[i]);
        i += 1;
        proof {
            assert(text@.subrange(a as int, i as int) =~= text@.subrange(a as int, i - 1).push(
                text@[i - 1],
            ));
        }
    }
    r
}

/// Appends all of `src` to `dst`.
pub fn push_all(dst: &mut Vec<char>, src: &Vec<char>)
    ensures
        final(dst)@ == old(dst)@ + src@,
{
    let mut i: usize = 0;
    while i < src.len()
        invariant
            i <= src@.len(),
            dst@ == old(dst)@ + src@.subrange(0, i as int),
        decreases src@.len() - i,
    {
        dst.push(src[i]);
        i += 1;
        proof {
            assert(old(dst)@ + src@.subrange(0, i as int) =~= (old(dst)@ + src@.subrange(
                0,
                i - 1,
            )).push(src@[i - 1]));
        }
    }
    proof {
        assert(src@.subrange(0, src@.len() as int) =~= src@);
    }
}

/// `s` with the first occurrence of `pat` replaced by `repl`; `s` itself
/// when `pat` does not occur.
pub open spec fn spec_replace_first(s: Seq<char>, pat: Seq<char>, repl: Seq<char>) -> Seq<char> {
    match spec_find(s, pat, 0) {
        None => s,
        Some(i) => s.subrange(0, i) + repl + s.subrange(i + pat.len(), s.len() as int),
    }
}

/// Replaces the first occurrence of `pat` in `s` by `repl`.
pub fn replace_first(s: &Vec<char>, pat: &Vec<char>, repl: &Vec<char>) -> (r: Vec<char>)
    requires
        pat@.len() > 0,
    ensures
        r@ == spec_replace_first(s@, pat@, repl@),
{
    match find_sub(s, pat, 0) {
        None => subvec(s, 0, s.len()),
        Some(i) => {
            proof {
                lemma_find_some(s@, pat@, 0);
            }
            proof {
                assert(s@.len() == s.len());
            }
            let mut out = subvec(s, 0, i);
            push_all(&mut out, repl);
            let tail = subvec(s, i + pat.len(), s.len());
            push_all(&mut out, &tail);
            proof {
                assert(out@ =~= spec_replace_first(s@, pat@, repl@));
            }
            out
        },
    }
}

/// `s` with every occurrence of `pat` replaced by `repl`, scanning left to
/// right and never rescanning a replacement.
pub open spec fn spec_replace_all(s: Seq<char>, pat: Seq<char>, repl: Seq<char>) -> Seq<char>
    decreases s.len(),
    via spec_replace_all_decreases
{
    if pat.len() == 0 {
        s
    } else {
        match spec_find(s, pat, 0) {
            None => s,
            Some(i) => s.subrange(0, i) + repl + spec_replace_all(
                s.subrange(i + pat.len(), s.len() as int),
                pat,
                repl,
            ),
        }
    }
}

#[via_fn]
proof fn spec_replace_all_decreases(s: Seq<char>, pat: Seq<char>, repl: Seq<char>) {
    lemma_find_some(s, pat, 0);
}

/// Replaces every occurrence of `pat` in `s` by `repl`, left to right.
pub fn replace_all(s: &Vec<char>, pat: &Vec<char>, repl: &Vec<char>) -> (r: Vec<char>)
    requires
        pat@.len() > 0,
    ensures
        r@ == spec_replace_all(s@, pat@, repl@),
{
    let mut out: Vec<char> = Vec::new();
    let mut rest: Vec<char> = subvec(s, 0, s.len());
    proof {
        assert(rest@ =~= s@);
        assert(out@ + spec_replace_all(rest@, pat@, repl@) =~= spec_replace_all(s@, pat@, repl@));
    }
    loop
        invariant
            pat@.len() > 0,
            spec_replace_all(s@, pat@, repl@) == out@ + spec_replace_all(rest@, pat@, repl@),
        decreases rest@.len(),
    {
        let ghost rest_old = rest@;
        let ghost out_old = out@;
        match find_sub(&rest, pat, 0) {
            None => {
                push_all(&mut out, &rest);
                proof {
                    assert(spec_replace_all(rest_old, pat@, repl@) == rest_old);
                    assert(out@ =~= out_old + rest_old);
                }
                return out;
            },
            Some(i) => {
                proof {
                    lemma_find_some(rest@, pat@, 0);
                    assert(rest@.len() == rest.len());
                }
                let head = subvec(&rest, 0, i);
                push_all(&mut out, &head);
                push_all(&mut out, repl);
                rest = subvec(&rest, i + pat.len(), rest.len());
                proof {
                    assert(spec_replace_all(rest_old, pat@, repl@) == rest_old.subrange(0, i as int)
                        + repl@ + spec_replace_all(rest@, pat@, repl@));
                    assert(out@ + spec_replace_all(rest@, pat@, repl@) =~= out_old
                        + spec_replace_all(rest_old, pat@, repl@));
                }
            },
        }
    }
}

} // verus!
