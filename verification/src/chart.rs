//! The top-level transform: two independent passes over a chapter's text,
//! one per delimiter syntax, each replacing every matched block by its
//! rendered HTML; and the preprocessor type the host pipeline drives.

use vstd::prelude::*;
use vstd::string::StringExecFns;

use crate::extract::extract;
use crate::extract::spans_view;
use crate::extract::spec_extract;
use crate::render::chars_to_string;
use crate::render::fresh_token;
use crate::render::render_chars;
use crate::render::spec_render;
use crate::render::str_to_chars;
use crate::textops::replace_first;
use crate::textops::spec_replace_first;
use crate::textops::subvec;

verus! {

/// One markdown file of a book: its name and its path.
#[derive(Debug)]
pub struct MdFile {
    pub name: String,
    pub path: String,
}

/// A group of markdown files: a directory with its readme flag, its
/// subgroups and its files.
#[derive(Debug)]
pub struct MdGroup {
    pub name: String,
    pub path: String,
    pub has_readme: bool,
    pub group_list: Vec<MdGroup>,
    pub md_list: Vec<MdFile>,
}

/// The chart preprocessor: a stateless transform over chapter text.
pub struct Chart;

impl Chart {
    /// Creates the preprocessor.
    pub fn new() -> (c: Chart)
        ensures
            (c == (Chart {})),
    {
        Chart
    }

    /// The name under which the host pipeline configures this preprocessor.
    pub fn name(&self) -> (r: &'static str)
        ensures
            r@ == "chart-preprocessor"@,
    {
        "chart-preprocessor"
    }

    /// Whether a renderer is supported: every renderer but the one named
    /// "not-supported".
    pub fn supports_renderer(&self, renderer: &str) -> (r: bool)
        ensures
            r == (renderer@ != "not-supported"@),
    {
        let a = String::from_str(renderer);
        let b = String::from_str("not-supported");
        !(a == b)
    }
}

/// The fence-style start marker.
pub open spec fn fence_start() -> Seq<char> {
    "```chart"@
}

/// The fence-style end marker.
pub open spec fn fence_end() -> Seq<char> {
    "```"@
}

/// The tag-style start marker.
pub open spec fn tag_start() -> Seq<char> {
    "{% chart %}"@
}

/// The tag-style end marker.
pub open spec fn tag_end() -> Seq<char> {
    "{% endchart %}"@
}

/// Every token of the sequence has the length of a hyphenated UUID.
pub open spec fn tokens_ok(toks: Seq<Seq<char>>) -> bool {
    forall|i: int| 0 <= i < toks.len() ==> (#[trigger] toks[i]).len() == 36
}

/// Replaces, in `cur`, one matched span of `orig` after another by its
/// rendered HTML: each span's matched text is taken from `orig`, rendered
/// with its token, and substituted for its first occurrence in the working
/// copy.
pub open spec fn spec_apply(
    orig: Seq<char>,
    cur: Seq<char>,
    spans: Seq<(int, int)>,
    sm: Seq<char>,
    em: Seq<char>,
    tokens: Seq<Seq<char>>,
) -> Seq<char>
    decreases spans.len(),
{
    if spans.len() == 0 {
        cur
    } else {
        let mat = orig.subrange(spans[0].0, spans[0].1);
        let html = spec_render(mat, sm, em, tokens[0]);
        spec_apply(orig, spec_replace_first(cur, mat, html), spans.skip(1), sm, em, tokens.skip(1))
    }
}

/// One full pass for one delimiter pair: extract every block of `text`,
/// then rewrite them in document order.
pub open spec fn spec_pass(
    text: Seq<char>,
    sm: Seq<char>,
    em: Seq<char>,
    tokens: Seq<Seq<char>>,
) -> Seq<char> {
    spec_apply(text, text, spec_extract(text, sm, em, 0), sm, em, tokens)
}

/// The whole transform: the fence-style pass, then the tag-style pass over
/// its result.
pub open spec fn spec_gen(text: Seq<char>, t1: Seq<Seq<char>>, t2: Seq<Seq<char>>) -> Seq<char> {
    spec_pass(spec_pass(text, fence_start(), fence_end(), t1), tag_start(), tag_end(), t2)
}

/// Appending one more span and token to an application rewrites the result
/// of the shorter application once more.
proof fn lemma_apply_snoc(
    orig: Seq<char>,
    cur: Seq<char>,
    spans: Seq<(int, int)>,
    sp: (int, int),
    sm: Seq<char>,
    em: Seq<char>,
    tokens: Seq<Seq<char>>,
    tk: Seq<char>,
)
    requires
        tokens.len() == spans.len(),
    ensures
        spec_apply(orig, cur, spans.push(sp), sm, em, tokens.push(tk)) == spec_replace_first(
            spec_apply(orig, cur, spans, sm, em, tokens),
            orig.subrange(sp.0, sp.1),
            spec_render(orig.subrange(sp.0, sp.1), sm, em, tk),
        ),
    decreases spans.len(),
{
    if spans.len() == 0 {
        assert(spans.push(sp)[0] == sp);
        assert(tokens.push(tk)[0] == tk);
        assert(spans.push(sp).skip(1) =~= Seq::<(int, int)>::empty());
        assert(tokens.push(tk).skip(1) =~= Seq::<Seq<char>>::empty());
        let mat = orig.subrange(sp.0, sp.1);
        let rewritten = spec_replace_first(cur, mat, spec_render(mat, sm, em, tk));
        assert(spec_apply(orig, cur, spans.push(sp), sm, em, tokens.push(tk)) == spec_apply(
            orig,
            rewritten,
            spans.push(sp).skip(1),
            sm,
            em,
            tokens.push(tk).skip(1),
        ));
        assert(spec_apply(
            orig,
            rewritten,
            spans.push(sp).skip(1),
            sm,
            em,
            tokens.push(tk).skip(1),
        ) == rewritten);
        assert(spec_apply(orig, cur, spans, sm, em, tokens) == cur);
    } else {
        assert(spans.push(sp)[0] == spans[0]);
        assert(tokens.push(tk)[0] == tokens[0]);
        assert(spans.push(sp).skip(1) =~= spans.skip(1).push(sp));
        assert(tokens.push(tk).skip(1) =~= tokens.skip(1).push(tk));
        let mat = orig.subrange(spans[0].0, spans[0].1);
        let html = spec_render(mat, sm, em, tokens[0]);
        lemma_apply_snoc(
            orig,
            spec_replace_first(cur, mat, html),
            spans.skip(1),
            sp,
            sm,
            em,
            tokens.skip(1),
            tk,
        );
    }
}

/// One pass for one delimiter pair: returns the rewritten text, together
/// with the tokens that were minted for its blocks, one per block.
fn run_pass(text: &Vec<char>, sm: &Vec<char>, em: &Vec<char>) -> (r: (Vec<char>, Ghost<
    Seq<Seq<char>>,
>))
    requires
        sm@.len() > 0,
        em@.len() > 0,
    ensures
        tokens_ok(r.1@),
        r.1@.len() == spec_extract(text@, sm@, em@, 0).len(),
        r.0@ == spec_pass(text@, sm@, em@, r.1@),
{
    let spans = extract(text, sm, em);
    let mut cur: Vec<char> = subvec(text, 0, text.len());
    let mut toks: Ghost<Seq<Seq<char>>> = Ghost(Seq::empty());
    let mut k: usize = 0;
    proof {
        assert(cur@ =~= text@);
        assert(spans_view(spans@).take(0) =~= Seq::<(int, int)>::empty());
    }
    while k < spans.len()
        invariant
            sm@.len() > 0,
            em@.len() > 0,
            k <= spans@.len(),
            spans@.len() == spans.len(),
            spans_view(spans@) == spec_extract(text@, sm@, em@, 0),
            forall|j: int| 0 <= j < spans@.len() ==> (#[trigger] spans@[j]).start < spans@[j].end
                <= text@.len(),
            toks@.len() == k,
            tokens_ok(toks@),
            cur@ == spec_apply(text@, text@, spans_view(spans@).take(k as int), sm@, em@, toks@),
        decreases spans@.len() - k,
    {
        let sp_start = spans[k].start;
        let sp_end = spans[k].end;
        let mat = subvec(text, sp_start, sp_end);
        let token = fresh_token();
        let tchars = str_to_chars(token.as_str());
        let html = render_chars(&mat, sm, em, &tchars);
        let newcur = replace_first(&cur, &mat, &html);
        proof {
            let spansv = spans_view(spans@);
            assert(spansv[k as int] == (sp_start as int, sp_end as int));
            assert(spansv.take(k + 1) =~= spansv.take(k as int).push(spansv[k as int]));
            lemma_apply_snoc(
                text@,
                text@,
                spansv.take(k as int),
                spansv[k as int],
                sm@,
                em@,
                toks@,
                tchars@,
            );
        }
        cur = newcur;
        toks = Ghost(toks@.push(tchars@));
        k += 1;
    }
    proof {
        assert(spans_view(spans@).take(spans@.len() as int) =~= spans_view(spans@));
    }
    (cur, toks)
}

/// Rewrites every chart block of `content` into its HTML form: first every
/// fence-style block, then every tag-style block of the intermediate text.
/// The result is the transform of the input under some per-block sequence
/// of freshly minted identifier tokens.
pub fn gen(content: &str) -> (r: String)
    ensures
        exists|t1: Seq<Seq<char>>, t2: Seq<Seq<char>>|
            {
                &&& tokens_ok(t1)
                &&& tokens_ok(t2)
                &&& t1.len() == spec_extract(content@, fence_start(), fence_end(), 0).len()
                &&& t2.len() == spec_extract(
                    spec_pass(content@, fence_start(), fence_end(), t1),
                    tag_start(),
                    tag_end(),
                    0,
                ).len()
                &&& r@ == #[trigger] spec_gen(content@, t1, t2)
            },
{
    let text = str_to_chars(content);
    let sm1 = str_to_chars("```chart");
    let em1 = str_to_chars("```");
    proof {
        reveal_strlit("```chart");
        reveal_strlit("```");
    }
    let (mid, t1) = run_pass(&text, &sm1, &em1);
    let sm2 = str_to_chars("{% chart %}");
    let em2 = str_to_chars("{% endchart %}");
    proof {
        reveal_strlit("{% chart %}");
        reveal_strlit("{% endchart %}");
    }
    let (out, t2) = run_pass(&mid, &sm2, &em2);
    let r = chars_to_string(&out);
    proof {
        assert(r@ == spec_gen(content@, t1@, t2@));
    }
    r
}

/// Law: a pass over a document in which extraction matches no block
/// returns the document unchanged.
pub proof fn lemma_pass_no_match(
    text: Seq<char>,
    sm: Seq<char>,
    em: Seq<char>,
    tokens: Seq<Seq<char>>,
)
    requires
        spec_extract(text, sm, em, 0).len() == 0,
    ensures
        spec_pass(text, sm, em, tokens) == text,
{
}

/// Law: a document in which neither pass matches a block passes through
/// the whole transform unchanged, whatever tokens are minted.
pub proof fn lemma_gen_unchanged(text: Seq<char>, t1: Seq<Seq<char>>, t2: Seq<Seq<char>>)
    requires
        spec_extract(text, fence_start(), fence_end(), 0).len() == 0,
        spec_extract(text, tag_start(), tag_end(), 0).len() == 0,
    ensures
        spec_gen(text, t1, t2) == text,
{
    lemma_pass_no_match(text, fence_start(), fence_end(), t1);
    lemma_pass_no_match(text, tag_start(), tag_end(), t2);
}

} // verus!
