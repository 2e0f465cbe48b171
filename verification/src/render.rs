//! Block rendering: strips the delimiters from a matched block, injects a
//! binding key carrying a freshly minted element id at the first
//! newline-brace boundary of the payload, and wraps the result in the fixed
//! HTML template that invokes the chart-rendering call.

use vstd::prelude::*;
use vstd::string::StrSliceExecFns;

use crate::textops::push_all;
use crate::textops::replace_all;
use crate::textops::replace_first;
use crate::textops::spec_find;
use crate::textops::spec_replace_all;
use crate::textops::spec_replace_first;

verus! {

/// The fixed stylesheet and script includes placed before the chart call.
pub open spec fn link_text() -> Seq<char> {
    "\n<link rel=\"stylesheet\" href=\"/c3.min.css\">\n<script src=\"/d3.min.js\"></script>\n<script src=\"/c3.min.js\"></script>\n"@
}

/// The element id minted for a block: a fixed prefix plus the unique token.
pub open spec fn spec_id(token: Seq<char>) -> Seq<char> {
    "chart-"@ + token
}

/// The two-character boundary at which the binding key is injected.
pub open spec fn newline_brace() -> Seq<char> {
    "\n{"@
}

/// The injected binding: a newline, an opening brace, and a `bindto` key
/// naming the element id.
pub open spec fn spec_bindto(id: Seq<char>) -> Seq<char> {
    "\n{\"bindto\":\"#"@ + id + "\","@
}

/// A matched block's payload: the matched text with every literal
/// occurrence of either delimiter removed.
pub open spec fn spec_payload(mat: Seq<char>, sm: Seq<char>, em: Seq<char>) -> Seq<char> {
    spec_replace_all(spec_replace_all(mat, sm, Seq::empty()), em, Seq::empty())
}

/// The rendered HTML of one matched block: a container div, the id-bearing
/// element div, the fixed includes, and a script whose single call takes
/// the binding-injected payload as its argument.
pub open spec fn spec_render(mat: Seq<char>, sm: Seq<char>, em: Seq<char>, token: Seq<char>) -> Seq<
    char,
> {
    let id = spec_id(token);
    let body = spec_replace_first(spec_payload(mat, sm, em), newline_brace(), spec_bindto(id));
    "<div>\n<div id=\""@ + id + "\"></div>\n"@ + link_text() + "\n<script>\nc3.generate("@ + body
        + ");\n</script>\n</div>"@
}

/// Relies on `uuid::Uuid::new_v4` and the `Display` form of a `Uuid`: a
/// freshly drawn random version-4 UUID printed in hyphenated form, which is
/// 36 characters long. Nothing further is assumed of the value: two calls
/// may or may not return the same text.
#[verifier::external_body]
pub(crate) fn fresh_token() -> (r: String)
    ensures
        r@.len() == 36,
{
    format!("{}", uuid::Uuid::new_v4())
}

/// Relies on `String::push`: appends exactly the given character.
#[verifier::external_body]
pub(crate) fn push_char(s: &mut String, c: char)
    ensures
        final(s)@ == old(s)@.push(c),
{
    s.push(c);
}

/// The characters of `s`, in order.
pub fn str_to_chars(s: &str) -> (r: Vec<char>)
    ensures
        r@ == s@,
{
    let n = s.unicode_len();
    let mut r: Vec<char> = Vec::new();
    let mut i: usize = 0;
    while i < n
        invariant
            n == s@.len(),
            i <= n,
            r@ == s@.take(i as int),
        decreases n - i,
    {
        let c = s.get_char(i);
        r.push(c);
        i += 1;
        proof {
            assert(s@.take(i as int) =~= s@.take(i - 1).push(s@[i - 1]));
        }
    }
    proof {
        assert(s@.take(n as int) =~= s@);
    }
    r
}

/// The string holding exactly the characters of `v`, in order.
pub fn chars_to_string(v: &Vec<char>) -> (r: String)
    ensures
        r@ == v@,
{
    let mut r = String::new();
    let mut i: usize = 0;
    while i < v.len()
        invariant
            i <= v@.len(),
            v@.len() == v.len(),
            r@ == v@.take(i as int),
        decreases v@.len() - i,
    {
        push_char(&mut r, v[i]);
        i += 1;
        proof {
            assert(v@.take(i as int) =~= v@.take(i - 1).push(v@[i - 1]));
        }
    }
    proof {
        assert(v@.take(v@.len() as int) =~= v@);
    }
    r
}

/// Renders one matched block, delimiters included, into its HTML form,
/// binding it to the element id minted from `token`.
pub fn render_chars(mat: &Vec<char>, sm: &Vec<char>, em: &Vec<char>, token: &Vec<char>) -> (r: Vec<
    char,
>)
    requires
        sm@.len() > 0,
        em@.len() > 0,
    ensures
        r@ == spec_render(mat@, sm@, em@, token@),
{
    let empty: Vec<char> = Vec::new();
    let s1 = replace_all(mat, sm, &empty);
    let payload = replace_all(&s1, em, &empty);
    let mut id = str_to_chars("chart-");
    push_all(&mut id, token);
    let mut bind = str_to_chars("\n{\"bindto\":\"#");
    push_all(&mut bind, &id);
    let bind_tail = str_to_chars("\",");
    push_all(&mut bind, &bind_tail);
    let nb = str_to_chars("\n{");
    proof {
        reveal_strlit("\n{");
    }
    let body = replace_first(&payload, &nb, &bind);
    let mut out = str_to_chars("<div>\n<div id=\"");
    push_all(&mut out, &id);
    let div_tail = str_to_chars("\"></div>\n");
    push_all(&mut out, &div_tail);
    let link = str_to_chars(
        "\n<link rel=\"stylesheet\" href=\"/c3.min.css\">\n<script src=\"/d3.min.js\"></script>\n<script src=\"/c3.min.js\"></script>\n",
    );
    push_all(&mut out, &link);
    let call_head = str_to_chars("\n<script>\nc3.generate(");
    push_all(&mut out, &call_head);
    push_all(&mut out, &body);
    let call_tail = str_to_chars(");\n</script>\n</div>");
    push_all(&mut out, &call_tail);
    proof {
        assert(id@ =~= spec_id(token@));
        assert(bind@ =~= spec_bindto(spec_id(token@)));
        assert(out@ =~= spec_render(mat@, sm@, em@, token@));
    }
    out
}

/// Renders one matched block into its HTML form; `token` is the unique
/// suffix of the element id the chart binds to.
pub fn gen_html(mat: &str, start_marker: &str, end_marker: &str, token: &str) -> (r: String)
    requires
        start_marker@.len() > 0,
        end_marker@.len() > 0,
    ensures
        r@ == spec_render(mat@, start_marker@, end_marker@, token@),
{
    let m = str_to_chars(mat);
    let s = str_to_chars(start_marker);
    let e = str_to_chars(end_marker);
    let t = str_to_chars(token);
    let out = render_chars(&m, &s, &e, &t);
    chars_to_string(&out)
}

/// Law: a rendered block carries exactly one generated identifier, used
/// consistently: when the stripped payload has a newline-brace boundary,
/// the output decomposes around the same `spec_id(token)` both as the
/// element div's id and as the value of the injected binding key.
pub proof fn lemma_render_consistent_id(
    mat: Seq<char>,
    sm: Seq<char>,
    em: Seq<char>,
    token: Seq<char>,
)
    ensures
        match spec_find(spec_payload(mat, sm, em), newline_brace(), 0) {
            Some(i) => {
                let id = spec_id(token);
                let pay = spec_payload(mat, sm, em);
                spec_render(mat, sm, em, token) == "<div>\n<div id=\""@ + id + "\"></div>\n"@
                    + link_text() + "\n<script>\nc3.generate("@ + pay.subrange(0, i)
                    + "\n{\"bindto\":\"#"@ + id + "\","@ + pay.subrange(
                    i + newline_brace().len(),
                    pay.len() as int,
                ) + ");\n</script>\n</div>"@
            },
            None => spec_render(mat, sm, em, token) == "<div>\n<div id=\""@ + spec_id(token)
                + "\"></div>\n"@ + link_text() + "\n<script>\nc3.generate("@ + spec_payload(
                mat,
                sm,
                em,
            ) + ");\n</script>\n</div>"@,
        },
{
    let id = spec_id(token);
    let pay = spec_payload(mat, sm, em);
    match spec_find(pay, newline_brace(), 0) {
        Some(i) => {
            assert(spec_replace_first(pay, newline_brace(), spec_bindto(id)) == pay.subrange(0, i)
                + spec_bindto(id) + pay.subrange(i + newline_brace().len(), pay.len() as int));
            assert(spec_render(mat, sm, em, token) =~= "<div>\n<div id=\""@ + id + "\"></div>\n"@
                + link_text() + "\n<script>\nc3.generate("@ + pay.subrange(0, i)
                + "\n{\"bindto\":\"#"@ + id + "\","@ + pay.subrange(
                i + newline_brace().len(),
                pay.len() as int,
            ) + ");\n</script>\n</div>"@);
        },
        None => {
            assert(spec_replace_first(pay, newline_brace(), spec_bindto(id)) == pay);
        },
    }
}

/// Law: distinct identifier tokens yield distinct element ids, so blocks
/// rendered from distinct tokens never collide on a rendered page.
pub proof fn lemma_distinct_tokens_distinct_ids(t1: Seq<char>, t2: Seq<char>)
    requires
        t1 != t2,
    ensures
        spec_id(t1) != spec_id(t2),
{
    if spec_id(t1) == spec_id(t2) {
        assert(("chart-"@ + t1).len() == "chart-"@.len() + t1.len());
        assert(("chart-"@ + t2).len() == "chart-"@.len() + t2.len());
        assert(t1.len() == t2.len());
        assert forall|k: int| 0 <= k < t1.len() implies t1[k] == t2[k] by {
            assert(spec_id(t1)["chart-"@.len() + k] == spec_id(t2)["chart-"@.len() + k]);
        }
        assert(t1 =~= t2);
    }
}

} // verus!
