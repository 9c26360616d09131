//! Renders the HTML of a content block as plain lines.
//!
//! The feed escapes its HTML once more than XML asks for, so the payload is
//! unescaped here before it is rendered. Of the rendered lines, those that only
//! hold a stray table separator or the platform's footer are dropped.

use vstd::prelude::*;
use crate::extract::texts;
use crate::text::{
    contains, includes, lines, lowered, replace, replaced, split_lines, to_chars, to_lower,
    to_string, views,
};

verus! {

/// The markdown that the renderer gives for `html`, in its plain or its CommonMark
/// flavour.
pub uninterp spec fn markdown_of(html: Seq<char>, commonmark: bool) -> Seq<char>;

/// Renders HTML as markdown.
///
/// Wraps `html2md::rewrite_html`. The renderer works on its two arguments alone,
/// so its result is named by `markdown_of`; the contract says nothing else of it.
#[verifier::external_body]
fn rewrite_html(html: &str, commonmark: bool) -> (markdown: String)
    ensures
        markdown@ == markdown_of(html@, commonmark),
{
    html2md::rewrite_html(html, commonmark)
}

/// `raw` with the five predefined entities unescaped: first `&lt;`, `&gt;`,
/// `&quot;` and `&apos;`, then `&amp;`.
pub open spec fn unescaped(raw: Seq<char>) -> Seq<char> {
    replaced(
        replaced(
            replaced(replaced(replaced(raw, "&lt;"@, "<"@), "&gt;"@, ">"@), "&quot;"@, "\""@),
            "&apos;"@,
            "'"@,
        ),
        "&amp;"@,
        "&"@,
    )
}

/// Computes `unescaped`.
fn unescape(raw: &Vec<char>) -> (out: Vec<char>)
    ensures
        out@ == unescaped(raw@),
{
    let step1 = replace(raw, &to_chars("&lt;"), &to_chars("<"));
    let step2 = replace(&step1, &to_chars("&gt;"), &to_chars(">"));
    let step3 = replace(&step2, &to_chars("&quot;"), &to_chars("\""));
    let step4 = replace(&step3, &to_chars("&apos;"), &to_chars("'"));
    replace(&step4, &to_chars("&amp;"), &to_chars("&"))
}

/// Unescapes the payload of a content element.
pub fn decode_entities(raw: &str) -> (out: String)
    ensures
        out@ == unescaped(raw@),
{
    to_string(&unescape(&to_chars(raw)))
}

/// Whether a rendered line carries nothing of the block: a lone table separator,
/// or the platform's footer in any mix of capital and small letters.
pub open spec fn is_noise(line: Seq<char>) -> bool {
    line == "|"@ || contains(lowered(line), "this message supports"@)
}

/// The lines of `markdown` that are no noise, in order.
pub open spec fn kept_lines(markdown: Seq<char>) -> Seq<Seq<char>> {
    lines(markdown).filter(|line: Seq<char>| !is_noise(line))
}

/// Decides `is_noise`.
fn noise(line: &Vec<char>) -> (out: bool)
    ensures
        out == is_noise(line@),
{
    proof {
        reveal_strlit("|");
        assert(line@ == "|"@ <==> line@.len() == 1 && line@[0] == '|') by {
            if line@.len() == 1 && line@[0] == '|' {
                assert(line@ =~= "|"@);
            }
        }
    }
    if line.len() == 1 && line[0] == '|' {
        return true;
    }
    includes(&to_lower(line), &to_chars("this message supports"))
}

/// Computes `kept_lines`.
fn kept_rows(markdown: &Vec<char>) -> (out: Vec<Vec<char>>)
    ensures
        views(out@) == kept_lines(markdown@),
{
    let all = split_lines(markdown);
    let ghost keep = |line: Seq<char>| !is_noise(line);
    let mut out: Vec<Vec<char>> = Vec::new();
    let mut i: usize = 0;
    proof {
        reveal(Seq::filter);
        assert(views(all@).take(0) =~= Seq::<Seq<char>>::empty());
    }
    while i < all.len()
        invariant
            i <= all.len(),
            keep == (|line: Seq<char>| !is_noise(line)),
            views(out@) == views(all@).take(i as int).filter(keep),
        decreases all.len() - i,
    {
        let ghost head = views(all@).take(i as int);
        let ghost before = out@;
        proof {
            reveal(Seq::filter);
            assert(views(all@).take(i + 1) =~= head.push(all@[i as int]@));
            assert(head.push(all@[i as int]@).drop_last() =~= head);
        }
        if !noise(&all[i]) {
            out.push(all[i].clone());
            assert(out@.last()@ == all@[i as int]@);
            assert(views(out@) =~= views(before).push(all@[i as int]@));
        }
        i += 1;
    }
    assert(views(all@).take(all.len() as int) =~= views(all@));
    out
}

/// The rows as strings.
fn strings_of(rows: &Vec<Vec<char>>) -> (out: Vec<String>)
    ensures
        texts(out@) == views(rows@),
{
    let mut out: Vec<String> = Vec::new();
    let mut i: usize = 0;
    while i < rows.len()
        invariant
            i <= rows.len(),
            out@.len() == i,
            forall|k: int| 0 <= k < i ==> (#[trigger] out@[k])@ == rows@[k]@,
        decreases rows.len() - i,
    {
        out.push(to_string(&rows[i]));
        i += 1;
    }
    assert(texts(out@) =~= views(rows@));
    out
}

/// Splits rendered markdown into lines and drops the noise.
pub fn filter_lines(markdown: &str) -> (out: Vec<String>)
    ensures
        texts(out@) == kept_lines(markdown@),
{
    strings_of(&kept_rows(&to_chars(markdown)))
}

/// The plain lines of an HTML fragment: its markdown rendering, line by line,
/// without the noise.
pub fn normalize(html: &str) -> (out: Vec<String>)
    ensures
        texts(out@) == kept_lines(markdown_of(html@, false)),
{
    let markdown = rewrite_html(html, false);
    filter_lines(markdown.as_str())
}

} // verus!
