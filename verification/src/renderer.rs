//! Rendering a note as HTML: markdown files through the markdown renderer, other files as
//! escaped preformatted text, and bare web addresses turned into links in both.
use vstd::prelude::*;
use vstd::utf8::{decode_utf8, encode_utf8, is_char_boundary, valid_utf8};
use crate::errors::{AppError, AppErrorView};
use crate::text::{chars_of, concat2, concat3, ends_with_chars, push_char, seq_ends_with};

verus! {

broadcast use {vstd::utf8::encode_utf8_decode_utf8, vstd::utf8::encode_utf8_valid_utf8};

// ---------------------------------------------------------------------------------------
// Outside renderers
// ---------------------------------------------------------------------------------------

/// The HTML that the markdown renderer produces for a text, with strikethrough, tables,
/// footnotes, task lists and smart punctuation enabled.
pub uninterp spec fn markdown_html(content: Seq<char>) -> Seq<char>;

/// Renders markdown with `pulldown_cmark::Parser::new_ext` (strikethrough, tables,
/// footnotes, task lists, smart punctuation) and `pulldown_cmark::html::push_html`.
#[verifier::external_body]
fn markdown_to_html(content: &str) -> (r: String)
    ensures
        r@ == markdown_html(content@),
{
    let mut options = pulldown_cmark::Options::empty();
    options.insert(pulldown_cmark::Options::ENABLE_STRIKETHROUGH);
    options.insert(pulldown_cmark::Options::ENABLE_TABLES);
    options.insert(pulldown_cmark::Options::ENABLE_FOOTNOTES);
    options.insert(pulldown_cmark::Options::ENABLE_TASKLISTS);
    options.insert(pulldown_cmark::Options::ENABLE_SMART_PUNCTUATION);
    let parser = pulldown_cmark::Parser::new_ext(content, options);
    let mut html_output = String::new();
    pulldown_cmark::html::push_html(&mut html_output, parser);
    html_output
}

/// How one character reads in HTML text: `&`, `<` and `>` become entities.
pub open spec fn escaped_char(c: char) -> Seq<char> {
    if c == '&' {
        "&amp;"@
    } else if c == '<' {
        "&lt;"@
    } else if c == '>' {
        "&gt;"@
    } else {
        seq![c]
    }
}

/// A text escaped for use as HTML text, as `html_escape::encode_text` escapes it: `&`, `<`
/// and `>` become their entities and every other character stays.
pub open spec fn html_text_escaped(s: Seq<char>) -> Seq<char>
    decreases s.len(),
{
    if s.len() == 0 {
        Seq::empty()
    } else {
        html_text_escaped(s.drop_last()) + escaped_char(s.last())
    }
}

/// Escapes text for use as HTML text: `&`, `<` and `>` become `&amp;`, `&lt;` and `&gt;`.
fn escape_html_text(s: &str) -> (r: String)
    ensures
        r@ == html_text_escaped(s@),
{
    let v = chars_of(s);
    let mut out = String::new();
    let mut i: usize = 0;
    assert(v@.take(0) =~= Seq::<char>::empty());
    while i < v.len()
        invariant
            i <= v@.len(),
            out@ == html_text_escaped(v@.take(i as int)),
        decreases v.len() - i,
    {
        let c = v[i];
        assert(v@.take(i + 1).drop_last() =~= v@.take(i as int));
        assert(v@.take(i + 1).last() == c);
        if c == '&' {
            out.append("&amp;");
        } else if c == '<' {
            out.append("&lt;");
        } else if c == '>' {
            out.append("&gt;");
        } else {
            push_char(&mut out, c);
            assert(out@ =~= html_text_escaped(v@.take(i as int)) + seq![c]);
        }
        i += 1;
    }
    assert(v@.take(v@.len() as int) =~= s@);
    out
}

/// The byte spans of the web addresses that the pattern
/// `(?i)\b(https?://[^\s<>"'`()\[\]{}]+)\b` finds in a text, in the order the regex crate
/// reports its captures, or the text of the error where the pattern does not compile.
pub uninterp spec fn url_spans(html: Seq<char>) -> Result<Seq<(usize, usize)>, Seq<char>>;

/// The spans lie in order, do not overlap, and start and end on character boundaries of
/// the text's UTF-8 bytes.
pub open spec fn spans_well_formed(bytes: Seq<u8>, spans: Seq<(usize, usize)>) -> bool {
    &&& forall|k: int|
        0 <= k < spans.len() ==> #[trigger] spans[k].0 <= spans[k].1 && spans[k].1 <= bytes.len()
            && is_char_boundary(bytes, spans[k].0 as int) && is_char_boundary(bytes, spans[k].1 as int)
    &&& forall|k: int| 0 <= k < spans.len() - 1 ==> #[trigger] spans[k].1 <= spans[k + 1].0
}

/// The spans, or the error text, that a search for addresses gives.
pub open spec fn spans_view(r: Result<Vec<(usize, usize)>, String>) -> Result<Seq<(usize, usize)>, Seq<char>> {
    match r {
        Ok(v) => Ok(v@),
        Err(e) => Err(e@),
    }
}

/// Finds the web addresses in a text with `regex::Regex::new` and `captures_iter`,
/// reporting the start and end of capture group 1 of each match. The regex crate reports
/// matches in order, without overlap, on UTF-8 boundaries.
#[verifier::external_body]
fn find_url_spans(html: &str) -> (r: Result<Vec<(usize, usize)>, String>)
    ensures
        url_spans(html@) == spans_view(r),
        r matches Ok(v) ==> spans_well_formed(encode_utf8(html@), v@),
{
    let re = match regex::Regex::new(r#"(?i)\b(https?://[^\s<>"'`()\[\]{}]+)\b"#) {
        Ok(re) => re,
        Err(e) => return Err(e.to_string()),
    };
    let mut spans = Vec::new();
    for caps in re.captures_iter(html) {
        if let Some(m) = caps.get(1) {
            spans.push((m.start(), m.end()));
        }
    }
    Ok(spans)
}

// ---------------------------------------------------------------------------------------
// Links
// ---------------------------------------------------------------------------------------

/// The bytes of `<a `.
pub open spec fn open_tag_bytes() -> Seq<u8> {
    seq![60u8, 97u8, 32u8]
}

/// The bytes of `</a>`.
pub open spec fn close_tag_bytes() -> Seq<u8> {
    seq![60u8, 47u8, 97u8, 62u8]
}

/// Where `pat` last occurs in `b`, as `str::rfind` finds it.
pub open spec fn last_occurrence(b: Seq<u8>, pat: Seq<u8>) -> Option<int>
    decreases b.len(),
{
    if b.len() < pat.len() {
        None
    } else if b.len() == 0 {
        Some(0)
    } else if b.subrange(b.len() - pat.len(), b.len() as int) == pat {
        Some(b.len() - pat.len())
    } else {
        last_occurrence(b.drop_last(), pat)
    }
}

/// Text that ends inside a link: an `<a ` tag opens after the last `</a>`.
pub open spec fn inside_anchor(before: Seq<u8>) -> bool {
    match (last_occurrence(before, open_tag_bytes()), last_occurrence(before, close_tag_bytes())) {
        (Some(open), Some(close)) => open > close,
        (Some(_), None) => true,
        _ => false,
    }
}

/// A web address as a link that opens in a new window.
pub open spec fn anchor_for(url: Seq<char>) -> Seq<char> {
    "<a href=\""@ + url + "\" target=\"_blank\" rel=\"noopener noreferrer\">"@ + url + "</a>"@
}

/// What stands for the address at bytes `s..e`: the address itself where it already lies
/// inside a link, else a link to it.
pub open spec fn replacement(b: Seq<u8>, s: int, e: int) -> Seq<char> {
    let url = decode_utf8(b.subrange(s, e));
    if inside_anchor(b.take(s)) {
        url
    } else {
        anchor_for(url)
    }
}

/// The text from byte `prev` on, with the addresses from span `k` on replaced.
pub open spec fn linked_from(b: Seq<u8>, spans: Seq<(usize, usize)>, k: int, prev: int) -> Seq<char>
    decreases spans.len() - k,
{
    if k < 0 || k >= spans.len() {
        decode_utf8(b.subrange(prev, b.len() as int))
    } else {
        let s = spans[k].0 as int;
        let e = spans[k].1 as int;
        decode_utf8(b.subrange(prev, s)) + replacement(b, s, e) + linked_from(b, spans, k + 1, e)
    }
}

/// The text with its addresses turned into links.
pub open spec fn linkified(html: Seq<char>) -> Result<Seq<char>, AppErrorView> {
    match url_spans(html) {
        Ok(spans) => Ok(linked_from(encode_utf8(html), spans, 0, 0)),
        Err(e) => Err(AppErrorView::SearchQuery("Failed to compile URL regex: "@ + e)),
    }
}

fn last_occurrence_in(bytes: &[u8], end: usize, pat: &Vec<u8>) -> (r: Option<usize>)
    requires
        end <= bytes@.len(),
        pat@.len() > 0,
    ensures
        r matches Some(i) ==> last_occurrence(bytes@.take(end as int), pat@) == Some(i as int),
        r is None ==> last_occurrence(bytes@.take(end as int), pat@) is None,
{
    let mut e = end;
    while e >= pat.len()
        invariant
            e <= end <= bytes@.len(),
            pat@.len() > 0,
            last_occurrence(bytes@.take(end as int), pat@) == last_occurrence(bytes@.take(e as int), pat@),
        decreases e,
    {
        let start = e - pat.len();
        let mut k: usize = 0;
        let mut same = true;
        while k < pat.len()
            invariant
                start + pat@.len() == e <= bytes@.len(),
                k <= pat@.len(),
                same == (forall|j: int| 0 <= j < k ==> bytes@[start + j] == pat@[j]),
            decreases pat.len() - k,
        {
            if bytes[start + k] != pat[k] {
                same = false;
            }
            k += 1;
        }
        let ghost t = bytes@.take(e as int);
        assert(same == (t.subrange(t.len() - pat@.len(), t.len() as int) == pat@)) by {
            if same {
                assert(t.subrange(t.len() - pat@.len(), t.len() as int) =~= pat@);
            } else {
                let j = choose|j: int| 0 <= j < pat@.len() && bytes@[start + j] != pat@[j];
                assert(t.subrange(t.len() - pat@.len(), t.len() as int)[j] != pat@[j]);
            }
        }
        if same {
            return Some(start);
        }
        assert(t.drop_last() =~= bytes@.take(e - 1));
        e -= 1;
    }
    None
}

fn inside_anchor_at(bytes: &[u8], end: usize) -> (r: bool)
    requires
        end <= bytes@.len(),
    ensures
        r == inside_anchor(bytes@.take(end as int)),
{
    let mut open_pat: Vec<u8> = Vec::new();
    open_pat.push(60u8);
    open_pat.push(97u8);
    open_pat.push(32u8);
    assert(open_pat@ =~= open_tag_bytes());
    let mut close_pat: Vec<u8> = Vec::new();
    close_pat.push(60u8);
    close_pat.push(47u8);
    close_pat.push(97u8);
    close_pat.push(62u8);
    assert(close_pat@ =~= close_tag_bytes());
    let open = last_occurrence_in(bytes, end, &open_pat);
    let close = last_occurrence_in(bytes, end, &close_pat);
    match (open, close) {
        (Some(o), Some(c)) => o > c,
        (Some(_), None) => true,
        _ => false,
    }
}

/// A character boundary of a text is one of each of its suffixes that start at an
/// earlier boundary.
pub proof fn lemma_boundary_in_suffix(b: Seq<u8>, a: int, x: int)
    requires
        valid_utf8(b),
        0 <= a <= x <= b.len(),
        is_char_boundary(b, a),
        is_char_boundary(b, x),
    ensures
        valid_utf8(b.subrange(a, b.len() as int)),
        is_char_boundary(b.subrange(a, b.len() as int), x - a),
{
    vstd::utf8::valid_utf8_split(b, a);
    let t = b.subrange(a, b.len() as int);
    if x == a {
    } else if x == b.len() {
        vstd::utf8::is_char_boundary_start_end_of_seq(t);
    } else {
        vstd::utf8::is_char_boundary_iff_not_is_continuation_byte(b, x);
        vstd::utf8::is_char_boundary_iff_not_is_continuation_byte(t, x - a);
    }
}

/// Appends the text between two addresses and what stands for the second, and gives the
/// text after it.
fn emit_span<'a>(out: &mut String, html: &str, bytes: &[u8], rest: &'a str, prev: usize, s: usize, e: usize) -> (after: &'a str)
    requires
        bytes@ == encode_utf8(html@),
        prev <= s <= e <= bytes@.len(),
        is_char_boundary(bytes@, prev as int),
        is_char_boundary(bytes@, s as int),
        is_char_boundary(bytes@, e as int),
        encode_utf8(rest@) == bytes@.subrange(prev as int, bytes@.len() as int),
    ensures
        final(out)@ == old(out)@ + decode_utf8(bytes@.subrange(prev as int, s as int)) + replacement(
            bytes@,
            s as int,
            e as int,
        ),
        encode_utf8(after@) == bytes@.subrange(e as int, bytes@.len() as int),
{
    let ghost b = bytes@;
    proof {
        lemma_boundary_in_suffix(b, prev as int, s as int);
    }
    let (gap, tail) = rest.split_at(s - prev);
    assert(encode_utf8(gap@) =~= b.subrange(prev as int, s as int));
    assert(encode_utf8(tail@) =~= b.subrange(s as int, b.len() as int));
    proof {
        lemma_boundary_in_suffix(b, s as int, e as int);
    }
    let (url, after) = tail.split_at(e - s);
    assert(encode_utf8(url@) =~= b.subrange(s as int, e as int));
    assert(encode_utf8(after@) =~= b.subrange(e as int, b.len() as int));
    assert(gap@ == decode_utf8(b.subrange(prev as int, s as int)));
    assert(url@ == decode_utf8(b.subrange(s as int, e as int)));
    out.append(gap);
    let inside = inside_anchor_at(bytes, s);
    if inside {
        out.append(url);
    } else {
        out.append("<a href=\"");
        out.append(url);
        out.append("\" target=\"_blank\" rel=\"noopener noreferrer\">");
        out.append(url);
        out.append("</a>");
    }
    after
}

/// Turns the bare web addresses in HTML into links that open in a new window, leaving
/// alone those that already lie inside a link.
pub fn linkify_urls_in_html(html: &str) -> (r: Result<String, AppError>)
    ensures
        r matches Ok(s) ==> linkified(html@) == Ok::<Seq<char>, AppErrorView>(s@),
        r matches Err(e) ==> linkified(html@) == Err::<Seq<char>, AppErrorView>(e@),
{
    let spans = match find_url_spans(html) {
        Ok(v) => v,
        Err(e) => {
            return Err(AppError::SearchQuery(concat2("Failed to compile URL regex: ", e.as_str())));
        },
    };
    let bytes = html.as_bytes();
    let ghost b = encode_utf8(html@);
    let mut out = String::new();
    let mut rest: &str = html;
    let mut prev: usize = 0;
    let mut k: usize = 0;
    assert(b.subrange(0, b.len() as int) =~= b);
    proof {
        vstd::utf8::is_char_boundary_start_end_of_seq(b);
    }
    assert(out@ + linked_from(b, spans@, 0, 0) =~= linked_from(b, spans@, 0, 0));
    while k < spans.len()
        invariant
            k <= spans.len(),
            bytes@ == b,
            b == encode_utf8(html@),
            valid_utf8(b),
            spans_well_formed(b, spans@),
            prev <= b.len(),
            is_char_boundary(b, prev as int),
            k < spans.len() ==> prev <= spans@[k as int].0,
            encode_utf8(rest@) == b.subrange(prev as int, b.len() as int),
            linked_from(b, spans@, 0, 0) == out@ + linked_from(b, spans@, k as int, prev as int),
        decreases spans.len() - k,
    {
        let (s, e) = spans[k];
        assert(spans@[k as int].0 <= spans@[k as int].1 && spans@[k as int].1 <= b.len());
        let ghost before = out@;
        let after = emit_span(&mut out, html, bytes, rest, prev, s, e);
        assert(linked_from(b, spans@, k as int, prev as int) == decode_utf8(b.subrange(prev as int, s as int))
            + replacement(b, s as int, e as int) + linked_from(b, spans@, k + 1, e as int));
        assert(out@ + linked_from(b, spans@, k + 1, e as int) =~= before + linked_from(b, spans@, k as int, prev as int));
        proof {
            if k + 1 < spans.len() {
                assert(spans@[k as int].1 <= spans@[k + 1].0);
            }
        }
        rest = after;
        prev = e;
        k += 1;
    }
    assert(rest@ == decode_utf8(b.subrange(prev as int, b.len() as int)));
    out.append(rest);
    assert(out@ =~= linked_from(b, spans@, 0, 0));
    Ok(out)
}

// ---------------------------------------------------------------------------------------
// Notes
// ---------------------------------------------------------------------------------------

/// A file whose name ends in `.md` or `.markdown` holds markdown.
pub open spec fn is_markdown_name(f: Seq<char>) -> bool {
    seq_ends_with(f, ".md"@) || seq_ends_with(f, ".markdown"@)
}

/// Linked text, or the text as it was where linking fails.
pub open spec fn linked_or_same(s: Seq<char>) -> Seq<char> {
    match linkified(s) {
        Ok(t) => t,
        Err(_) => s,
    }
}

/// The HTML of a note: rendered markdown for markdown files, escaped preformatted text for
/// others, with web addresses linked in both.
pub open spec fn rendered_note(filename: Seq<char>, content: Seq<char>) -> Seq<char> {
    if is_markdown_name(filename) {
        linked_or_same(markdown_html(content))
    } else {
        "<pre>"@ + linked_or_same(html_text_escaped(content)) + "</pre>"@
    }
}

/// Renders a note as HTML, choosing markdown or plain text by its file name.
pub fn render_note(filename: &str, content: &str) -> (r: String)
    ensures
        r@ == rendered_note(filename@, content@),
{
    let name = chars_of(filename);
    let md = chars_of(".md");
    let markdown = chars_of(".markdown");
    if ends_with_chars(&name, &md) || ends_with_chars(&name, &markdown) {
        let html_output = markdown_to_html(content);
        match linkify_urls_in_html(html_output.as_str()) {
            Ok(result) => result,
            Err(_) => html_output,
        }
    } else {
        let escaped = escape_html_text(content);
        match linkify_urls_in_html(escaped.as_str()) {
            Ok(linked) => concat3("<pre>", linked.as_str(), "</pre>"),
            Err(_) => concat3("<pre>", escaped.as_str(), "</pre>"),
        }
    }
}

} // verus!
