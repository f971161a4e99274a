//! Text and HTML from a DOCX file: its `word/document.xml` part is read
//! from the ZIP archive and walked tag by tag.
use vstd::prelude::*;
use crate::text::{
    index_of, lemma_index_of_bounds, find_char, starts_with, starts_with_str, eq_str, trim,
    trim_chars, push_str, extend_chars, to_lowercase_chars, unicode_lowercase, matches_at,
    str_chars,
};
use crate::markup::{decode_xml, decode_xml_entities, escape_html, html_escape};
use crate::pdf_text::{dec, dec_chars, views};
use crate::text::{bytes_view, prefixed, utf8_bytes};
use crate::document::text_view;
use vstd::utf8::encode_utf8;

verus! {

/// The length of the tag at the start of `s` (which begins with `<`): up to
/// and including the first `>`, or all of `s`.
pub open spec fn tag_len(s: Seq<char>) -> int {
    if index_of(s, '>') < s.len() {
        index_of(s, '>') + 1
    } else {
        s.len() as int
    }
}

proof fn lemma_tag_len(s: Seq<char>)
    requires
        s.len() > 0,
        s[0] == '<',
    ensures
        1 <= tag_len(s) <= s.len(),
{
    lemma_index_of_bounds(s, '>');
}

proof fn lemma_text_len(s: Seq<char>)
    requires
        s.len() > 0,
        s[0] != '<',
    ensures
        1 <= index_of(s, '<') <= s.len(),
{
    lemma_index_of_bounds(s, '<');
}

/// Reads the tag that starts at `i`; returns it and the position after it.
fn read_tag(xml: &[char], i: usize) -> (r: (Vec<char>, usize))
    requires
        i < xml@.len(),
        xml@[i as int] == '<',
    ensures
        r.1 == i + tag_len(xml@.skip(i as int)),
        r.0@ == xml@.subrange(i as int, r.1 as int),
        i < r.1 <= xml@.len(),
{
    let j = find_char(xml, i, '>');
    let end = if j < xml.len() { j + 1 } else { j };
    proof {
        lemma_tag_len(xml@.skip(i as int));
    }
    let mut tag: Vec<char> = Vec::new();
    let mut k = i;
    while k < end
        invariant
            i <= k <= end <= xml@.len(),
            tag@ == xml@.subrange(i as int, k as int),
        decreases end - k,
    {
        tag.push(xml[k]);
        k = k + 1;
        assert(tag@ =~= xml@.subrange(i as int, k as int));
    }
    (tag, end)
}

/// Reads the text that starts at `i` up to the next `<`.
fn read_text(xml: &[char], i: usize) -> (r: (Vec<char>, usize))
    requires
        i < xml@.len(),
        xml@[i as int] != '<',
    ensures
        r.1 == i + index_of(xml@.skip(i as int), '<'),
        r.0@ == xml@.subrange(i as int, r.1 as int),
        i < r.1 <= xml@.len(),
{
    let j = find_char(xml, i, '<');
    proof {
        lemma_text_len(xml@.skip(i as int));
    }
    let mut text: Vec<char> = Vec::new();
    let mut k = i;
    while k < j
        invariant
            i <= k <= j <= xml@.len(),
            text@ == xml@.subrange(i as int, k as int),
        decreases j - k,
    {
        text.push(xml[k]);
        k = k + 1;
        assert(text@ =~= xml@.subrange(i as int, k as int));
    }
    (text, j)
}

// ── Plain text ──────────────────────────────────────────────────

/// Whether a tag opens a `<w:t …>` text run: `<w:t>` itself, or `<w:t`
/// followed by a space and attributes (not `<w:tab/>`, `<w:tbl>`, `<w:tc>`
/// or `<w:tr>`, which only share the prefix).
pub open spec fn text_run_tag(tag: Seq<char>) -> bool {
    tag == "<w:t>"@ || starts_with(tag, "<w:t "@)
}

fn is_text_run_tag(tag: &[char]) -> (r: bool)
    ensures
        r == text_run_tag(tag@),
{
    eq_str(tag, "<w:t>") || starts_with_str(tag, "<w:t ")
}

/// The text written for the rest of `document.xml`, given whether a `<w:t>`
/// run is open and whether a paragraph has begun.
///
/// `<w:p …>` starts a paragraph (a blank line before all but the first),
/// text inside `<w:t …>` … `</w:t>` is kept with its entities decoded, and
/// `<w:br…>` is a line break.
pub open spec fn docx_text_scan(s: Seq<char>, in_t: bool, started: bool) -> Seq<char>
    decreases s.len(),
{
    if s.len() == 0 {
        Seq::empty()
    } else if s[0] == '<' {
        let n = tag_len(s);
        if 1 <= n <= s.len() {
            let tag = s.take(n);
            let rest = s.skip(n);
            if starts_with(tag, "<w:p "@) || tag == "<w:p>"@ {
                (if started {
                    "\n\n"@
                } else {
                    Seq::empty()
                }) + docx_text_scan(rest, false, true)
            } else if text_run_tag(tag) {
                docx_text_scan(rest, true, started)
            } else if tag == "</w:t>"@ {
                docx_text_scan(rest, false, started)
            } else if starts_with(tag, "<w:br"@) {
                "\n"@ + docx_text_scan(rest, in_t, started)
            } else {
                docx_text_scan(rest, in_t, started)
            }
        } else {
            Seq::empty()
        }
    } else if in_t {
        let n = index_of(s, '<');
        if 1 <= n <= s.len() {
            decode_xml(s.take(n)) + docx_text_scan(s.skip(n), in_t, started)
        } else {
            Seq::empty()
        }
    } else {
        docx_text_scan(s.drop_first(), in_t, started)
    }
}

/// The plain text of `document.xml`.
pub open spec fn docx_text(xml: Seq<char>) -> Seq<char> {
    trim(docx_text_scan(xml, false, false))
}

/// The plain text of any `document.xml` has no white space at either end:
/// trimming it changes nothing.
pub proof fn law_docx_text_trimmed(xml: Seq<char>)
    ensures
        trim(docx_text(xml)) == docx_text(xml),
{
    crate::text::lemma_trim_idempotent(docx_text_scan(xml, false, false));
}

/// Walk the XML from `word/document.xml` and produce plain text.
pub fn docx_xml_to_text(xml: &[char]) -> (r: Vec<char>)
    ensures
        r@ == docx_text(xml@),
{
    let mut out: Vec<char> = Vec::new();
    let mut in_t = false;
    let mut started = false;
    let mut i: usize = 0;
    assert(xml@.skip(0) =~= xml@);
    while i < xml.len()
        invariant
            i <= xml@.len(),
            out@ + docx_text_scan(xml@.skip(i as int), in_t, started) == docx_text_scan(
                xml@,
                false,
                false,
            ),
        decreases xml.len() - i,
    {
        let ghost s = xml@.skip(i as int);
        let ghost before = out@;
        let ghost (t0, p0) = (in_t, started);
        if xml[i] == '<' {
            let (tag, end) = read_tag(xml, i);
            proof {
                lemma_tag_len(s);
                assert(tag@ =~= s.take(end - i));
                assert(s.skip(end - i) =~= xml@.skip(end as int));
            }
            if starts_with_str(&tag, "<w:p ") || eq_str(&tag, "<w:p>") {
                if started {
                    push_str(&mut out, "\n\n");
                }
                started = true;
                in_t = false;
            } else if is_text_run_tag(&tag) {
                in_t = true;
            } else if eq_str(&tag, "</w:t>") {
                in_t = false;
            } else if starts_with_str(&tag, "<w:br") {
                push_str(&mut out, "\n");
            }
            i = end;
        } else if in_t {
            let (text, end) = read_text(xml, i);
            proof {
                lemma_text_len(s);
                assert(text@ =~= s.take(end - i));
                assert(s.skip(end - i) =~= xml@.skip(end as int));
            }
            let d = decode_xml_entities(&text);
            extend_chars(&mut out, &d);
            i = end;
        } else {
            assert(s.drop_first() =~= xml@.skip(i + 1));
            i = i + 1;
        }
        assert(out@ + docx_text_scan(xml@.skip(i as int), in_t, started) =~= before
            + docx_text_scan(s, t0, p0));
    }
    assert(xml@.skip(i as int) =~= Seq::<char>::empty());
    assert(out@ + docx_text_scan(xml@.skip(i as int), in_t, started) =~= out@);
    trim_chars(&out)
}


// ── Attributes ──────────────────────────────────────────────────

/// The position of the first occurrence of `pat` in `s` (`str::find`).
pub open spec fn find_sub(s: Seq<char>, pat: Seq<char>) -> Option<int>
    decreases s.len(),
{
    if starts_with(s, pat) {
        Some(0)
    } else if s.len() == 0 {
        None
    } else {
        match find_sub(s.drop_first(), pat) {
            Some(k) => Some(k + 1),
            None => None,
        }
    }
}

proof fn lemma_find_sub(s: Seq<char>, pat: Seq<char>, j: int)
    requires
        0 <= j <= s.len(),
        forall|k: int| 0 <= k < j ==> !starts_with(#[trigger] s.skip(k), pat),
    ensures
        j < s.len() ==> (starts_with(s.skip(j), pat) ==> find_sub(s, pat) == Some(j)),
        j == s.len() ==> !starts_with(s.skip(j), pat) ==> find_sub(s, pat) is None,
    decreases j,
{
    assert(s.skip(0) =~= s);
    if j > 0 {
        assert(!starts_with(s, pat));
        let t = s.drop_first();
        assert forall|k: int| 0 <= k < j - 1 implies !starts_with(#[trigger] t.skip(k), pat) by {
            assert(t.skip(k) =~= s.skip(k + 1));
        }
        assert(t.skip(j - 1) =~= s.skip(j));
        lemma_find_sub(t, pat, j - 1);
    }
}

/// The value of `attr="…"` or `attr='…'` in a tag, as `extract_attr` finds
/// it: at the first `attr=`, up to the matching quote.
pub open spec fn attr_value(tag: Seq<char>, attr: Seq<char>) -> Option<Seq<char>> {
    let pat = attr + "="@;
    match find_sub(tag, pat) {
        None => None,
        Some(pos) => {
            let rest = tag.skip(pos + pat.len());
            if rest.len() == 0 {
                None
            } else {
                let q = rest[0];
                if q != '"' && q != '\'' {
                    None
                } else {
                    let inner = rest.drop_first();
                    let e = index_of(inner, q);
                    if e < inner.len() {
                        Some(inner.take(e))
                    } else {
                        None
                    }
                }
            }
        },
    }
}

/// Finds `attr="value"` or `attr='value'` in a tag string.
pub fn extract_attr(tag: &[char], attr: &str) -> (r: Option<Vec<char>>)
    ensures
        r matches Some(v) ==> attr_value(tag@, attr@) == Some(v@),
        r is None ==> attr_value(tag@, attr@) is None,
{
    let mut pat = str_chars(attr);
    push_str(&mut pat, "=");
    proof {
        reveal_strlit("=");
    }
    let mut pos: usize = 0;
    while pos < tag.len() && !matches_at(tag, pos, &pat)
        invariant
            pos <= tag@.len(),
            pat@.len() > 0,
            forall|k: int| 0 <= k < pos ==> !starts_with(#[trigger] tag@.skip(k), pat@),
        decreases tag.len() - pos,
    {
        assert(!starts_with(tag@.skip(pos as int), pat@)) by {
            if pat@.len() <= tag@.len() - pos {
                assert(tag@.skip(pos as int).take(pat@.len() as int) =~= tag@.subrange(
                    pos as int,
                    pos + pat@.len(),
                ));
            }
        }
        pos = pos + 1;
    }
    if pos == tag.len() {
        proof {
            lemma_find_sub(tag@, pat@, tag@.len() as int);
        }
        return None;
    }
    assert(tag@.skip(pos as int).take(pat@.len() as int) =~= tag@.subrange(
        pos as int,
        pos + pat@.len(),
    ));
    proof {
        lemma_find_sub(tag@, pat@, pos as int);
    }
    let start = pos + pat.len();
    if start >= tag.len() {
        assert(tag@.skip(start as int).len() == 0);
        return None;
    }
    let q = tag[start];
    if q != '"' && q != '\'' {
        return None;
    }
    let j = find_char(tag, start + 1, q);
    proof {
        assert(tag@.skip(start as int).drop_first() =~= tag@.skip(start + 1));
        lemma_index_of_bounds(tag@.skip(start + 1), q);
    }
    if j >= tag.len() {
        return None;
    }
    let mut v: Vec<char> = Vec::new();
    let mut k = start + 1;
    while k < j
        invariant
            start + 1 <= k <= j <= tag@.len(),
            v@ == tag@.subrange(start + 1, k as int),
        decreases j - k,
    {
        v.push(tag[k]);
        k = k + 1;
        assert(v@ =~= tag@.subrange(start + 1, k as int));
    }
    assert(v@ =~= tag@.skip(start + 1).take(j - start - 1));
    Some(v)
}


// ── HTML ────────────────────────────────────────────────────────

/// Where the HTML walk of `document.xml` stands.
#[derive(Clone, Copy)]
pub struct HtmlWalk {
    /// Inside a `<w:t>` text run.
    pub in_t: bool,
    pub bold: bool,
    pub italic: bool,
    /// Inside run properties `<w:rPr>`.
    pub in_rpr: bool,
    /// The heading level set by the paragraph's style.
    pub heading: Option<u8>,
    /// A `<p>` or `<hN>` has been written and not yet closed.
    pub para_open: bool,
}

pub open spec fn walk_start() -> HtmlWalk {
    HtmlWalk {
        in_t: false,
        bold: false,
        italic: false,
        in_rpr: false,
        heading: None,
        para_open: false,
    }
}

/// The heading level named by a (lowercased) paragraph style.
pub open spec fn heading_level(style: Seq<char>) -> Option<u8> {
    if style == "heading1"@ || style == "heading 1"@ {
        Some(1)
    } else if style == "heading2"@ || style == "heading 2"@ {
        Some(2)
    } else if style == "heading3"@ || style == "heading 3"@ {
        Some(3)
    } else if style == "heading4"@ || style == "heading 4"@ {
        Some(4)
    } else if style == "heading5"@ || style == "heading 5"@ {
        Some(5)
    } else if style == "heading6"@ || style == "heading 6"@ {
        Some(6)
    } else {
        None
    }
}

fn heading_level_exec(style: &[char]) -> (r: Option<u8>)
    ensures
        r == heading_level(style@),
{
    if eq_str(style, "heading1") || eq_str(style, "heading 1") {
        Some(1)
    } else if eq_str(style, "heading2") || eq_str(style, "heading 2") {
        Some(2)
    } else if eq_str(style, "heading3") || eq_str(style, "heading 3") {
        Some(3)
    } else if eq_str(style, "heading4") || eq_str(style, "heading 4") {
        Some(4)
    } else if eq_str(style, "heading5") || eq_str(style, "heading 5") {
        Some(5)
    } else if eq_str(style, "heading6") || eq_str(style, "heading 6") {
        Some(6)
    } else {
        None
    }
}

/// The HTML written for a tag, and the walk state after it. `lower` is the
/// tag lowercased, against which all tag names are compared.
pub open spec fn html_tag_step(tag: Seq<char>, lower: Seq<char>, st: HtmlWalk) -> (
    Seq<char>,
    HtmlWalk,
) {
    if starts_with(lower, "<w:p "@) || lower == "<w:p>"@ {
        (Seq::empty(), HtmlWalk { heading: None, bold: false, italic: false, in_rpr: false, ..st })
    } else if starts_with(lower, "<w:pstyle "@) {
        match attr_value(tag, "w:val"@) {
            Some(v) => (Seq::empty(), HtmlWalk { heading: heading_level(unicode_lowercase(v)), ..st }),
            None => (Seq::empty(), st),
        }
    } else if lower == "<w:rpr>"@ {
        (Seq::empty(), HtmlWalk { in_rpr: true, bold: false, italic: false, ..st })
    } else if lower == "</w:rpr>"@ {
        (Seq::empty(), HtmlWalk { in_rpr: false, ..st })
    } else if (lower == "<w:b/>"@ || lower == "<w:b />"@) && st.in_rpr {
        (Seq::empty(), HtmlWalk { bold: true, ..st })
    } else if (lower == "<w:i/>"@ || lower == "<w:i />"@) && st.in_rpr {
        (Seq::empty(), HtmlWalk { italic: true, ..st })
    } else if text_run_tag(lower) {
        let open = if !st.para_open {
            match st.heading {
                Some(h) => "<h"@ + dec(h as nat) + ">"@,
                None => "<p>"@,
            }
        } else {
            Seq::empty()
        };
        (
            open + (if st.bold {
                "<strong>"@
            } else {
                Seq::empty()
            }) + (if st.italic {
                "<em>"@
            } else {
                Seq::empty()
            }),
            HtmlWalk { para_open: true, in_t: true, ..st },
        )
    } else if lower == "</w:t>"@ {
        (
            (if st.italic {
                "</em>"@
            } else {
                Seq::empty()
            }) + (if st.bold {
                "</strong>"@
            } else {
                Seq::empty()
            }),
            HtmlWalk { in_t: false, ..st },
        )
    } else if lower == "</w:p>"@ {
        (
            if st.para_open {
                match st.heading {
                    Some(h) => "</h"@ + dec(h as nat) + ">\n"@,
                    None => "</p>\n"@,
                }
            } else {
                Seq::empty()
            },
            HtmlWalk { para_open: false, heading: None, ..st },
        )
    } else if starts_with(lower, "<w:br"@) {
        ("<br/>"@, st)
    } else {
        (Seq::empty(), st)
    }
}

fn html_tag_step_exec(tag: &[char], st: HtmlWalk, out: &mut Vec<char>) -> (r: HtmlWalk)
    ensures
        final(out)@ == old(out)@ + html_tag_step(tag@, unicode_lowercase(tag@), st).0,
        r == html_tag_step(tag@, unicode_lowercase(tag@), st).1,
{
    let lower = to_lowercase_chars(tag);
    let mut st = st;
    if starts_with_str(&lower, "<w:p ") || eq_str(&lower, "<w:p>") {
        st.heading = None;
        st.bold = false;
        st.italic = false;
        st.in_rpr = false;
    } else if starts_with_str(&lower, "<w:pstyle ") {
        match extract_attr(tag, "w:val") {
            Some(v) => {
                let lv = to_lowercase_chars(&v);
                st.heading = heading_level_exec(&lv);
            },
            None => {},
        }
    } else if eq_str(&lower, "<w:rpr>") {
        st.in_rpr = true;
        st.bold = false;
        st.italic = false;
    } else if eq_str(&lower, "</w:rpr>") {
        st.in_rpr = false;
    } else if (eq_str(&lower, "<w:b/>") || eq_str(&lower, "<w:b />")) && st.in_rpr {
        st.bold = true;
    } else if (eq_str(&lower, "<w:i/>") || eq_str(&lower, "<w:i />")) && st.in_rpr {
        st.italic = true;
    } else if is_text_run_tag(&lower) {
        if !st.para_open {
            match st.heading {
                Some(h) => {
                    push_str(out, "<h");
                    let d = dec_chars(h as usize);
                    extend_chars(out, &d);
                    push_str(out, ">");
                },
                None => {
                    push_str(out, "<p>");
                },
            }
            st.para_open = true;
        }
        if st.bold {
            push_str(out, "<strong>");
        }
        if st.italic {
            push_str(out, "<em>");
        }
        st.in_t = true;
    } else if eq_str(&lower, "</w:t>") {
        if st.italic {
            push_str(out, "</em>");
        }
        if st.bold {
            push_str(out, "</strong>");
        }
        st.in_t = false;
    } else if eq_str(&lower, "</w:p>") {
        if st.para_open {
            match st.heading {
                Some(h) => {
                    push_str(out, "</h");
                    let d = dec_chars(h as usize);
                    extend_chars(out, &d);
                    push_str(out, ">\n");
                },
                None => {
                    push_str(out, "</p>\n");
                },
            }
            st.para_open = false;
        }
        st.heading = None;
    } else if starts_with_str(&lower, "<w:br") {
        push_str(out, "<br/>");
    }
    st
}

/// The HTML written for the rest of `document.xml` from walk state `st`.
/// Paragraphs become `<p>`, bold and italic runs `<strong>` and `<em>`, and
/// paragraphs styled `Heading1`–`Heading6` become `<h1>`–`<h6>`.
pub open spec fn docx_html_scan(s: Seq<char>, st: HtmlWalk) -> Seq<char>
    decreases s.len(),
{
    if s.len() == 0 {
        Seq::empty()
    } else if s[0] == '<' {
        let n = tag_len(s);
        if 1 <= n <= s.len() {
            let tag = s.take(n);
            let step = html_tag_step(tag, unicode_lowercase(tag), st);
            step.0 + docx_html_scan(s.skip(n), step.1)
        } else {
            Seq::empty()
        }
    } else if st.in_t {
        let n = index_of(s, '<');
        if 1 <= n <= s.len() {
            escape_html(decode_xml(s.take(n))) + docx_html_scan(s.skip(n), st)
        } else {
            Seq::empty()
        }
    } else {
        docx_html_scan(s.drop_first(), st)
    }
}

/// The HTML document for `document.xml`.
pub open spec fn docx_html(xml: Seq<char>) -> Seq<char> {
    "<html><body>\n"@ + docx_html_scan(xml, walk_start()) + "</body></html>"@
}

/// Walk the XML from `word/document.xml` and produce HTML.
pub fn docx_xml_to_html(xml: &[char]) -> (r: Vec<char>)
    ensures
        r@ == docx_html(xml@),
{
    let mut out: Vec<char> = Vec::new();
    push_str(&mut out, "<html><body>\n");
    let ghost head = out@;
    let mut st = HtmlWalk {
        in_t: false,
        bold: false,
        italic: false,
        in_rpr: false,
        heading: None,
        para_open: false,
    };
    let mut i: usize = 0;
    assert(xml@.skip(0) =~= xml@);
    assert(out@ + docx_html_scan(xml@, st) =~= head + docx_html_scan(xml@, walk_start()));
    while i < xml.len()
        invariant
            i <= xml@.len(),
            head == "<html><body>\n"@,
            out@ + docx_html_scan(xml@.skip(i as int), st) == head + docx_html_scan(
                xml@,
                walk_start(),
            ),
        decreases xml.len() - i,
    {
        let ghost s = xml@.skip(i as int);
        let ghost before = out@;
        let ghost st0 = st;
        if xml[i] == '<' {
            let (tag, end) = read_tag(xml, i);
            proof {
                lemma_tag_len(s);
                assert(tag@ =~= s.take(end - i));
                assert(s.skip(end - i) =~= xml@.skip(end as int));
            }
            st = html_tag_step_exec(&tag, st, &mut out);
            i = end;
        } else if st.in_t {
            let (text, end) = read_text(xml, i);
            proof {
                lemma_text_len(s);
                assert(text@ =~= s.take(end - i));
                assert(s.skip(end - i) =~= xml@.skip(end as int));
            }
            let d = decode_xml_entities(&text);
            let e = html_escape(&d);
            extend_chars(&mut out, &e);
            i = end;
        } else {
            assert(s.drop_first() =~= xml@.skip(i + 1));
            i = i + 1;
        }
        assert(out@ + docx_html_scan(xml@.skip(i as int), st) =~= before + docx_html_scan(s, st0));
    }
    assert(xml@.skip(i as int) =~= Seq::<char>::empty());
    assert(out@ + docx_html_scan(xml@.skip(i as int), st) =~= out@);
    push_str(&mut out, "</body></html>");
    out
}

// ── Reading the archive ─────────────────────────────────────────

#[verifier::external_type_specification]
#[verifier::external_body]
#[verifier::reject_recursive_types(R)]
pub struct ExZipArchive<R>(zip::ZipArchive<R>);

#[verifier::external_type_specification]
#[verifier::external_body]
#[verifier::reject_recursive_types(T)]
pub struct ExCursor<T>(std::io::Cursor<T>);

/// A ZIP archive opened by the zip crate, with the bytes it was opened from.
pub struct OpenedZip {
    archive: zip::ZipArchive<std::io::Cursor<Vec<u8>>>,
    source: Ghost<Seq<u8>>,
}

impl OpenedZip {
    /// The bytes the archive was opened from.
    pub closed spec fn source(&self) -> Seq<u8> {
        self.source@
    }
}

/// The display text of the error with which `zip::ZipArchive::new` refuses
/// `bytes`, or `None` where it opens them.
pub uninterp spec fn zip_open_error(bytes: Seq<u8>) -> Option<Seq<char>>;

/// The number of entries `zip::ZipArchive::len` reports for the archive
/// opened from `bytes`.
pub uninterp spec fn zip_entry_count(bytes: Seq<u8>) -> nat;

/// What `zip::ZipArchive::by_index(i)` gives for the archive opened from
/// `bytes`: the display text of its error, or the entry's name (`None` where
/// `ZipFile::name` cannot give it).
pub uninterp spec fn zip_by_index(bytes: Seq<u8>, i: int) -> Result<Option<Seq<char>>, Seq<char>>;

/// What `Read::read_to_string` gives on entry `i` of the archive opened from
/// `bytes`: its text, or the display text of the error.
pub uninterp spec fn zip_entry_text(bytes: Seq<u8>, i: int) -> Result<Seq<char>, Seq<char>>;

/// A name result seen through the views of its parts.
pub open spec fn name_view(r: Result<Option<Vec<char>>, String>) -> Result<Option<Seq<char>>, Seq<char>> {
    match r {
        Ok(Some(n)) => Ok(Some(n@)),
        Ok(None) => Ok(None),
        Err(e) => Err(e@),
    }
}

/// Calls `zip::ZipArchive::new` on a cursor over a copy of the bytes; the
/// error is handed back as its display text.
#[verifier::external_body]
fn new_zip_archive(input: &[u8]) -> (r: Result<zip::ZipArchive<std::io::Cursor<Vec<u8>>>, String>)
    ensures
        r is Ok <==> zip_open_error(input@) is None,
        r matches Err(m) ==> zip_open_error(input@) == Some(m@),
{
    zip::ZipArchive::new(std::io::Cursor::new(input.to_vec())).map_err(|e| e.to_string())
}

/// Calls `zip::ZipArchive::len`.
#[verifier::external_body]
fn zip_len(z: &OpenedZip) -> (r: usize)
    ensures
        r == zip_entry_count(z.source()),
{
    z.archive.len()
}

/// Calls `zip::ZipArchive::by_index` and, on the entry it opens,
/// `ZipFile::name`; the entry's handle borrows the archive, so both calls
/// stand here.
#[verifier::external_body]
fn zip_entry_name(z: &mut OpenedZip, i: usize) -> (r: Result<Option<Vec<char>>, String>)
    ensures
        final(z).source() == old(z).source(),
        name_view(r) == zip_by_index(old(z).source(), i as int),
{
    match z.archive.by_index(i) {
        Ok(f) => Ok(f.name().ok().map(|n| n.chars().collect())),
        Err(e) => Err(e.to_string()),
    }
}

/// Calls `zip::ZipArchive::by_index` and reads the entry it opens with
/// `Read::read_to_string`: the outer error is that of the lookup, the inner
/// result that of the read, each as its display text.
#[verifier::external_body]
fn zip_read_entry(z: &mut OpenedZip, i: usize) -> (r: Result<Result<String, String>, String>)
    ensures
        final(z).source() == old(z).source(),
        r is Err <==> zip_by_index(old(z).source(), i as int) is Err,
        r matches Err(m) ==> (zip_by_index(old(z).source(), i as int) matches Err(e) && e == m@),
        r matches Ok(t) ==> text_view(t) == zip_entry_text(old(z).source(), i as int),
{
    match z.archive.by_index(i) {
        Ok(mut f) => {
            let mut text = String::new();
            match std::io::Read::read_to_string(&mut f, &mut text) {
                Ok(_) => Ok(Ok(text)),
                Err(e) => Ok(Err(e.to_string())),
            }
        },
        Err(e) => Err(e.to_string()),
    }
}

/// Opens a ZIP archive.
pub fn open_zip(input: &[u8]) -> (r: Result<OpenedZip, String>)
    ensures
        r is Ok <==> zip_open_error(input@) is None,
        r matches Ok(z) ==> z.source() == input@,
        r matches Err(m) ==> zip_open_error(input@) == Some(m@),
{
    let archive = new_zip_archive(input)?;
    Ok(OpenedZip { archive, source: Ghost(input@) })
}

/// The index of the first of the first `n` entries that the archive can
/// open and name, and whose name lowercased is `word/document.xml`.
pub open spec fn document_index(src: Seq<u8>, n: nat) -> Option<int>
    decreases n,
{
    if n == 0 {
        None
    } else {
        match document_index(src, (n - 1) as nat) {
            Some(i) => Some(i),
            None => match zip_by_index(src, n - 1) {
                Ok(Some(name)) => if unicode_lowercase(name) == "word/document.xml"@ {
                    Some(n - 1)
                } else {
                    None
                },
                _ => None,
            },
        }
    }
}

/// The text of `word/document.xml` in a DOCX archive, or why it cannot be had.
/// The part is the first entry that the archive can open and name with that
/// name in any letter case; it is read at its own index.
pub open spec fn docx_xml_result(src: Seq<u8>) -> Result<Seq<char>, Seq<char>> {
    match zip_open_error(src) {
        Some(m) => Err("Failed to open DOCX as ZIP: "@ + m),
        None => match document_index(src, zip_entry_count(src)) {
            None => Err("word/document.xml not found in DOCX archive"@),
            Some(idx) => match zip_by_index(src, idx) {
                Err(m) => Err("ZIP read error: "@ + m),
                Ok(_) => match zip_entry_text(src, idx) {
                    Ok(t) => Ok(t),
                    Err(m) => Err("Failed to read document.xml: "@ + m),
                },
            },
        },
    }
}

/// A character result seen through the views of its parts.
pub open spec fn chars_view(r: Result<Vec<char>, String>) -> Result<Seq<char>, Seq<char>> {
    match r {
        Ok(t) => Ok(t@),
        Err(e) => Err(e@),
    }
}

/// Reads `word/document.xml` from a DOCX archive.
pub fn read_docx_document_xml(input: &[u8]) -> (r: Result<Vec<char>, String>)
    ensures
        chars_view(r) == docx_xml_result(input@),
{
    let mut zip = match open_zip(input) {
        Ok(z) => z,
        Err(m) => return Err(prefixed("Failed to open DOCX as ZIP: ", &m)),
    };
    let n = zip_len(&zip);
    let target = str_chars("word/document.xml");
    let mut found: Option<usize> = None;
    let mut i: usize = 0;
    while i < n
        invariant
            i <= n,
            n == zip_entry_count(input@),
            zip.source() == input@,
            target@ == "word/document.xml"@,
            found matches Some(k) ==> document_index(input@, i as nat) == Some(k as int),
            found is None ==> document_index(input@, i as nat) is None,
        decreases n - i,
    {
        let named = zip_entry_name(&mut zip, i);
        if found.is_none() {
            match named {
                Ok(Some(name)) => {
                    let lower = to_lowercase_chars(&name);
                    let is_target = lower.len() == target.len() && crate::text::matches_at(
                        &lower,
                        0,
                        &target,
                    );
                    assert(is_target == (lower@ == target@)) by {
                        if lower@.len() == target@.len() {
                            assert(lower@.subrange(0, target@.len() as int) =~= lower@);
                        }
                    }
                    if is_target {
                        found = Some(i);
                    }
                },
                _ => {},
            }
        }
        i = i + 1;
    }
    let idx = match found {
        Some(k) => k,
        None => {
            let mut msg: Vec<char> = Vec::new();
            push_str(&mut msg, "word/document.xml not found in DOCX archive");
            return Err(crate::text::string_from_chars(&msg));
        },
    };
    match zip_read_entry(&mut zip, idx) {
        Err(m) => Err(prefixed("ZIP read error: ", &m)),
        Ok(Ok(t)) => Ok(str_chars(t.as_str())),
        Ok(Err(m)) => Err(prefixed("Failed to read document.xml: ", &m)),
    }
}

/// The text of a DOCX document.
pub fn docx_to_text(input: &[u8]) -> (r: Result<Vec<u8>, String>)
    ensures
        bytes_view(r) == match docx_xml_result(input@) {
            Ok(x) => Ok(encode_utf8(docx_text(x))),
            Err(m) => Err(m),
        },
{
    let xml = read_docx_document_xml(input)?;
    let text = docx_xml_to_text(&xml);
    Ok(utf8_bytes(&text))
}

/// A DOCX document as a minimal HTML page.
pub fn docx_to_html(input: &[u8]) -> (r: Result<Vec<u8>, String>)
    ensures
        bytes_view(r) == match docx_xml_result(input@) {
            Ok(x) => Ok(encode_utf8(docx_html(x))),
            Err(m) => Err(m),
        },
{
    let xml = read_docx_document_xml(input)?;
    let html = docx_xml_to_html(&xml);
    Ok(utf8_bytes(&html))
}

} // verus!
