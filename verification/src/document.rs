//! Document conversions between bytes: Markdown, HTML, plain text, PDF and
//! RTF. Each takes the raw input and answers with the output bytes or the
//! message that explains why the input was refused.
use base64::Engine;
use vstd::prelude::*;
use vstd::utf8::*;
use crate::text::{
    bytes_view, chars_from_utf8, decode_text, extend_chars, is_whitespace, prefixed, push_str, trim,
    trim_chars, trim_end, trim_start,
    utf8_bytes, utf8_error_text, utf8_failure,
};
use crate::markup::{escape_html, html_escape, html_markdown, html_to_md, strip_html_tags, stripped_text};
use crate::pdf_text::{build_text_pdf, text_pdf};

verus! {

/// The result of a conversion that first reads its input as UTF-8 text and
/// then produces `out` of the characters.
pub open spec fn from_text(input: Seq<u8>, out: spec_fn(Seq<char>) -> Seq<u8>) -> Result<Seq<u8>, Seq<char>> {
    if valid_utf8(input) {
        Ok(out(decode_utf8(input)))
    } else {
        Err(utf8_failure(input))
    }
}

// ── Markdown ────────────────────────────────────────────────────

/// The HTML that comrak's `markdown_to_html` renders for `md` with the default
/// options.
pub uninterp spec fn comrak_html(md: Seq<char>) -> Seq<char>;

/// Calls `comrak::markdown_to_html` with `comrak::Options::default()`. The
/// rendering is a function of the Markdown text alone; it is only named here.
#[verifier::external_body]
fn render_markdown(md: &[char]) -> (r: Vec<char>)
    ensures
        r@ == comrak_html(md@),
{
    let source: String = md.iter().collect();
    comrak::markdown_to_html(&source, &comrak::Options::default()).chars().collect()
}

/// Markdown rendered to HTML.
pub fn markdown_to_html(input: &[u8]) -> (r: Result<Vec<u8>, String>)
    ensures
        bytes_view(r) == from_text(input@, |s: Seq<char>| encode_utf8(comrak_html(s))),
{
    let md = decode_text(input)?;
    let html = render_markdown(&md);
    Ok(utf8_bytes(&html))
}

/// Markdown rendered to HTML, then reduced to its text.
pub fn markdown_to_text(input: &[u8]) -> (r: Result<Vec<u8>, String>)
    ensures
        bytes_view(r) == from_text(input@, |s: Seq<char>| encode_utf8(stripped_text(comrak_html(s)))),
{
    let md = decode_text(input)?;
    let html = render_markdown(&md);
    let text = strip_html_tags(&html);
    Ok(utf8_bytes(&text))
}

/// A PDF of the text that Markdown renders to.
pub fn markdown_to_pdf(input: &[u8]) -> (r: Result<Vec<u8>, String>)
    ensures
        bytes_view(r) == from_text(input@, |s: Seq<char>| text_pdf(stripped_text(comrak_html(s)))),
{
    let text_bytes = markdown_to_text(input)?;
    let ghost t = stripped_text(comrak_html(decode_utf8(input@)));
    proof {
        encode_utf8_valid_utf8(t);
        encode_utf8_decode_utf8(t);
    }
    text_to_pdf(&text_bytes)
}

// ── HTML and plain text ─────────────────────────────────────────

/// HTML turned into Markdown.
pub fn html_to_markdown(input: &[u8]) -> (r: Result<Vec<u8>, String>)
    ensures
        bytes_view(r) == from_text(input@, |s: Seq<char>| encode_utf8(html_markdown(s))),
{
    let html = decode_text(input)?;
    let md = html_to_md(&html);
    Ok(utf8_bytes(&md))
}

/// A PDF of the text of an HTML page.
pub fn html_to_pdf(input: &[u8]) -> (r: Result<Vec<u8>, String>)
    ensures
        bytes_view(r) == from_text(input@, |s: Seq<char>| text_pdf(stripped_text(s))),
{
    let html = decode_text(input)?;
    let text = strip_html_tags(&html);
    Ok(build_text_pdf(&text))
}

/// A PDF of plain text, in Helvetica on A4 pages.
pub fn text_to_pdf(input: &[u8]) -> (r: Result<Vec<u8>, String>)
    ensures
        bytes_view(r) == from_text(input@, |s: Seq<char>| text_pdf(s)),
{
    let text = decode_text(input)?;
    Ok(build_text_pdf(&text))
}

// ── PDF text extraction ─────────────────────────────────────────

#[verifier::external_type_specification]
#[verifier::external_body]
pub struct ExPdfDocument(lopdf::Document);

/// A PDF document parsed by lopdf, with the bytes it was parsed from.
pub struct LoadedPdf {
    doc: lopdf::Document,
    source: Ghost<Seq<u8>>,
}

impl LoadedPdf {
    /// The bytes the document was parsed from.
    pub closed spec fn source(&self) -> Seq<u8> {
        self.source@
    }
}

/// The display text of the error with which `lopdf::Document::load_mem`
/// refuses `bytes`, or `None` where it parses them.
pub uninterp spec fn pdf_load_error(bytes: Seq<u8>) -> Option<Seq<char>>;

/// The number of pages that lopdf finds in the page tree of the document it
/// parses from `bytes`.
pub uninterp spec fn pdf_page_count(bytes: Seq<u8>) -> nat;

/// What `lopdf::Document::extract_text` gives for the document parsed from
/// `bytes` and the page numbers `pages`: the text, or the display text of its
/// error.
pub uninterp spec fn pdf_extract(bytes: Seq<u8>, pages: Seq<u32>) -> Result<Seq<char>, Seq<char>>;

/// The numbers lopdf gives the pages of a document with `n` pages.
pub open spec fn page_numbers(n: nat) -> Seq<u32> {
    Seq::new(n, |i: int| (i + 1) as u32)
}

/// A text result seen through the views of its text and message.
pub open spec fn text_view(r: Result<String, String>) -> Result<Seq<char>, Seq<char>> {
    match r {
        Ok(t) => Ok(t@),
        Err(e) => Err(e@),
    }
}

/// Calls `lopdf::Document::load_mem`: parsing is a function of the bytes;
/// the error is handed back as its display text.
#[verifier::external_body]
fn load_pdf(input: &[u8]) -> (r: Result<lopdf::Document, String>)
    ensures
        r is Ok <==> pdf_load_error(input@) is None,
        r matches Err(m) ==> pdf_load_error(input@) == Some(m@),
{
    lopdf::Document::load_mem(input).map_err(|e| e.to_string())
}

/// Calls `lopdf::Document::get_pages` and takes the keys of the map. The
/// source numbers the pages of the page tree `1..=n` in a `BTreeMap`, whose
/// keys come in ascending order.
#[verifier::external_body]
fn pdf_page_keys(pdf: &LoadedPdf) -> (r: Vec<u32>)
    ensures
        r@ == page_numbers(pdf_page_count(pdf.source())),
{
    pdf.doc.get_pages().keys().cloned().collect()
}

/// Calls `lopdf::Document::extract_text` for the given page numbers; the
/// error is handed back as its display text.
#[verifier::external_body]
fn pdf_extract_text(pdf: &LoadedPdf, pages: &[u32]) -> (r: Result<String, String>)
    ensures
        text_view(r) == pdf_extract(pdf.source(), pages@),
{
    pdf.doc.extract_text(pages).map_err(|e| e.to_string())
}

/// Parses a PDF.
pub fn load_pdf_document(input: &[u8]) -> (r: Result<LoadedPdf, String>)
    ensures
        r is Ok <==> pdf_load_error(input@) is None,
        r matches Ok(p) ==> p.source() == input@,
        r matches Err(m) ==> pdf_load_error(input@) == Some(m@),
{
    let doc = load_pdf(input)?;
    Ok(LoadedPdf { doc, source: Ghost(input@) })
}

/// The result of turning a PDF into text.
pub open spec fn pdf_text_result(input: Seq<u8>) -> Result<Seq<u8>, Seq<char>> {
    match pdf_load_error(input) {
        Some(m) => Err("Failed to load PDF: "@ + m),
        None => if pdf_page_count(input) == 0 {
            Ok(Seq::empty())
        } else {
            extracted_text(pdf_extract(input, page_numbers(pdf_page_count(input))))
        },
    }
}

/// What the text extracted from a PDF's pages becomes: trimmed UTF-8, or the
/// extraction error.
pub open spec fn extracted_text(extracted: Result<Seq<char>, Seq<char>>) -> Result<Seq<u8>, Seq<char>> {
    match extracted {
        Ok(t) => Ok(encode_utf8(trim(t))),
        Err(m) => Err("Failed to extract PDF text: "@ + m),
    }
}

/// Finishes the text of a PDF from what extraction gave.
pub fn finish_pdf_text(extracted: Result<String, String>) -> (r: Result<Vec<u8>, String>)
    ensures
        bytes_view(r) == extracted_text(text_view(extracted)),
{
    match extracted {
        Ok(t) => {
            let cs = crate::text::str_chars(t.as_str());
            let trimmed = trim_chars(&cs);
            Ok(utf8_bytes(&trimmed))
        },
        Err(m) => Err(prefixed("Failed to extract PDF text: ", &m)),
    }
}

/// The text of a PDF's pages, trimmed.
pub fn pdf_to_text(input: &[u8]) -> (r: Result<Vec<u8>, String>)
    ensures
        bytes_view(r) == pdf_text_result(input@),
{
    let pdf = match load_pdf_document(input) {
        Ok(p) => p,
        Err(m) => return Err(prefixed("Failed to load PDF: ", &m)),
    };
    let pages = pdf_page_keys(&pdf);
    if pages.len() == 0 {
        return Ok(Vec::new());
    }
    let extracted = pdf_extract_text(&pdf, &pages);
    finish_pdf_text(extracted)
}

/// The page that shows extracted PDF text preformatted.
pub open spec fn pdf_html_page(text: Seq<char>) -> Seq<char> {
    "<!DOCTYPE html>\n<html><head><meta charset=\"utf-8\"></head><body><pre>\n"@ + escape_html(text)
        + "\n</pre></body></html>"@
}

/// The result of turning a PDF into HTML.
pub open spec fn pdf_html_result(input: Seq<u8>) -> Result<Seq<u8>, Seq<char>> {
    match pdf_text_result(input) {
        Ok(b) => Ok(encode_utf8(pdf_html_page(decode_utf8(b)))),
        Err(m) => Err(m),
    }
}

/// The text of a PDF in a minimal HTML document.
pub fn pdf_to_html(input: &[u8]) -> (r: Result<Vec<u8>, String>)
    ensures
        bytes_view(r) == pdf_html_result(input@),
{
    let text_bytes = pdf_to_text(input)?;
    let text = match decode_text(&text_bytes) {
        Ok(cs) => cs,
        Err(m) => {
            proof {
                assert(false) by {
                    if pdf_load_error(input@) is None && pdf_page_count(input@) != 0 {
                        match pdf_extract(input@, page_numbers(pdf_page_count(input@))) {
                            Ok(t) => encode_utf8_valid_utf8(trim(t)),
                            Err(_) => {},
                        }
                    } else {
                        assert(text_bytes@ =~= encode_utf8(Seq::<char>::empty()));
                        encode_utf8_valid_utf8(Seq::<char>::empty());
                    }
                }
            }
            Vec::new()
        },
    };
    let mut html: Vec<char> = Vec::new();
    push_str(&mut html, "<!DOCTYPE html>\n<html><head><meta charset=\"utf-8\"></head><body><pre>\n");
    let escaped = html_escape(&text);
    extend_chars(&mut html, &escaped);
    push_str(&mut html, "\n</pre></body></html>");
    Ok(utf8_bytes(&html))
}

// ── RTF ─────────────────────────────────────────────────────────

/// The tokens that `rtf_parser::lexer::Lexer::scan` makes of `src`, each
/// `Some` with its text where it is plain text; or the `Debug` text of the
/// lexer's error.
pub uninterp spec fn rtf_tokens(src: Seq<char>) -> Result<Seq<Option<Seq<char>>>, Seq<char>>;

/// The view of a scanned token list.
pub open spec fn tokens_view(r: Result<Vec<Option<Vec<char>>>, String>) -> Result<Seq<Option<Seq<char>>>, Seq<char>> {
    match r {
        Ok(v) => Ok(v@.map_values(|o: Option<Vec<char>>| match o {
            Some(t) => Some(t@),
            None => None,
        })),
        Err(e) => Err(e@),
    }
}

/// Calls `rtf_parser::lexer::Lexer::scan` and hands back, token for token,
/// the text of each plain-text token and `None` for the others; the error as
/// its `Debug` text.
#[verifier::external_body]
fn scan_rtf(src: &[char]) -> (r: Result<Vec<Option<Vec<char>>>, String>)
    ensures
        tokens_view(r) == rtf_tokens(src@),
{
    let text: String = src.iter().collect();
    match rtf_parser::lexer::Lexer::scan(&text) {
        Ok(tokens) => Ok(tokens.iter().map(|t| match t {
            rtf_parser::tokens::Token::PlainText(s) => Some(s.chars().collect()),
            _ => None,
        }).collect()),
        Err(e) => Err(format!("{e:?}")),
    }
}

/// The plain text of a token list, in order.
pub open spec fn plain_texts(tokens: Seq<Option<Seq<char>>>) -> Seq<char>
    decreases tokens.len(),
{
    if tokens.len() == 0 {
        Seq::empty()
    } else {
        plain_texts(tokens.drop_last()) + match tokens.last() {
            Some(t) => t,
            None => Seq::empty(),
        }
    }
}

/// The result of turning RTF into text.
pub open spec fn rtf_text_result(input: Seq<u8>) -> Result<Seq<u8>, Seq<char>> {
    if !valid_utf8(input) {
        Err("Invalid UTF-8 in RTF: "@ + utf8_error_text(input))
    } else {
        match rtf_tokens(decode_utf8(input)) {
            Ok(tokens) => Ok(encode_utf8(trim(plain_texts(tokens)))),
            Err(m) => Err("RTF parse error: "@ + m),
        }
    }
}

/// The plain text of an RTF document, trimmed.
pub fn rtf_to_text(input: &[u8]) -> (r: Result<Vec<u8>, String>)
    ensures
        bytes_view(r) == rtf_text_result(input@),
{
    let src = match chars_from_utf8(input) {
        Ok(cs) => cs,
        Err(m) => return Err(prefixed("Invalid UTF-8 in RTF: ", &m)),
    };
    proof {
        encode_utf8_decode_utf8(src@);
    }
    let tokens = match scan_rtf(&src) {
        Ok(t) => t,
        Err(m) => return Err(prefixed("RTF parse error: ", &m)),
    };
    let ghost tv = tokens@.map_values(|o: Option<Vec<char>>| match o {
        Some(t) => Some(t@),
        None => None,
    });
    let mut out: Vec<char> = Vec::new();
    let mut i: usize = 0;
    while i < tokens.len()
        invariant
            i <= tokens.len(),
            tv.len() == tokens@.len(),
            forall|k: int| 0 <= k < tokens@.len() ==> #[trigger] tv[k] == match tokens@[k] {
                Some(t) => Some(t@),
                None => None::<Seq<char>>,
            },
            out@ == plain_texts(tv.take(i as int)),
        decreases tokens.len() - i,
    {
        assert(tv.take(i as int + 1).drop_last() =~= tv.take(i as int));
        match &tokens[i] {
            Some(t) => {
                extend_chars(&mut out, t);
            },
            None => {},
        }
        assert(tv[i as int] == tv.take(i as int + 1).last());
        i = i + 1;
    }
    assert(tv.take(tokens.len() as int) =~= tv);
    let trimmed = trim_chars(&out);
    Ok(utf8_bytes(&trimmed))
}

// ── Base64 ──────────────────────────────────────────────────────

/// The character of the standard base64 alphabet for a six-bit value.
pub open spec fn b64_digit(v: int) -> char {
    if v < 26 {
        (65 + v) as char
    } else if v < 52 {
        (97 + v - 26) as char
    } else if v < 62 {
        (48 + v - 52) as char
    } else if v == 62 {
        '+'
    } else {
        '/'
    }
}

/// Standard base64 with `=` padding: each group of three bytes becomes four
/// characters, a final group of one or two bytes is padded to four.
pub open spec fn b64_encode(b: Seq<u8>) -> Seq<char>
    decreases b.len(),
{
    if b.len() == 0 {
        Seq::empty()
    } else if b.len() == 1 {
        seq![b64_digit((b[0] as int) / 4), b64_digit(((b[0] as int) % 4) * 16), '=', '=']
    } else if b.len() == 2 {
        seq![b64_digit((b[0] as int) / 4), b64_digit(((b[0] as int) % 4) * 16 + (b[1] as int) / 16), b64_digit(((b[1] as int) % 16) * 4), '=']
    } else {
        seq![
            b64_digit((b[0] as int) / 4),
            b64_digit(((b[0] as int) % 4) * 16 + (b[1] as int) / 16),
            b64_digit(((b[1] as int) % 16) * 4 + (b[2] as int) / 64),
            b64_digit((b[2] as int) % 64),
        ] + b64_encode(b.subrange(3, b.len() as int))
    }
}

/// Text that is the standard base64 encoding of some bytes.
pub open spec fn is_b64(text: Seq<char>) -> bool {
    exists|b: Seq<u8>| b64_encode(b) == text
}

/// The display text of the error with which the `STANDARD` engine of the
/// base64 crate refuses to decode `text`.
pub uninterp spec fn b64_decode_error(text: Seq<char>) -> Seq<char>;

/// Calls `Engine::encode` of `base64::engine::general_purpose::STANDARD`:
/// the standard alphabet, with padding.
#[verifier::external_body]
fn b64_standard_encode(input: &[u8]) -> (r: Vec<char>)
    ensures
        r@ == b64_encode(input@),
{
    base64::engine::general_purpose::STANDARD.encode(input).chars().collect()
}

/// Calls `Engine::decode` of `base64::engine::general_purpose::STANDARD`.
/// That engine requires canonical padding and zero trailing bits, so it
/// accepts exactly the texts that its encoder produces, and gives back the
/// bytes they encode; the error is handed back as its display text.
#[verifier::external_body]
fn b64_standard_decode(text: &[char]) -> (r: Result<Vec<u8>, String>)
    ensures
        r is Ok <==> is_b64(text@),
        r matches Ok(b) ==> b64_encode(b@) == text@,
        r matches Err(m) ==> m@ == b64_decode_error(text@),
{
    let s: String = text.iter().collect();
    base64::engine::general_purpose::STANDARD.decode(s.as_str()).map_err(|e| e.to_string())
}

/// Bytes as standard base64 text.
pub fn base64_encode(input: &[u8]) -> (r: Result<Vec<u8>, String>)
    ensures
        r matches Ok(b) && b@ == encode_utf8(b64_encode(input@)),
{
    let encoded = b64_standard_encode(input);
    Ok(utf8_bytes(&encoded))
}

/// The result of decoding base64 text.
pub open spec fn b64_decode_result(input: Seq<u8>) -> Result<Seq<u8>, Seq<char>> {
    if !valid_utf8(input) {
        Err(utf8_failure(input))
    } else if is_b64(trim(decode_utf8(input))) {
        Ok(choose|b: Seq<u8>| b64_encode(b) == trim(decode_utf8(input)))
    } else {
        Err("Invalid base64: "@ + b64_decode_error(trim(decode_utf8(input))))
    }
}

/// Standard base64 text, trimmed of surrounding white space, decoded.
pub fn base64_decode(input: &[u8]) -> (r: Result<Vec<u8>, String>)
    ensures
        bytes_view(r) == b64_decode_result(input@),
{
    let text = decode_text(input)?;
    let trimmed = trim_chars(&text);
    match b64_standard_decode(&trimmed) {
        Ok(b) => {
            proof {
                let c = choose|x: Seq<u8>| b64_encode(x) == trimmed@;
                lemma_b64_injective(b@, c);
            }
            Ok(b)
        },
        Err(m) => Err(prefixed("Invalid base64: ", &m)),
    }
}

/// The six-bit value of a character of the standard base64 alphabet.
pub open spec fn b64_value(c: char) -> int {
    if 'A' <= c && c <= 'Z' {
        c as int - 65
    } else if 'a' <= c && c <= 'z' {
        c as int - 97 + 26
    } else if '0' <= c && c <= '9' {
        c as int - 48 + 52
    } else if c == '+' {
        62
    } else {
        63
    }
}

/// Each six-bit value has its own digit, and no digit is the padding `=`.
pub proof fn lemma_b64_digit(v: int)
    requires
        0 <= v < 64,
    ensures
        b64_value(b64_digit(v)) == v,
        b64_digit(v) != '=',
{
}

/// The encoding of bytes is empty exactly when the bytes are, and its first
/// group tells how many bytes the first group held.
proof fn lemma_b64_shape(x: Seq<u8>)
    ensures
        x.len() == 0 <==> b64_encode(x).len() == 0,
        x.len() > 0 ==> b64_encode(x).len() >= 4,
        x.len() > 0 ==> (b64_encode(x)[2] == '=' <==> x.len() == 1),
        x.len() > 0 ==> (b64_encode(x)[3] == '=' <==> x.len() <= 2),
{
    if x.len() > 0 {
        lemma_b64_digit((x[0] as int) / 4);
        if x.len() == 2 {
            lemma_b64_digit(((x[1] as int) % 16) * 4);
        }
        if x.len() >= 3 {
            lemma_b64_digit(((x[1] as int) % 16) * 4 + (x[2] as int) / 64);
            lemma_b64_digit((x[2] as int) % 64);
        }
    }
}

/// Different bytes never have the same base64 encoding.
pub proof fn lemma_b64_injective(a: Seq<u8>, b: Seq<u8>)
    requires
        b64_encode(a) == b64_encode(b),
    ensures
        a == b,
    decreases a.len(),
{
    lemma_b64_shape(a);
    lemma_b64_shape(b);
    let e = b64_encode(a);
    if a.len() == 0 {
        assert(a =~= b);
    } else {
        lemma_b64_digit((a[0] as int) / 4);
        lemma_b64_digit((b[0] as int) / 4);
        assert((a[0] as int) / 4 == (b[0] as int) / 4) by {
            assert(b64_value(e[0]) == (a[0] as int) / 4);
        }
        if a.len() == 1 {
            lemma_b64_digit(((a[0] as int) % 4) * 16);
            lemma_b64_digit(((b[0] as int) % 4) * 16);
            assert(b64_value(e[1]) == ((a[0] as int) % 4) * 16);
            assert(a =~= b);
        } else if a.len() == 2 {
            lemma_b64_digit(((a[0] as int) % 4) * 16 + (a[1] as int) / 16);
            lemma_b64_digit(((b[0] as int) % 4) * 16 + (b[1] as int) / 16);
            lemma_b64_digit(((a[1] as int) % 16) * 4);
            lemma_b64_digit(((b[1] as int) % 16) * 4);
            assert(b64_value(e[1]) == ((a[0] as int) % 4) * 16 + (a[1] as int) / 16);
            assert(b64_value(e[2]) == ((a[1] as int) % 16) * 4);
            assert(a =~= b);
        } else {
            lemma_b64_digit(((a[0] as int) % 4) * 16 + (a[1] as int) / 16);
            lemma_b64_digit(((b[0] as int) % 4) * 16 + (b[1] as int) / 16);
            lemma_b64_digit(((a[1] as int) % 16) * 4 + (a[2] as int) / 64);
            lemma_b64_digit(((b[1] as int) % 16) * 4 + (b[2] as int) / 64);
            lemma_b64_digit((a[2] as int) % 64);
            lemma_b64_digit((b[2] as int) % 64);
            assert(b64_value(e[1]) == ((a[0] as int) % 4) * 16 + (a[1] as int) / 16);
            assert(b64_value(e[2]) == ((a[1] as int) % 16) * 4 + (a[2] as int) / 64);
            assert(b64_value(e[3]) == (a[2] as int) % 64);
            let ra = a.subrange(3, a.len() as int);
            let rb = b.subrange(3, b.len() as int);
            assert(b64_encode(ra) =~= e.subrange(4, e.len() as int));
            assert(b64_encode(rb) =~= e.subrange(4, e.len() as int));
            lemma_b64_injective(ra, rb);
            assert(a =~= seq![a[0], a[1], a[2]] + ra);
            assert(b =~= seq![b[0], b[1], b[2]] + rb);
        }
    }
}

/// No character of a base64 encoding is white space.
proof fn lemma_b64_no_space(x: Seq<u8>)
    ensures
        forall|i: int| 0 <= i < b64_encode(x).len() ==> !is_whitespace(#[trigger] b64_encode(x)[i]),
    decreases x.len(),
{
    if x.len() >= 3 {
        let r = x.subrange(3, x.len() as int);
        lemma_b64_no_space(r);
        let e = b64_encode(x);
        assert forall|i: int| 0 <= i < e.len() implies !is_whitespace(#[trigger] e[i]) by {
            if i >= 4 {
                assert(e[i] == b64_encode(r)[i - 4]);
            }
        }
    }
}

/// Decoding the text that `base64_encode` makes of any bytes gives those
/// bytes back.
pub proof fn law_base64_roundtrip(x: Seq<u8>)
    ensures
        b64_decode_result(encode_utf8(b64_encode(x))) matches Ok(y) && y == x,
{
    let t = b64_encode(x);
    encode_utf8_valid_utf8(t);
    encode_utf8_decode_utf8(t);
    lemma_b64_no_space(x);
    lemma_b64_shape(x);
    if t.len() > 0 {
        assert(!is_whitespace(t[0]));
        assert(!is_whitespace(t.last()));
    }
    assert(trim_start(t) == t);
    assert(trim(t) == t);
    assert(is_b64(t));
    let c = choose|b: Seq<u8>| b64_encode(b) == t;
    lemma_b64_injective(c, x);
}

} // verus!
