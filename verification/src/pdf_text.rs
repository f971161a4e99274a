//! Layout of plain text into pages, and the PDF/1.4 document that shows it.
use vstd::prelude::*;
use vstd::utf8::*;
use crate::text::{index_of, lemma_index_of_bounds, find_char, push_str, utf8_bytes, extend_chars};

verus! {

// ── Decimal numbers ─────────────────────────────────────────────

/// The decimal digit character for `d < 10`.
pub open spec fn digit_char(d: nat) -> char {
    ((48 + d) as u32) as char
}

/// The decimal representation of `n`, as `format!("{n}")` prints it.
pub open spec fn dec(n: nat) -> Seq<char>
    decreases n,
{
    if n < 10 {
        seq![digit_char(n)]
    } else {
        dec(n / 10).push(digit_char(n % 10))
    }
}

/// `n` printed with `{:010}`: left-padded with zeros to ten digits.
pub open spec fn dec_pad10(n: nat) -> Seq<char> {
    let d = dec(n);
    if d.len() < 10 {
        Seq::new((10 - d.len()) as nat, |i: int| '0') + d
    } else {
        d
    }
}

pub fn dec_chars(n: usize) -> (r: Vec<char>)
    ensures
        r@ == dec(n as nat),
    decreases n,
{
    let d = (n % 10) as u8;
    let c = (48u8 + d) as char;
    assert(c == digit_char((n % 10) as nat));
    if n < 10 {
        let mut v: Vec<char> = Vec::new();
        v.push(c);
        assert(v@ =~= seq![digit_char(n as nat)]);
        v
    } else {
        let mut v = dec_chars(n / 10);
        v.push(c);
        v
    }
}

pub fn dec_pad10_chars(n: usize) -> (r: Vec<char>)
    ensures
        r@ == dec_pad10(n as nat),
{
    let d = dec_chars(n);
    if d.len() < 10 {
        let mut out: Vec<char> = Vec::new();
        let pad = 10 - d.len();
        let mut i: usize = 0;
        while i < pad
            invariant
                i <= pad,
                out@ == Seq::new(i as nat, |k: int| '0'),
            decreases pad - i,
        {
            out.push('0');
            i = i + 1;
            assert(out@ =~= Seq::new(i as nat, |k: int| '0'));
        }
        extend_chars(&mut out, &d);
        out
    } else {
        d
    }
}

pub proof fn lemma_dec_ascii(n: nat)
    ensures
        is_ascii_chars(dec(n)),
        dec(n).len() >= 1,
    decreases n,
{
    if n >= 10 {
        lemma_dec_ascii(n / 10);
    }
}

// ── Page layout ─────────────────────────────────────────────────

/// Characters per printed line before a line is wrapped.
pub open spec fn chars_per_line() -> nat {
    90
}

/// Printed lines per page: an A4 page (841.89 pt high) less two 50 pt
/// margins, at 14 pt per line.
pub open spec fn lines_per_page() -> nat {
    52
}

/// `s` cut into consecutive pieces of `n` items, the last one possibly
/// shorter (`<[T]>::chunks`).
pub open spec fn chunks<A>(s: Seq<A>, n: nat) -> Seq<Seq<A>>
    recommends
        n > 0,
{
    Seq::new(
        if s.len() == 0 {
            0
        } else {
            ((s.len() - 1) / (n as int) + 1) as nat
        },
        |k: int| s.subrange(n * k, if n * k + n <= s.len() { n * k + n } else { s.len() as int }),
    )
}

/// `line` without one trailing carriage return.
pub open spec fn strip_cr(line: Seq<char>) -> Seq<char> {
    if line.len() > 0 && line.last() == '\r' {
        line.drop_last()
    } else {
        line
    }
}

/// `str::lines`: the text split at `\n`, each line without its `\n` and
/// without a `\r` just before it; a final line ending yields no empty line.
pub open spec fn str_lines(s: Seq<char>) -> Seq<Seq<char>>
    decreases s.len(),
{
    if s.len() == 0 {
        Seq::empty()
    } else {
        let k = index_of(s, '\n');
        if k >= s.len() || k < 0 {
            seq![s]
        } else {
            seq![strip_cr(s.take(k))] + str_lines(s.skip(k + 1))
        }
    }
}

/// One source line as printed lines: an empty line stays one empty line,
/// others are cut every `chars_per_line()` characters.
pub open spec fn wrap_line(line: Seq<char>) -> Seq<Seq<char>> {
    if line.len() == 0 {
        seq![Seq::empty()]
    } else {
        chunks(line, chars_per_line())
    }
}

pub open spec fn wrap_lines(lines: Seq<Seq<char>>) -> Seq<Seq<char>>
    decreases lines.len(),
{
    if lines.len() == 0 {
        Seq::empty()
    } else {
        wrap_line(lines[0]) + wrap_lines(lines.drop_first())
    }
}

/// The printed lines of a text; a text with no lines prints one empty line.
pub open spec fn printed_lines(text: Seq<char>) -> Seq<Seq<char>> {
    let w = wrap_lines(str_lines(text));
    if w.len() == 0 {
        seq![Seq::empty()]
    } else {
        w
    }
}

/// The printed lines of a text, page by page.
pub open spec fn pages_of(text: Seq<char>) -> Seq<Seq<Seq<char>>> {
    chunks(printed_lines(text), lines_per_page())
}

pub open spec fn views(v: Seq<Vec<char>>) -> Seq<Seq<char>> {
    v.map_values(|x: Vec<char>| x@)
}

proof fn lemma_str_lines_step(s: Seq<char>)
    requires
        s.len() > 0,
    ensures
        ({
            let k = index_of(s, '\n');
            &&& 0 <= k <= s.len()
            &&& k == s.len() ==> str_lines(s) == seq![s]
            &&& k < s.len() ==> str_lines(s) == seq![strip_cr(s.take(k))] + str_lines(
                s.skip(k + 1),
            )
        }),
{
    lemma_index_of_bounds(s, '\n');
}

/// Pushes the printed lines of `text[a..b]` onto `out`.
fn wrap_into(out: &mut Vec<Vec<char>>, text: &[char], a: usize, b: usize)
    requires
        a <= b <= text@.len(),
    ensures
        views(final(out)@) == views(old(out)@) + wrap_line(text@.subrange(a as int, b as int)),
{
    let ghost seg = text@.subrange(a as int, b as int);
    let ghost start = views(out@);
    if a == b {
        out.push(Vec::new());
        assert(views(out@) =~= start + wrap_line(seg));
        return;
    }
    let mut pos = a;
    let mut k: usize = 0;
    while pos < b
        invariant
            a < b <= text@.len(),
            seg == text@.subrange(a as int, b as int),
            k <= (seg.len() - 1) / 90 + 1,
            pos == if 90 * k < seg.len() { a + 90 * k } else { b as int },
            views(out@) == start + chunks(seg, 90).take(k as int),
        decreases b - pos,
    {
        let end = if b - pos > 90 { pos + 90 } else { b };
        let mut piece: Vec<char> = Vec::new();
        let mut i = pos;
        while i < end
            invariant
                pos <= i <= end <= text@.len(),
                piece@ == text@.subrange(pos as int, i as int),
            decreases end - i,
        {
            piece.push(text[i]);
            i = i + 1;
            assert(piece@ =~= text@.subrange(pos as int, i as int));
        }
        assert(piece@ =~= chunks(seg, 90)[k as int]);
        let ghost old_out = out@;
        out.push(piece);
        assert(views(out@) =~= views(old_out).push(chunks(seg, 90)[k as int]));
        k = k + 1;
        pos = end;
        assert(chunks(seg, 90).take(k as int) =~= chunks(seg, 90).take(k - 1).push(
            chunks(seg, 90)[k - 1],
        ));
        assert(views(out@) =~= start + chunks(seg, 90).take(k as int));
    }
    assert(chunks(seg, 90).take(k as int) =~= chunks(seg, 90));
}

/// The lines of `text`, as `str::lines` gives them.
pub fn text_lines(text: &[char]) -> (r: Vec<Vec<char>>)
    ensures
        views(r@) == str_lines(text@),
{
    let mut out: Vec<Vec<char>> = Vec::new();
    let mut i: usize = 0;
    assert(text@.skip(0) =~= text@);
    while i < text.len()
        invariant
            i <= text@.len(),
            views(out@) + str_lines(text@.skip(i as int)) == str_lines(text@),
        decreases text.len() - i,
    {
        let ghost rest = text@.skip(i as int);
        let ghost before = views(out@);
        let j = find_char(text, i, '\n');
        proof {
            lemma_str_lines_step(rest);
        }
        let mut end = j;
        if j < text.len() && end > i && text[end - 1] == '\r' {
            end = end - 1;
        }
        let mut line: Vec<char> = Vec::new();
        let mut k = i;
        while k < end
            invariant
                i <= k <= end <= text@.len(),
                line@ == text@.subrange(i as int, k as int),
            decreases end - k,
        {
            line.push(text[k]);
            k = k + 1;
            assert(line@ =~= text@.subrange(i as int, k as int));
        }
        out.push(line);
        if j < text.len() {
            proof {
                let l = strip_cr(rest.take(j - i));
                assert(l =~= text@.subrange(i as int, end as int));
                assert(rest.skip(j - i + 1) =~= text@.skip(j + 1));
            }
            i = j + 1;
        } else {
            proof {
                assert(rest =~= text@.subrange(i as int, end as int));
                assert(text@.skip(j as int) =~= Seq::<char>::empty());
            }
            i = j;
        }
        assert(views(out@) + str_lines(text@.skip(i as int)) =~= before + str_lines(rest));
    }
    assert(text@.skip(i as int) =~= Seq::<char>::empty());
    assert(views(out@) + str_lines(text@.skip(i as int)) =~= views(out@));
    out
}

/// The printed lines of `text`.
pub fn layout_lines(text: &[char]) -> (r: Vec<Vec<char>>)
    ensures
        views(r@) == printed_lines(text@),
{
    let mut out: Vec<Vec<char>> = Vec::new();
    let mut i: usize = 0;
    assert(text@.skip(0) =~= text@);
    while i < text.len()
        invariant
            i <= text@.len(),
            views(out@) + wrap_lines(str_lines(text@.skip(i as int))) == wrap_lines(
                str_lines(text@),
            ),
        decreases text.len() - i,
    {
        let ghost rest = text@.skip(i as int);
        let ghost before = views(out@);
        let j = find_char(text, i, '\n');
        proof {
            lemma_str_lines_step(rest);
        }
        let mut end = j;
        if j < text.len() && end > i && text[end - 1] == '\r' {
            end = end - 1;
        }
        wrap_into(&mut out, text, i, end);
        if j < text.len() {
            proof {
                let line = strip_cr(rest.take(j - i));
                assert(line =~= text@.subrange(i as int, end as int));
                assert(rest.skip(j - i + 1) =~= text@.skip(j + 1));
                let tail = str_lines(text@.skip(j + 1));
                assert((seq![line] + tail)[0] == line);
                assert((seq![line] + tail).drop_first() =~= tail);
                assert(wrap_lines(seq![line] + tail) == wrap_line(line) + wrap_lines(tail));
            }
            i = j + 1;
        } else {
            proof {
                assert(rest =~= text@.subrange(i as int, end as int));
                assert(seq![rest][0] == rest);
                assert(seq![rest].drop_first() =~= Seq::<Seq<char>>::empty());
                assert(wrap_lines(seq![rest]) == wrap_line(rest) + wrap_lines(
                    seq![rest].drop_first(),
                ));
                assert(wrap_lines(seq![rest]) =~= wrap_line(rest));
                assert(text@.skip(j as int) =~= Seq::<char>::empty());
            }
            i = j;
        }
        assert(views(out@) + wrap_lines(str_lines(text@.skip(i as int))) =~= before
            + wrap_lines(str_lines(rest)));
    }
    assert(text@.skip(i as int) =~= Seq::<char>::empty());
    assert(views(out@) + wrap_lines(str_lines(text@.skip(i as int))) =~= views(out@));
    if out.len() == 0 {
        out.push(Vec::new());
        assert(views(out@) =~= seq![Seq::<char>::empty()]);
    }
    out
}


// ── PDF strings and content streams ─────────────────────────────

/// One character inside a PDF literal string `( … )`: the delimiters and
/// the backslash are escaped, CR and LF become `\r` and `\n`, other control
/// characters and characters beyond Latin-1 (which WinAnsiEncoding cannot
/// show) are dropped.
pub open spec fn escape_char(c: char) -> Seq<char> {
    if c == '(' {
        seq!['\\', '(']
    } else if c == ')' {
        seq!['\\', ')']
    } else if c == '\\' {
        seq!['\\', '\\']
    } else if c == '\r' {
        seq!['\\', 'r']
    } else if c == '\n' {
        seq!['\\', 'n']
    } else if (c as u32) < 32 || (c as u32) > 255 {
        Seq::empty()
    } else {
        seq![c]
    }
}

pub open spec fn pdf_escape(s: Seq<char>) -> Seq<char>
    decreases s.len(),
{
    if s.len() == 0 {
        Seq::empty()
    } else {
        pdf_escape(s.drop_last()) + escape_char(s.last())
    }
}

/// Encodes a string for inclusion in a PDF literal string `(...)`.
pub fn pdf_escape_string(s: &[char]) -> (r: Vec<char>)
    ensures
        r@ == pdf_escape(s@),
{
    let mut out: Vec<char> = Vec::new();
    let mut i: usize = 0;
    while i < s.len()
        invariant
            i <= s@.len(),
            out@ == pdf_escape(s@.take(i as int)),
        decreases s.len() - i,
    {
        let c = s[i];
        let ghost before = out@;
        if c == '(' {
            out.push('\\');
            out.push('(');
        } else if c == ')' {
            out.push('\\');
            out.push(')');
        } else if c == '\\' {
            out.push('\\');
            out.push('\\');
        } else if c == '\r' {
            out.push('\\');
            out.push('r');
        } else if c == '\n' {
            out.push('\\');
            out.push('n');
        } else if (c as u32) < 32 || (c as u32) > 255 {
        } else {
            out.push(c);
        }
        i = i + 1;
        assert(s@.take(i as int).drop_last() =~= s@.take(i - 1));
        assert(out@ =~= before + escape_char(c));
    }
    assert(s@.take(i as int) =~= s@);
    out
}

/// The text operators that show printed line `j` of a page: the first line
/// is placed at the top-left margin (50, 791.89), each further line 14 pt
/// lower.
pub open spec fn line_op(j: int, line: Seq<char>) -> Seq<char> {
    (if j == 0 {
        "50.000 791.890 Td\n("@
    } else {
        "0 -14.000 Td\n("@
    }) + pdf_escape(line) + ") Tj\n"@
}

pub open spec fn line_ops(lines: Seq<Seq<char>>) -> Seq<char>
    decreases lines.len(),
{
    if lines.len() == 0 {
        Seq::empty()
    } else {
        line_ops(lines.drop_last()) + line_op(lines.len() - 1, lines.last())
    }
}

/// The content stream of a page: 11 pt Helvetica, one line after another.
pub open spec fn stream_chars(lines: Seq<Seq<char>>) -> Seq<char> {
    "BT\n/F1 11.0 Tf\n"@ + line_ops(lines) + "ET\n"@
}

fn content_stream(lines: &Vec<Vec<char>>, start: usize, end: usize) -> (r: Vec<char>)
    requires
        start <= end <= lines@.len(),
    ensures
        r@ == stream_chars(views(lines@).subrange(start as int, end as int)),
{
    let mut out: Vec<char> = Vec::new();
    push_str(&mut out, "BT\n/F1 11.0 Tf\n");
    let ghost head = out@;
    let mut j = start;
    assert(views(lines@).subrange(start as int, start as int) =~= Seq::<Seq<char>>::empty());
    while j < end
        invariant
            start <= j <= end <= lines@.len(),
            head == "BT\n/F1 11.0 Tf\n"@,
            out@ == head + line_ops(views(lines@).subrange(start as int, j as int)),
        decreases end - j,
    {
        let ghost before = out@;
        if j == start {
            push_str(&mut out, "50.000 791.890 Td\n(");
        } else {
            push_str(&mut out, "0 -14.000 Td\n(");
        }
        let esc = pdf_escape_string(&lines[j]);
        extend_chars(&mut out, &esc);
        push_str(&mut out, ") Tj\n");
        let ghost sub = views(lines@).subrange(start as int, j + 1);
        assert(sub.drop_last() =~= views(lines@).subrange(start as int, j as int));
        assert(sub.last() == lines@[j as int]@);
        assert(out@ =~= before + line_op(j - start, lines@[j as int]@));
        j = j + 1;
    }
    push_str(&mut out, "ET\n");
    out
}

// ── PDF objects ─────────────────────────────────────────────────

/// `{n} 0 obj\n{body}\nendobj\n`
pub open spec fn object(n: nat, body: Seq<char>) -> Seq<char> {
    dec(n) + " 0 obj\n"@ + body + "\nendobj\n"@
}

/// `3 0 R 4 0 R …`: references to the page objects 3 ..= 2 + `m`.
pub open spec fn kids(m: nat) -> Seq<char>
    decreases m,
{
    if m == 0 {
        Seq::empty()
    } else if m == 1 {
        dec(3) + " 0 R"@
    } else {
        kids((m - 1) as nat) + " "@ + dec(m + 2) + " 0 R"@
    }
}

pub open spec fn catalog_object() -> Seq<char> {
    object(1, "<< /Type /Catalog /Pages 2 0 R >>"@)
}

pub open spec fn pages_object(n: nat) -> Seq<char> {
    object(2, "<< /Type /Pages /Kids ["@ + kids(n) + "] /Count "@ + dec(n) + " >>"@)
}

/// Page `i` of `n`: an A4 MediaBox, its content stream object and the font.
pub open spec fn page_object(i: nat, n: nat) -> Seq<char> {
    object(
        3 + i,
        "<< /Type /Page /Parent 2 0 R /MediaBox [0 0 595.28 841.89] /Contents "@ + dec(3 + n + i)
            + " 0 R /Resources << /Font << /F1 "@ + dec(3 + 2 * n) + " 0 R >> >> >>"@,
    )
}

/// The built-in Helvetica Type1 font with WinAnsiEncoding; nothing embedded.
pub open spec fn font_object(n: nat) -> Seq<char> {
    object(
        3 + 2 * n,
        "<< /Type /Font /Subtype /Type1 /BaseFont /Helvetica /Encoding /WinAnsiEncoding >>"@,
    )
}

/// The content stream object of page `i`, as bytes; `/Length` is the byte
/// length of the stream.
pub open spec fn content_object(i: nat, n: nat, lines: Seq<Seq<char>>) -> Seq<u8> {
    let body = encode_utf8(stream_chars(lines));
    encode_utf8(dec(3 + n + i) + " 0 obj\n<< /Length "@ + dec(body.len()) + " >>\nstream\n"@)
        + body + encode_utf8("endstream\nendobj\n"@)
}

/// The bytes of object `k + 1` of a document with the given pages; objects
/// are numbered catalog, page tree, pages, content streams, font.
pub open spec fn object_bytes(k: int, pages: Seq<Seq<Seq<char>>>) -> Seq<u8> {
    let n = pages.len();
    if k == 0 {
        encode_utf8(catalog_object())
    } else if k == 1 {
        encode_utf8(pages_object(n))
    } else if k < 2 + n {
        encode_utf8(page_object((k - 2) as nat, n))
    } else if k < 2 + 2 * n {
        content_object((k - 2 - n) as nat, n, pages[k - 2 - n])
    } else {
        encode_utf8(font_object(n))
    }
}

pub open spec fn objects(pages: Seq<Seq<Seq<char>>>) -> Seq<Seq<u8>> {
    Seq::new(3 + 2 * pages.len(), |k: int| object_bytes(k, pages))
}


fn object_chars(n: usize, body: &[char]) -> (r: Vec<char>)
    ensures
        r@ == object(n as nat, body@),
{
    let mut out = dec_chars(n);
    push_str(&mut out, " 0 obj\n");
    extend_chars(&mut out, body);
    push_str(&mut out, "\nendobj\n");
    out
}

fn kids_chars(m: usize) -> (r: Vec<char>)
    requires
        m + 3 <= usize::MAX,
    ensures
        r@ == kids(m as nat),
{
    let mut out: Vec<char> = Vec::new();
    let mut i: usize = 0;
    while i < m
        invariant
            i <= m,
            m + 3 <= usize::MAX,
            out@ == kids(i as nat),
        decreases m - i,
    {
        if i > 0 {
            push_str(&mut out, " ");
        }
        let d = dec_chars(i + 3);
        extend_chars(&mut out, &d);
        push_str(&mut out, " 0 R");
        i = i + 1;
    }
    out
}

/// The bytes of object `k + 1` for `lines` laid out on `n` pages.
fn object_bytes_exec(k: usize, n: usize, lines: &Vec<Vec<char>>) -> (r: Vec<u8>)
    requires
        lines@.len() >= 1,
        n == (lines@.len() - 1) / 52 + 1,
        k < 3 + 2 * n,
        3 + 2 * n <= usize::MAX,
    ensures
        r@ == object_bytes(k as int, chunks(views(lines@), 52)),
{
    let ghost pages = chunks(views(lines@), 52);
    assert(pages.len() == n);
    if k == 0 {
        let mut body: Vec<char> = Vec::new();
        push_str(&mut body, "<< /Type /Catalog /Pages 2 0 R >>");
        let o = object_chars(1, &body);
        utf8_bytes(&o)
    } else if k == 1 {
        let mut body: Vec<char> = Vec::new();
        push_str(&mut body, "<< /Type /Pages /Kids [");
        let kids = kids_chars(n);
        extend_chars(&mut body, &kids);
        push_str(&mut body, "] /Count ");
        let d = dec_chars(n);
        extend_chars(&mut body, &d);
        push_str(&mut body, " >>");
        let o = object_chars(2, &body);
        utf8_bytes(&o)
    } else if k < 2 + n {
        let i = k - 2;
        let mut body: Vec<char> = Vec::new();
        push_str(&mut body, "<< /Type /Page /Parent 2 0 R /MediaBox [0 0 595.28 841.89] /Contents ");
        let d = dec_chars(3 + n + i);
        extend_chars(&mut body, &d);
        push_str(&mut body, " 0 R /Resources << /Font << /F1 ");
        let f = dec_chars(3 + 2 * n);
        extend_chars(&mut body, &f);
        push_str(&mut body, " 0 R >> >> >>");
        let o = object_chars(3 + i, &body);
        utf8_bytes(&o)
    } else if k < 2 + 2 * n {
        let p = k - 2 - n;
        let len = lines.len();
        assert(52 * p < len) by (nonlinear_arith)
            requires
                p < n,
                n == (len - 1) / 52 + 1,
                len >= 1,
        ;
        let start = 52 * p;
        let end = if lines.len() - start > 52 { start + 52 } else { lines.len() };
        let stream = content_stream(lines, start, end);
        assert(views(lines@).subrange(start as int, end as int) == pages[p as int]);
        let body = utf8_bytes(&stream);
        let mut head = dec_chars(3 + n + p);
        push_str(&mut head, " 0 obj\n<< /Length ");
        let l = dec_chars(body.len());
        extend_chars(&mut head, &l);
        push_str(&mut head, " >>\nstream\n");
        let mut out = utf8_bytes(&head);
        let mut b = body.clone();
        out.append(&mut b);
        let mut tail_chars: Vec<char> = Vec::new();
        push_str(&mut tail_chars, "endstream\nendobj\n");
        let mut tail = utf8_bytes(&tail_chars);
        out.append(&mut tail);
        out
    } else {
        let mut body: Vec<char> = Vec::new();
        push_str(
            &mut body,
            "<< /Type /Font /Subtype /Type1 /BaseFont /Helvetica /Encoding /WinAnsiEncoding >>",
        );
        let o = object_chars(3 + 2 * n, &body);
        utf8_bytes(&o)
    }
}

// ── The document ────────────────────────────────────────────────

/// The file header: version 1.4 and a comment of four high bytes, which marks
/// the file as binary.
pub open spec fn pdf_header() -> Seq<u8> {
    seq![37u8, 80, 68, 70, 45, 49, 46, 52, 10, 37, 0xe2, 0xe3, 0xcf, 0xd3, 10]
}

/// The byte sequences of `s` one after another.
pub open spec fn concat_all(s: Seq<Seq<u8>>) -> Seq<u8>
    decreases s.len(),
{
    if s.len() == 0 {
        Seq::empty()
    } else {
        concat_all(s.drop_last()) + s.last()
    }
}

/// Where object `k + 1` begins in the file.
pub open spec fn object_offset(objs: Seq<Seq<u8>>, k: int) -> nat {
    pdf_header().len() + concat_all(objs.take(k)).len()
}

/// The cross-reference entries of the first `m` objects.
pub open spec fn xref_entries(objs: Seq<Seq<u8>>, m: nat) -> Seq<char>
    decreases m,
{
    if m == 0 {
        Seq::empty()
    } else {
        xref_entries(objs, (m - 1) as nat) + dec_pad10(object_offset(objs, m - 1)) + " 00000 n\r\n"@
    }
}

/// The cross-reference table, which gives each object's byte offset, and the
/// trailer, which points at it.
pub open spec fn xref_and_trailer(objs: Seq<Seq<u8>>) -> Seq<char> {
    "xref\n0 "@ + dec(objs.len() + 1) + "\n"@ + "0000000000 65535 f\r\n"@ + xref_entries(
        objs,
        objs.len(),
    ) + "trailer\n<< /Size "@ + dec(objs.len() + 1) + " /Root 1 0 R >>\nstartxref\n"@ + dec(
        pdf_header().len() + concat_all(objs).len(),
    ) + "\n%%EOF\n"@
}

/// The PDF document that shows the given pages.
pub open spec fn pdf_document(pages: Seq<Seq<Seq<char>>>) -> Seq<u8> {
    let objs = objects(pages);
    pdf_header() + concat_all(objs) + encode_utf8(xref_and_trailer(objs))
}

/// The PDF document that prints `text`.
pub open spec fn text_pdf(text: Seq<char>) -> Seq<u8> {
    pdf_document(pages_of(text))
}

/// Builds a minimal valid PDF/1.4 document from plain text.
///
/// Uses the built-in Helvetica Type1 font with WinAnsiEncoding; no font
/// embedding required. Pages are A4 (595.28 × 841.89 pt).
pub fn build_text_pdf(text: &[char]) -> (r: Vec<u8>)
    ensures
        r@ == text_pdf(text@),
{
    let lines = layout_lines(text);
    let ghost pages = chunks(views(lines@), 52);
    let n = (lines.len() - 1) / 52 + 1;
    let total = 3 + 2 * n;
    let ghost objs = objects(pages);
    assert(objs.len() == total);
    let mut pdf: Vec<u8> = vec![37u8, 80, 68, 70, 45, 49, 46, 52, 10, 37, 0xe2, 0xe3, 0xcf, 0xd3, 10];
    assert(pdf@ =~= pdf_header());
    let mut offsets: Vec<usize> = Vec::new();
    let mut k: usize = 0;
    assert(objs.take(0) =~= Seq::<Seq<u8>>::empty());
    assert(pdf@ =~= pdf_header() + concat_all(objs.take(0)));
    while k < total
        invariant
            lines@.len() >= 1,
            n == (lines@.len() - 1) / 52 + 1,
            total == 3 + 2 * n,
            pages == chunks(views(lines@), 52),
            objs == objects(pages),
            objs.len() == total,
            k <= total,
            pdf@ == pdf_header() + concat_all(objs.take(k as int)),
            offsets@ == Seq::new(k as nat, |j: int| object_offset(objs, j) as usize),
            forall|j: int| 0 <= j < k ==> object_offset(objs, j) <= usize::MAX,
        decreases total - k,
    {
        let ghost before = pdf@;
        let mut chunk = object_bytes_exec(k, n, &lines);
        assert(chunk@ == objs[k as int]);
        offsets.push(pdf.len());
        pdf.append(&mut chunk);
        assert(objs.take(k + 1).drop_last() =~= objs.take(k as int));
        k = k + 1;
        assert(pdf@ =~= pdf_header() + concat_all(objs.take(k as int)));
        assert(offsets@ =~= Seq::new(k as nat, |j: int| object_offset(objs, j) as usize));
    }
    assert(objs.take(total as int) =~= objs);
    let body_end = pdf.len();
    let mut tail: Vec<char> = Vec::new();
    push_str(&mut tail, "xref\n0 ");
    let size = dec_chars(total + 1);
    extend_chars(&mut tail, &size);
    push_str(&mut tail, "\n");
    push_str(&mut tail, "0000000000 65535 f\r\n");
    let ghost head = tail@;
    let mut m: usize = 0;
    while m < total
        invariant
            m <= total,
            objs.len() == total,
            offsets@ == Seq::new(total as nat, |j: int| object_offset(objs, j) as usize),
            forall|j: int| 0 <= j < total ==> object_offset(objs, j) <= usize::MAX,
            tail@ == head + xref_entries(objs, m as nat),
        decreases total - m,
    {
        let e = dec_pad10_chars(offsets[m]);
        extend_chars(&mut tail, &e);
        push_str(&mut tail, " 00000 n\r\n");
        m = m + 1;
    }
    push_str(&mut tail, "trailer\n<< /Size ");
    extend_chars(&mut tail, &size);
    push_str(&mut tail, " /Root 1 0 R >>\nstartxref\n");
    let d = dec_chars(body_end);
    extend_chars(&mut tail, &d);
    push_str(&mut tail, "\n%%EOF\n");
    let mut tail_bytes = utf8_bytes(&tail);
    pdf.append(&mut tail_bytes);
    assert(tail@ =~= xref_and_trailer(objs));
    pdf
}

/// Every generated document starts with the PDF header and ends with the
/// end-of-file marker.
pub proof fn law_pdf_framing(text: Seq<char>)
    ensures
        exists|mid: Seq<u8>| text_pdf(text) == pdf_header() + mid + encode_utf8("\n%%EOF\n"@),
{
    let objs = objects(pages_of(text));
    let a = "xref\n0 "@ + dec(objs.len() + 1) + "\n"@ + "0000000000 65535 f\r\n"@ + xref_entries(
        objs,
        objs.len(),
    ) + "trailer\n<< /Size "@ + dec(objs.len() + 1) + " /Root 1 0 R >>\nstartxref\n"@ + dec(
        pdf_header().len() + concat_all(objs).len(),
    );
    assert(xref_and_trailer(objs) == a + "\n%%EOF\n"@);
    crate::text::lemma_encode_utf8_concat(a, "\n%%EOF\n"@);
    let mid = concat_all(objs) + encode_utf8(a);
    assert(text_pdf(text) =~= pdf_header() + mid + encode_utf8("\n%%EOF\n"@));
}

// ── Laws of the layout and of the document ─────────────────────

/// Every printed line of a run of source lines holds at most 90 characters.
proof fn lemma_wrap_width(ls: Seq<Seq<char>>)
    ensures
        forall|j: int| 0 <= j < wrap_lines(ls).len() ==> #[trigger] wrap_lines(ls)[j].len() <= 90,
    decreases ls.len(),
{
    if ls.len() > 0 {
        lemma_wrap_width(ls.drop_first());
        let w = wrap_line(ls[0]);
        assert forall|j: int| 0 <= j < w.len() implies #[trigger] w[j].len() <= 90 by {
            if ls[0].len() > 0 {
                let l = ls[0];
                let hi = if 90 * j + 90 <= l.len() { 90 * j + 90 } else { l.len() as int };
                assert(w[j] == l.subrange(90 * j, hi));
                assert(90 * j <= l.len()) by (nonlinear_arith)
                    requires
                        0 <= j < (l.len() - 1) / 90 + 1,
                        l.len() > 0,
                ;
            }
        }
        let rest = wrap_lines(ls.drop_first());
        assert(wrap_lines(ls) == w + rest);
        assert forall|j: int| 0 <= j < wrap_lines(ls).len() implies #[trigger] wrap_lines(ls)[j].len()
            <= 90 by {
            if j >= w.len() {
                assert(wrap_lines(ls)[j] == rest[j - w.len()]);
            }
        }
    }
}

/// A source line is printed as consecutive pieces of 90 characters, the
/// last one possibly shorter; an empty line is printed as one empty line.
pub proof fn law_line_pieces(line: Seq<char>)
    ensures
        line.len() == 0 ==> wrap_line(line) == seq![Seq::<char>::empty()],
        line.len() > 0 ==> wrap_line(line).len() == (line.len() - 1) / 90 + 1,
        line.len() > 0 ==> forall|k: int| 0 <= k < wrap_line(line).len() ==> #[trigger] wrap_line(
            line,
        )[k] == line.subrange(
            90 * k,
            if 90 * k + 90 <= line.len() {
                90 * k + 90
            } else {
                line.len() as int
            },
        ),
{
}

/// Every text is printed as at least one line of at most 90 characters (the
/// text's lines, in order, each cut into pieces as `law_line_pieces` says),
/// laid out 52 lines to a page with the last page holding the rest.
pub proof fn law_pdf_pages(text: Seq<char>)
    ensures
        ({
            let lines = printed_lines(text);
            let pages = pages_of(text);
            &&& lines.len() >= 1
            &&& lines == (if wrap_lines(str_lines(text)).len() == 0 {
                seq![Seq::<char>::empty()]
            } else {
                wrap_lines(str_lines(text))
            })
            &&& forall|j: int| 0 <= j < lines.len() ==> #[trigger] lines[j].len() <= 90
            &&& pages.len() == (lines.len() - 1) / 52 + 1
            &&& forall|i: int|
                0 <= i < pages.len() ==> #[trigger] pages[i] == lines.subrange(
                    52 * i,
                    if 52 * i + 52 <= lines.len() {
                        52 * i + 52
                    } else {
                        lines.len() as int
                    },
                )
            &&& forall|i: int| 0 <= i < pages.len() - 1 ==> #[trigger] pages[i].len() == 52
            &&& 1 <= pages.last().len() <= 52
        }),
{
    let lines = printed_lines(text);
    let pages = pages_of(text);
    lemma_wrap_width(str_lines(text));
    let len = lines.len() as int;
    assert forall|i: int| 0 <= i < pages.len() - 1 implies #[trigger] pages[i].len() == 52 by {
        assert(52 * i + 52 <= len) by (nonlinear_arith)
            requires
                0 <= i < (len - 1) / 52,
                len >= 1,
        ;
    }
    let last = pages.len() - 1;
    assert(52 * last <= len - 1 && len <= 52 * last + 52) by (nonlinear_arith)
        requires
            last == (len - 1) / 52,
            len >= 1,
    ;
}

/// The text operators of line `j` stand after those of the lines before it.
proof fn lemma_line_ops_at(ls: Seq<Seq<char>>, j: int)
    requires
        0 <= j < ls.len(),
    ensures
        exists|post: Seq<char>| line_ops(ls) == line_ops(ls.take(j)) + line_op(j, ls[j]) + post,
    decreases ls.len(),
{
    let d = ls.drop_last();
    if j == ls.len() - 1 {
        assert(d =~= ls.take(j));
        assert(line_ops(ls) =~= line_ops(ls.take(j)) + line_op(j, ls[j]) + Seq::<char>::empty());
    } else {
        lemma_line_ops_at(d, j);
        let post = choose|post: Seq<char>| line_ops(d) == line_ops(d.take(j)) + line_op(j, d[j]) + post;
        assert(d.take(j) =~= ls.take(j));
        let last = line_op(ls.len() - 1, ls.last());
        assert(line_ops(ls) =~= line_ops(ls.take(j)) + line_op(j, ls[j]) + (post + last));
    }
}

/// Page `i` of a text's document is shown by content stream object
/// `3 + n + i` (of `n` pages), and that stream shows the page's printed lines
/// in order: line `j` comes after lines `0..j`, as `(…) Tj` of its
/// PDF-escaped text, the first at the top margin and each next one 14 pt
/// lower.
pub proof fn law_pdf_page_lines(text: Seq<char>, i: int, j: int)
    requires
        0 <= i < pages_of(text).len(),
        0 <= j < pages_of(text)[i].len(),
    ensures
        ({
            let pages = pages_of(text);
            let page = pages[i];
            let n = pages.len();
            &&& objects(pages)[2 + n + i] == content_object(i as nat, n, page)
            &&& exists|post: Seq<char>|
                stream_chars(page) == "BT\n/F1 11.0 Tf\n"@ + line_ops(page.take(j)) + line_op(
                    j,
                    page[j],
                ) + post
            &&& line_op(j, page[j]) == (if j == 0 {
                "50.000 791.890 Td\n("@
            } else {
                "0 -14.000 Td\n("@
            }) + pdf_escape(page[j]) + ") Tj\n"@
        }),
{
    let pages = pages_of(text);
    let page = pages[i];
    lemma_line_ops_at(page, j);
    let post = choose|post: Seq<char>| line_ops(page) == line_ops(page.take(j)) + line_op(j, page[j]) + post;
    assert(stream_chars(page) =~= "BT\n/F1 11.0 Tf\n"@ + line_ops(page.take(j)) + line_op(j, page[j])
        + (post + "ET\n"@));
}

/// The bytes of a list of objects are those before object `k`, object `k`,
/// and those after it.
proof fn lemma_concat_split(s: Seq<Seq<u8>>, k: int)
    requires
        0 <= k < s.len(),
    ensures
        concat_all(s) == concat_all(s.take(k)) + s[k] + concat_all(s.skip(k + 1)),
    decreases s.len(),
{
    let d = s.drop_last();
    if k == s.len() - 1 {
        assert(d =~= s.take(k));
        assert(s.skip(k + 1) =~= Seq::<Seq<u8>>::empty());
        assert(concat_all(s) =~= concat_all(s.take(k)) + s[k] + concat_all(s.skip(k + 1)));
    } else {
        lemma_concat_split(d, k);
        assert(d.take(k) =~= s.take(k));
        let t = s.skip(k + 1);
        assert(t.drop_last() =~= d.skip(k + 1));
        assert(concat_all(t) == concat_all(t.drop_last()) + t.last());
        assert(concat_all(s) =~= concat_all(s.take(k)) + s[k] + concat_all(s.skip(k + 1)));
    }
}

/// Whether the bytes `a` begin with the bytes `p`.
pub open spec fn begins_with(a: Seq<u8>, p: Seq<u8>) -> bool {
    p.len() <= a.len() && a.take(p.len() as int) == p
}

/// How object `k + 1` begins: its number and `0 obj`.
pub open spec fn object_head(k: int) -> Seq<u8> {
    encode_utf8(dec((k + 1) as nat) + " 0 obj\n"@)
}

/// Every object of a document begins with its own number, `k + 1` for the
/// `k`-th.
proof fn lemma_object_head(pages: Seq<Seq<Seq<char>>>, k: int)
    requires
        0 <= k < objects(pages).len(),
    ensures
        begins_with(objects(pages)[k], object_head(k)),
{
    let n = pages.len();
    let head = dec((k + 1) as nat) + " 0 obj\n"@;
    if k < 2 + n || k >= 2 + 2 * n {
        let body: Seq<char> = if k == 0 {
            "<< /Type /Catalog /Pages 2 0 R >>"@
        } else if k == 1 {
            "<< /Type /Pages /Kids ["@ + kids(n) + "] /Count "@ + dec(n) + " >>"@
        } else if k < 2 + n {
            "<< /Type /Page /Parent 2 0 R /MediaBox [0 0 595.28 841.89] /Contents "@ + dec(
                3 + n + (k - 2) as nat,
            ) + " 0 R /Resources << /Font << /F1 "@ + dec(3 + 2 * n) + " 0 R >> >> >>"@
        } else {
            "<< /Type /Font /Subtype /Type1 /BaseFont /Helvetica /Encoding /WinAnsiEncoding >>"@
        };
        let rest = body + "\nendobj\n"@;
        assert(object((k + 1) as nat, body) =~= head + rest);
        crate::text::lemma_encode_utf8_concat(head, rest);
        assert(objects(pages)[k] == encode_utf8(object((k + 1) as nat, body)));
        assert(objects(pages)[k] == object_head(k) + encode_utf8(rest));
        assert((object_head(k) + encode_utf8(rest)).take(object_head(k).len() as int) =~= object_head(k));
    } else {
        let i = (k - 2 - n) as nat;
        let b = encode_utf8(stream_chars(pages[k - 2 - n]));
        let tail = "<< /Length "@ + dec(b.len()) + " >>\nstream\n"@;
        reveal_strlit(" 0 obj\n<< /Length ");
        reveal_strlit(" 0 obj\n");
        reveal_strlit("<< /Length ");
        assert(" 0 obj\n<< /Length "@ =~= " 0 obj\n"@ + "<< /Length "@);
        let x = dec(3 + n + i) + " 0 obj\n<< /Length "@ + dec(b.len()) + " >>\nstream\n"@;
        assert(x =~= head + tail);
        crate::text::lemma_encode_utf8_concat(head, tail);
        let rest = encode_utf8(tail) + b + encode_utf8("endstream\nendobj\n"@);
        assert(objects(pages)[k] =~= object_head(k) + rest);
        assert((object_head(k) + rest).take(object_head(k).len() as int) =~= object_head(k));
    }
}

/// The document of every text is well formed: it holds `3 + 2n` objects for
/// its `n` pages (catalog, page tree, pages, content streams, font); the
/// bytes at each object's offset are that object, which begins with its own
/// number; the cross-reference table lists the offsets in object order;
/// `startxref` gives the offset at which the table begins; and each content
/// stream's `/Length` is the byte length of the stream that follows it.
pub proof fn law_pdf_structure(text: Seq<char>)
    ensures
        objects(pages_of(text)).len() == 3 + 2 * pages_of(text).len(),
        forall|k: int|
            0 <= k < objects(pages_of(text)).len() ==> text_pdf(text).subrange(
                object_offset(objects(pages_of(text)), k) as int,
                (object_offset(objects(pages_of(text)), k) + objects(pages_of(text))[k].len()) as int,
            ) == #[trigger] objects(pages_of(text))[k],
        forall|k: int|
            0 <= k < objects(pages_of(text)).len() ==> begins_with(
                #[trigger] objects(pages_of(text))[k],
                object_head(k),
            ),
        forall|k: int|
            0 <= k < objects(pages_of(text)).len() ==> #[trigger] xref_entries(
                objects(pages_of(text)),
                (k + 1) as nat,
            ) == xref_entries(objects(pages_of(text)), k as nat) + dec_pad10(
                object_offset(objects(pages_of(text)), k),
            ) + " 00000 n\r\n"@,
        text_pdf(text) == pdf_header() + concat_all(objects(pages_of(text))) + encode_utf8(
            xref_and_trailer(objects(pages_of(text))),
        ),
        xref_and_trailer(objects(pages_of(text))) == "xref\n0 "@ + dec(
            objects(pages_of(text)).len() + 1,
        ) + "\n"@ + "0000000000 65535 f\r\n"@ + xref_entries(
            objects(pages_of(text)),
            objects(pages_of(text)).len(),
        ) + "trailer\n<< /Size "@ + dec(objects(pages_of(text)).len() + 1)
            + " /Root 1 0 R >>\nstartxref\n"@ + dec(
            pdf_header().len() + concat_all(objects(pages_of(text))).len(),
        ) + "\n%%EOF\n"@,
        forall|i: int|
            0 <= i < pages_of(text).len() ==> #[trigger] objects(pages_of(text))[2
                + pages_of(text).len() + i] == encode_utf8(
                dec(3 + pages_of(text).len() + i as nat) + " 0 obj\n<< /Length "@ + dec(
                    encode_utf8(stream_chars(pages_of(text)[i])).len(),
                ) + " >>\nstream\n"@,
            ) + encode_utf8(stream_chars(pages_of(text)[i])) + encode_utf8(
                "endstream\nendobj\n"@,
            ),
{
    let pages = pages_of(text);
    let objs = objects(pages);
    assert forall|k: int| 0 <= k < objs.len() implies text_pdf(text).subrange(
        object_offset(objs, k) as int,
        (object_offset(objs, k) + objs[k].len()) as int,
    ) == #[trigger] objs[k] by {
        lemma_object_at_offset(pages, k);
    }
    assert forall|k: int| 0 <= k < objs.len() implies begins_with(#[trigger] objs[k], object_head(k)) by {
        lemma_object_head(pages, k);
    }
}

/// The bytes at an object's offset in a document are that object.
proof fn lemma_object_at_offset(pages: Seq<Seq<Seq<char>>>, k: int)
    requires
        0 <= k < objects(pages).len(),
    ensures
        pdf_document(pages).subrange(
            object_offset(objects(pages), k) as int,
            (object_offset(objects(pages), k) + objects(pages)[k].len()) as int,
        ) == objects(pages)[k],
{
    let objs = objects(pages);
    let tail = encode_utf8(xref_and_trailer(objs));
    lemma_concat_split(objs, k);
    let before = pdf_header() + concat_all(objs.take(k));
    let after = concat_all(objs.skip(k + 1)) + tail;
    assert(pdf_document(pages) =~= before + objs[k] + after);
    assert(pdf_document(pages).subrange(before.len() as int, (before.len() + objs[k].len()) as int)
        =~= objs[k]);
}

} // verus!
