//! HTML and XML text handling: tag stripping, entity decoding and escaping,
//! and the HTML → Markdown rewriting.
use vstd::prelude::*;
use crate::text::{
    replace_all, replace_str, trim, trim_chars, to_lowercase_chars, unicode_lowercase, eq_str,
    push_str, extend_chars, index_of, lemma_index_of_bounds, find_char,
};

verus! {

// ── Entities ────────────────────────────────────────────────────

/// The five HTML entities decoded in turn, `&amp;` first.
pub open spec fn unescape_html(s: Seq<char>) -> Seq<char> {
    replace_all(
        replace_all(
            replace_all(
                replace_all(replace_all(s, "&amp;"@, "&"@), "&lt;"@, "<"@),
                "&gt;"@,
                ">"@,
            ),
            "&quot;"@,
            "\""@,
        ),
        "&#39;"@,
        "'"@,
    )
}

/// The five XML entities decoded in turn, `&amp;` first.
pub open spec fn decode_xml(s: Seq<char>) -> Seq<char> {
    replace_all(
        replace_all(
            replace_all(
                replace_all(replace_all(s, "&amp;"@, "&"@), "&lt;"@, "<"@),
                "&gt;"@,
                ">"@,
            ),
            "&quot;"@,
            "\""@,
        ),
        "&apos;"@,
        "'"@,
    )
}

/// `&`, `<` and `>` escaped for HTML text, `&` first.
pub open spec fn escape_html(s: Seq<char>) -> Seq<char> {
    replace_all(replace_all(replace_all(s, "&"@, "&amp;"@), "<"@, "&lt;"@), ">"@, "&gt;"@)
}

pub fn decode_xml_entities(s: &[char]) -> (r: Vec<char>)
    ensures
        r@ == decode_xml(s@),
{
    proof {
        reveal_strlit("&amp;");
        reveal_strlit("&lt;");
        reveal_strlit("&gt;");
        reveal_strlit("&quot;");
        reveal_strlit("&apos;");
    }
    let a = replace_str(s, "&amp;", "&");
    let b = replace_str(&a, "&lt;", "<");
    let c = replace_str(&b, "&gt;", ">");
    let d = replace_str(&c, "&quot;", "\"");
    replace_str(&d, "&apos;", "'")
}

pub fn html_escape(s: &[char]) -> (r: Vec<char>)
    ensures
        r@ == escape_html(s@),
{
    proof {
        reveal_strlit("&");
        reveal_strlit("<");
        reveal_strlit(">");
    }
    let a = replace_str(s, "&", "&amp;");
    let b = replace_str(&a, "<", "&lt;");
    replace_str(&b, ">", "&gt;")
}

fn unescape_html_chars(s: &[char]) -> (r: Vec<char>)
    ensures
        r@ == unescape_html(s@),
{
    proof {
        reveal_strlit("&amp;");
        reveal_strlit("&lt;");
        reveal_strlit("&gt;");
        reveal_strlit("&quot;");
        reveal_strlit("&#39;");
    }
    let a = replace_str(s, "&amp;", "&");
    let b = replace_str(&a, "&lt;", "<");
    let c = replace_str(&b, "&gt;", ">");
    let d = replace_str(&c, "&quot;", "\"");
    replace_str(&d, "&#39;", "'")
}

// ── Tag stripping ───────────────────────────────────────────────

/// The characters outside `<…>`: `<` opens a tag, `>` closes one.
pub open spec fn outside_tags(s: Seq<char>, in_tag: bool) -> Seq<char>
    decreases s.len(),
{
    if s.len() == 0 {
        Seq::empty()
    } else {
        let c = s[0];
        let rest = s.drop_first();
        if c == '<' {
            outside_tags(rest, true)
        } else if c == '>' {
            outside_tags(rest, false)
        } else if !in_tag {
            seq![c] + outside_tags(rest, false)
        } else {
            outside_tags(rest, true)
        }
    }
}

/// The text of an HTML fragment: tags removed, entities decoded, trimmed.
pub open spec fn stripped_text(html: Seq<char>) -> Seq<char> {
    trim(unescape_html(outside_tags(html, false)))
}

pub fn strip_html_tags(html: &[char]) -> (r: Vec<char>)
    ensures
        r@ == stripped_text(html@),
{
    let mut out: Vec<char> = Vec::new();
    let mut in_tag = false;
    let mut i: usize = 0;
    assert(html@.skip(0) =~= html@);
    while i < html.len()
        invariant
            i <= html@.len(),
            out@ + outside_tags(html@.skip(i as int), in_tag) == outside_tags(html@, false),
        decreases html.len() - i,
    {
        let c = html[i];
        let ghost before = out@;
        let ghost was = in_tag;
        assert(html@.skip(i as int).drop_first() =~= html@.skip(i + 1));
        if c == '<' {
            in_tag = true;
        } else if c == '>' {
            in_tag = false;
        } else if !in_tag {
            out.push(c);
        }
        i = i + 1;
        assert(out@ + outside_tags(html@.skip(i as int), in_tag) =~= before + outside_tags(
            html@.skip(i - 1),
            was,
        ));
    }
    assert(html@.skip(i as int) =~= Seq::<char>::empty());
    assert(out@ + outside_tags(html@.skip(i as int), in_tag) =~= out@);
    let u = unescape_html_chars(&out);
    trim_chars(&u)
}

// ── HTML → Markdown ─────────────────────────────────────────────

/// The Markdown that replaces a (trimmed, lowercased) tag name.
pub open spec fn tag_markdown(t: Seq<char>) -> Seq<char> {
    if t == "h1"@ {
        "# "@
    } else if t == "h2"@ {
        "## "@
    } else if t == "h3"@ {
        "### "@
    } else if t == "/h1"@ || t == "/h2"@ || t == "/h3"@ || t == "/h4"@ || t == "/h5"@ || t
        == "/h6"@ {
        "\n\n"@
    } else if t == "/p"@ {
        "\n\n"@
    } else if t == "br"@ || t == "br/"@ || t == "br /"@ {
        "\n"@
    } else if t == "strong"@ || t == "b"@ || t == "/strong"@ || t == "/b"@ {
        "**"@
    } else if t == "em"@ || t == "i"@ || t == "/em"@ || t == "/i"@ {
        "*"@
    } else if t == "code"@ || t == "/code"@ {
        "`"@
    } else if t == "li"@ {
        "- "@
    } else if t == "/li"@ {
        "\n"@
    } else if t == "hr"@ || t == "hr/"@ {
        "\n---\n"@
    } else {
        Seq::empty()
    }
}

fn tag_markdown_exec(t: &[char]) -> (r: Vec<char>)
    ensures
        r@ == tag_markdown(t@),
{
    let mut out: Vec<char> = Vec::new();
    if eq_str(t, "h1") {
        push_str(&mut out, "# ");
    } else if eq_str(t, "h2") {
        push_str(&mut out, "## ");
    } else if eq_str(t, "h3") {
        push_str(&mut out, "### ");
    } else if eq_str(t, "/h1") || eq_str(t, "/h2") || eq_str(t, "/h3") || eq_str(t, "/h4")
        || eq_str(t, "/h5") || eq_str(t, "/h6") {
        push_str(&mut out, "\n\n");
    } else if eq_str(t, "/p") {
        push_str(&mut out, "\n\n");
    } else if eq_str(t, "br") || eq_str(t, "br/") || eq_str(t, "br /") {
        push_str(&mut out, "\n");
    } else if eq_str(t, "strong") || eq_str(t, "b") || eq_str(t, "/strong") || eq_str(t, "/b") {
        push_str(&mut out, "**");
    } else if eq_str(t, "em") || eq_str(t, "i") || eq_str(t, "/em") || eq_str(t, "/i") {
        push_str(&mut out, "*");
    } else if eq_str(t, "code") || eq_str(t, "/code") {
        push_str(&mut out, "`");
    } else if eq_str(t, "li") {
        push_str(&mut out, "- ");
    } else if eq_str(t, "/li") {
        push_str(&mut out, "\n");
    } else if eq_str(t, "hr") || eq_str(t, "hr/") {
        push_str(&mut out, "\n---\n");
    }
    out
}

/// What an entity (from `&` up to and including `;`, or to the end of the
/// input) becomes in Markdown: the five known entities are decoded, others
/// are kept as written.
pub open spec fn entity_markdown(e: Seq<char>) -> Seq<char> {
    if e == "&amp;"@ {
        "&"@
    } else if e == "&lt;"@ {
        "<"@
    } else if e == "&gt;"@ {
        ">"@
    } else if e == "&quot;"@ {
        "\""@
    } else if e == "&#39;"@ {
        "'"@
    } else {
        e
    }
}

fn entity_markdown_exec(e: &[char]) -> (r: Vec<char>)
    ensures
        r@ == entity_markdown(e@),
{
    let mut out: Vec<char> = Vec::new();
    if eq_str(e, "&amp;") {
        push_str(&mut out, "&");
    } else if eq_str(e, "&lt;") {
        push_str(&mut out, "<");
    } else if eq_str(e, "&gt;") {
        push_str(&mut out, ">");
    } else if eq_str(e, "&quot;") {
        push_str(&mut out, "\"");
    } else if eq_str(e, "&#39;") {
        push_str(&mut out, "'");
    } else {
        extend_chars(&mut out, e);
    }
    out
}

/// How many characters after an `&` belong to the entity: up to and
/// including the first `;`, or all that remain.
pub open spec fn entity_len(rest: Seq<char>) -> int {
    if index_of(rest, ';') < rest.len() {
        index_of(rest, ';') + 1
    } else {
        rest.len() as int
    }
}

/// The Markdown written for the rest of the input, given whether a tag is
/// open and the tag text read so far.
pub open spec fn markdown_scan(s: Seq<char>, in_tag: bool, tag: Seq<char>) -> Seq<char>
    decreases s.len(),
{
    if s.len() == 0 {
        Seq::empty()
    } else {
        let c = s[0];
        let rest = s.drop_first();
        if c == '<' {
            markdown_scan(rest, true, Seq::empty())
        } else if c == '>' && in_tag {
            tag_markdown(unicode_lowercase(trim(tag))) + markdown_scan(rest, false, tag)
        } else if in_tag {
            markdown_scan(rest, true, tag.push(c))
        } else if c == '&' {
            let n = entity_len(rest);
            if 0 <= n <= rest.len() {
                entity_markdown(seq!['&'] + rest.take(n)) + markdown_scan(rest.skip(n), false, tag)
            } else {
                Seq::empty()
            }
        } else {
            seq![c] + markdown_scan(rest, false, tag)
        }
    }
}

/// The Markdown for an HTML fragment.
pub open spec fn html_markdown(html: Seq<char>) -> Seq<char> {
    trim(markdown_scan(html, false, Seq::empty()))
}

pub fn html_to_md(html: &[char]) -> (r: Vec<char>)
    ensures
        r@ == html_markdown(html@),
{
    let mut out: Vec<char> = Vec::new();
    let mut in_tag = false;
    let mut tag: Vec<char> = Vec::new();
    let mut i: usize = 0;
    assert(html@.skip(0) =~= html@);
    while i < html.len()
        invariant
            i <= html@.len(),
            out@ + markdown_scan(html@.skip(i as int), in_tag, tag@) == markdown_scan(
                html@,
                false,
                Seq::empty(),
            ),
        decreases html.len() - i,
    {
        let c = html[i];
        let ghost before = out@;
        let ghost was = in_tag;
        let ghost old_tag = tag@;
        let ghost s = html@.skip(i as int);
        assert(s.drop_first() =~= html@.skip(i + 1));
        if c == '<' {
            in_tag = true;
            tag = Vec::new();
            i = i + 1;
        } else if c == '>' && in_tag {
            in_tag = false;
            let t = trim_chars(&tag);
            let lower = to_lowercase_chars(&t);
            let md = tag_markdown_exec(&lower);
            extend_chars(&mut out, &md);
            i = i + 1;
        } else if in_tag {
            tag.push(c);
            i = i + 1;
        } else if c == '&' {
            let j = find_char(html, i + 1, ';');
            let end = if j < html.len() { j + 1 } else { j };
            proof {
                lemma_index_of_bounds(html@.skip(i + 1), ';');
                assert(s.drop_first() =~= html@.skip(i + 1));
            }
            let mut entity: Vec<char> = Vec::new();
            let mut k = i;
            while k < end
                invariant
                    i <= k <= end <= html@.len(),
                    entity@ == html@.subrange(i as int, k as int),
                decreases end - k,
            {
                entity.push(html[k]);
                k = k + 1;
                assert(entity@ =~= html@.subrange(i as int, k as int));
            }
            proof {
                let rest = s.drop_first();
                let n = entity_len(rest);
                assert(n == end - i - 1);
                assert(entity@ =~= seq!['&'] + rest.take(n));
                assert(rest.skip(n) =~= html@.skip(end as int));
            }
            let md = entity_markdown_exec(&entity);
            extend_chars(&mut out, &md);
            i = end;
        } else {
            out.push(c);
            i = i + 1;
        }
        assert(out@ + markdown_scan(html@.skip(i as int), in_tag, tag@) =~= before
            + markdown_scan(s, was, old_tag));
    }
    assert(html@.skip(i as int) =~= Seq::<char>::empty());
    assert(out@ + markdown_scan(html@.skip(i as int), in_tag, tag@) =~= out@);
    trim_chars(&out)
}

/// A heading tag `<hN>` for levels 1 to 3 becomes a Markdown heading marker
/// of exactly N `#` characters followed by a space, so each level's marker
/// is one `#` longer than the level above; `<h4>` to `<h6>` give no marker;
/// and every closing `</hN>` (1 to 6) ends the heading with a blank line.
pub proof fn law_heading_markers(n: nat)
    requires
        1 <= n <= 6,
    ensures
        n <= 3 ==> tag_markdown(seq!['h', crate::pdf_text::digit_char(n)]) == Seq::new(
            n,
            |i: int| '#',
        ).push(' '),
        n <= 3 ==> tag_markdown(seq!['h', crate::pdf_text::digit_char(n)]).len() == n + 1,
        n > 3 ==> tag_markdown(seq!['h', crate::pdf_text::digit_char(n)]).len() == 0,
        tag_markdown(seq!['/', 'h', crate::pdf_text::digit_char(n)]) == "\n\n"@,
{
    reveal_strlit("h1");
    reveal_strlit("h2");
    reveal_strlit("h3");
    reveal_strlit("/h1");
    reveal_strlit("/h2");
    reveal_strlit("/h3");
    reveal_strlit("/h4");
    reveal_strlit("/h5");
    reveal_strlit("/h6");
    reveal_strlit("# ");
    reveal_strlit("## ");
    reveal_strlit("### ");
    let t = seq!['h', crate::pdf_text::digit_char(n)];
    let c = seq!['/', 'h', crate::pdf_text::digit_char(n)];
    if n == 1 {
        assert(t =~= "h1"@);
        assert(c =~= "/h1"@);
        assert(Seq::new(n, |i: int| '#').push(' ') =~= "# "@);
    } else if n == 2 {
        assert(t =~= "h2"@);
        assert(c =~= "/h2"@);
        assert(Seq::new(n, |i: int| '#').push(' ') =~= "## "@);
    } else if n == 3 {
        assert(t =~= "h3"@);
        assert(c =~= "/h3"@);
        assert(Seq::new(n, |i: int| '#').push(' ') =~= "### "@);
    } else {
        if n == 4 {
            assert(c =~= "/h4"@);
        } else if n == 5 {
            assert(c =~= "/h5"@);
        } else {
            assert(c =~= "/h6"@);
        }
        assert(t.len() == 2 && t[1] != '1' && t[1] != '2' && t[1] != '3');
        assert(t != "h1"@ && t != "h2"@ && t != "h3"@) by {
            assert("h1"@[1] == '1' && "h2"@[1] == '2' && "h3"@[1] == '3');
        }
        assert(t.len() == 2 && t[0] == 'h');
        reveal_strlit("/p");
        reveal_strlit("br");
        reveal_strlit("br/");
        reveal_strlit("br /");
        reveal_strlit("strong");
        reveal_strlit("b");
        reveal_strlit("/strong");
        reveal_strlit("/b");
        reveal_strlit("em");
        reveal_strlit("i");
        reveal_strlit("/em");
        reveal_strlit("/i");
        reveal_strlit("code");
        reveal_strlit("/code");
        reveal_strlit("li");
        reveal_strlit("/li");
        reveal_strlit("hr");
        reveal_strlit("hr/");
        assert(t[0] != "/h1"@[0] && t[0] != "/p"@[0] && t[0] != "br"@[0] && t[0] != "br/"@[0]
            && t.len() != "br /"@.len() && t.len() != "strong"@.len() && t[0] != "b"@[0]
            && t[0] != "/strong"@[0] && t[0] != "/b"@[0] && t[0] != "em"@[0] && t[0] != "i"@[0]
            && t[0] != "/em"@[0] && t[0] != "/i"@[0] && t[0] != "code"@[0] && t[0] != "/code"@[0]
            && t[0] != "li"@[0] && t[0] != "/li"@[0] && t[1] != "hr"@[1] && t.len() != "hr/"@.len());
        assert(t != "/h1"@ && t != "/h2"@ && t != "/h3"@ && t != "/h4"@ && t != "/h5"@ && t
            != "/h6"@) by {
            assert("/h2"@[0] == '/' && "/h3"@[0] == '/' && "/h4"@[0] == '/' && "/h5"@[0] == '/'
                && "/h6"@[0] == '/');
        }
    }
}

} // verus!
