//! Which formats the converter reads and writes, and which conversions it
//! offers for each input extension.
use vstd::prelude::*;
use vstd::utf8::*;
use crate::text::{str_chars, eq_str, to_lowercase_chars, unicode_lowercase, ascii_lower, string_from_chars};

verus! {

/// All input file formats the converter can handle.
/// This is the single source of truth for the file picker's `accept` attribute.
pub const ALL_INPUT_FORMATS: [&'static str; 33] = [
    "png", "jpg", "jpeg", "webp", "gif", "bmp", "tiff", "tif", "ico", "qoi", "tga", "hdr", "dds",
    "exr", "svg", "mp3", "flac", "ogg", "wav", "md", "markdown", "html", "txt", "docx", "rtf", "pdf",
    "csv", "tsv", "json", "yaml", "yml", "toml", "base64",
];


/// Formats that can be read as image input (no AVIF: decoding it needs a C
/// library).
pub open spec fn image_input_format(f: Seq<char>) -> bool {
    f == "png"@ || f == "jpg"@ || f == "jpeg"@ || f == "webp"@ || f == "gif"@ || f == "bmp"@
        || f == "tiff"@ || f == "tif"@ || f == "ico"@ || f == "qoi"@ || f == "tga"@ || f == "hdr"@
        || f == "dds"@ || f == "exr"@
}

/// Formats that can be written as image output (AVIF included).
pub open spec fn image_output_format(f: Seq<char>) -> bool {
    image_input_format(f) || f == "avif"@
}

pub open spec fn audio_format(f: Seq<char>) -> bool {
    f == "mp3"@ || f == "flac"@ || f == "ogg"@ || f == "wav"@
}

/// The extensions that `detect_format` recognises.
pub open spec fn known_format(f: Seq<char>) -> bool {
    image_output_format(f) || f == "svg"@ || f == "md"@ || f == "markdown"@ || f == "html"@ || f
        == "txt"@ || f == "text"@ || f == "docx"@ || f == "rtf"@ || f == "csv"@ || f == "tsv"@ || f
        == "json"@ || f == "yaml"@ || f == "yml"@ || f == "toml"@ || f == "base64"@ || audio_format(
        f,
    ) || f == "pdf"@
}

pub fn is_image_input_format(fmt: &str) -> (r: bool)
    ensures
        r == image_input_format(fmt@),
{
    let f = str_chars(fmt);
    eq_str(&f, "png") || eq_str(&f, "jpg") || eq_str(&f, "jpeg") || eq_str(&f, "webp") || eq_str(
        &f,
        "gif",
    ) || eq_str(&f, "bmp") || eq_str(&f, "tiff") || eq_str(&f, "tif") || eq_str(&f, "ico")
        || eq_str(&f, "qoi") || eq_str(&f, "tga") || eq_str(&f, "hdr") || eq_str(&f, "dds")
        || eq_str(&f, "exr")
}

pub fn is_image_output_format(fmt: &str) -> (r: bool)
    ensures
        r == image_output_format(fmt@),
{
    let f = str_chars(fmt);
    is_image_input_format(fmt) || eq_str(&f, "avif")
}

pub fn is_audio_format(fmt: &str) -> (r: bool)
    ensures
        r == audio_format(fmt@),
{
    let f = str_chars(fmt);
    eq_str(&f, "mp3") || eq_str(&f, "flac") || eq_str(&f, "ogg") || eq_str(&f, "wav")
}

pub fn is_known_format(fmt: &str) -> (r: bool)
    ensures
        r == known_format(fmt@),
{
    let f = str_chars(fmt);
    is_image_output_format(fmt) || eq_str(&f, "svg") || eq_str(&f, "md") || eq_str(&f, "markdown")
        || eq_str(&f, "html") || eq_str(&f, "txt") || eq_str(&f, "text") || eq_str(&f, "docx")
        || eq_str(&f, "rtf") || eq_str(&f, "csv") || eq_str(&f, "tsv") || eq_str(&f, "json")
        || eq_str(&f, "yaml") || eq_str(&f, "yml") || eq_str(&f, "toml") || eq_str(&f, "base64")
        || is_audio_format(fmt) || eq_str(&f, "pdf")
}

/// The output formats offered for an already lowercased input extension.
pub open spec fn output_formats(e: Seq<char>) -> Seq<&'static str> {
    if e == "png"@ {
        seq!["jpg", "webp", "avif", "gif", "bmp", "tiff", "qoi", "tga", "ico"]
    } else if e == "jpg"@ || e == "jpeg"@ {
        seq!["png", "webp", "avif", "gif", "bmp", "tiff", "qoi", "tga", "ico"]
    } else if e == "webp"@ {
        seq!["png", "jpg", "avif", "gif", "bmp", "tiff", "qoi", "tga", "ico"]
    } else if e == "gif"@ {
        seq!["png", "jpg", "webp", "avif", "bmp", "tiff", "qoi", "tga", "ico"]
    } else if e == "bmp"@ {
        seq!["png", "jpg", "webp", "avif", "gif", "tiff", "qoi", "tga", "ico"]
    } else if e == "tiff"@ || e == "tif"@ {
        seq!["png", "jpg", "webp", "avif", "gif", "bmp", "qoi", "tga", "ico"]
    } else if e == "ico"@ {
        seq!["png", "jpg", "webp", "avif", "gif", "bmp", "tiff", "qoi", "tga"]
    } else if e == "qoi"@ {
        seq!["png", "jpg", "webp", "avif", "gif", "bmp", "tiff", "tga", "ico"]
    } else if e == "tga"@ {
        seq!["png", "jpg", "webp", "avif", "gif", "bmp", "tiff", "qoi", "ico"]
    } else if e == "hdr"@ || e == "dds"@ || e == "exr"@ {
        seq!["png", "jpg", "webp", "avif", "bmp", "tiff", "tga"]
    } else if e == "svg"@ {
        seq!["png"]
    } else if audio_format(e) {
        seq!["wav"]
    } else if e == "md"@ || e == "markdown"@ {
        seq!["html", "txt", "pdf"]
    } else if e == "html"@ {
        seq!["md", "pdf"]
    } else if e == "docx"@ {
        seq!["txt", "html"]
    } else if e == "rtf"@ {
        seq!["txt"]
    } else if e == "pdf"@ {
        seq!["txt", "html"]
    } else if e == "txt"@ || e == "text"@ {
        seq!["pdf"]
    } else if e == "csv"@ {
        seq!["json", "tsv"]
    } else if e == "tsv"@ {
        seq!["csv"]
    } else if e == "json"@ {
        seq!["csv", "yaml", "toml"]
    } else if e == "yaml"@ || e == "yml"@ {
        seq!["json"]
    } else if e == "toml"@ {
        seq!["json"]
    } else if e == "base64"@ {
        seq!["bin"]
    } else {
        seq!["base64"]
    }
}

fn output_formats_lower(e: &[char]) -> (r: Vec<&'static str>)
    ensures
        r@ == output_formats(e@),
{
    if eq_str(e, "png") {
        vec!["jpg", "webp", "avif", "gif", "bmp", "tiff", "qoi", "tga", "ico"]
    } else if eq_str(e, "jpg") || eq_str(e, "jpeg") {
        vec!["png", "webp", "avif", "gif", "bmp", "tiff", "qoi", "tga", "ico"]
    } else if eq_str(e, "webp") {
        vec!["png", "jpg", "avif", "gif", "bmp", "tiff", "qoi", "tga", "ico"]
    } else if eq_str(e, "gif") {
        vec!["png", "jpg", "webp", "avif", "bmp", "tiff", "qoi", "tga", "ico"]
    } else if eq_str(e, "bmp") {
        vec!["png", "jpg", "webp", "avif", "gif", "tiff", "qoi", "tga", "ico"]
    } else if eq_str(e, "tiff") || eq_str(e, "tif") {
        vec!["png", "jpg", "webp", "avif", "gif", "bmp", "qoi", "tga", "ico"]
    } else if eq_str(e, "ico") {
        vec!["png", "jpg", "webp", "avif", "gif", "bmp", "tiff", "qoi", "tga"]
    } else if eq_str(e, "qoi") {
        vec!["png", "jpg", "webp", "avif", "gif", "bmp", "tiff", "tga", "ico"]
    } else if eq_str(e, "tga") {
        vec!["png", "jpg", "webp", "avif", "gif", "bmp", "tiff", "qoi", "ico"]
    } else if eq_str(e, "hdr") || eq_str(e, "dds") || eq_str(e, "exr") {
        vec!["png", "jpg", "webp", "avif", "bmp", "tiff", "tga"]
    } else if eq_str(e, "svg") {
        vec!["png"]
    } else if eq_str(e, "mp3") || eq_str(e, "flac") || eq_str(e, "ogg") || eq_str(e, "wav") {
        vec!["wav"]
    } else if eq_str(e, "md") || eq_str(e, "markdown") {
        vec!["html", "txt", "pdf"]
    } else if eq_str(e, "html") {
        vec!["md", "pdf"]
    } else if eq_str(e, "docx") {
        vec!["txt", "html"]
    } else if eq_str(e, "rtf") {
        vec!["txt"]
    } else if eq_str(e, "pdf") {
        vec!["txt", "html"]
    } else if eq_str(e, "txt") || eq_str(e, "text") {
        vec!["pdf"]
    } else if eq_str(e, "csv") {
        vec!["json", "tsv"]
    } else if eq_str(e, "tsv") {
        vec!["csv"]
    } else if eq_str(e, "json") {
        vec!["csv", "yaml", "toml"]
    } else if eq_str(e, "yaml") || eq_str(e, "yml") {
        vec!["json"]
    } else if eq_str(e, "toml") {
        vec!["json"]
    } else if eq_str(e, "base64") {
        vec!["bin"]
    } else {
        vec!["base64"]
    }
}

/// Returns the list of output formats available for a given input extension.
/// The extension is compared after `str::to_lowercase`.
pub fn get_output_formats(input_ext: &str) -> (r: Vec<&'static str>)
    ensures
        r@ == output_formats(unicode_lowercase(input_ext@)),
        is_ascii_chars(input_ext@) ==> r@ == output_formats(
            input_ext@.map_values(|c: char| ascii_lower(c)),
        ),
{
    let ext = to_lowercase_chars(&str_chars(input_ext));
    output_formats_lower(&ext)
}


/// The part of a file name after its last `.`, or the whole name when it has
/// none: the first item of `str::rsplit('.')`.
pub open spec fn after_last_dot(s: Seq<char>) -> Seq<char>
    decreases s.len(),
{
    if s.len() == 0 {
        s
    } else if s.last() == '.' {
        Seq::empty()
    } else {
        after_last_dot(s.drop_last()).push(s.last())
    }
}

/// The format that `detect_format` reports for a file name: that of its
/// extension, the part after the last `.`; a name without a `.` has none.
pub open spec fn detected_format(filename: Seq<char>) -> Option<Seq<char>> {
    let lower = unicode_lowercase(after_last_dot(filename));
    if !filename.contains('.') {
        None
    } else if known_format(lower) {
        Some(lower)
    } else {
        None
    }
}

fn extension_chars(name: &[char]) -> (r: Vec<char>)
    ensures
        r@ == after_last_dot(name@),
{
    let mut start = name.len();
    assert(name@.take(start as int) =~= name@);
    assert(name@.skip(start as int) =~= Seq::<char>::empty());
    assert(after_last_dot(name@) =~= after_last_dot(name@) + Seq::<char>::empty());
    while start > 0 && name[start - 1] != '.'
        invariant
            start <= name@.len(),
            after_last_dot(name@) == after_last_dot(name@.take(start as int)) + name@.skip(
                start as int,
            ),
        decreases start,
    {
        let ghost t = name@.take(start as int);
        assert(t.drop_last() =~= name@.take(start - 1));
        assert(after_last_dot(t) == after_last_dot(t.drop_last()).push(t.last()));
        assert(name@.skip(start - 1) =~= seq![t.last()] + name@.skip(start as int));
        assert(after_last_dot(t) + name@.skip(start as int) =~= after_last_dot(
            name@.take(start - 1),
        ) + name@.skip(start - 1));
        start = start - 1;
    }
    proof {
        let t = name@.take(start as int);
        if start == 0 {
            assert(t =~= Seq::<char>::empty());
        } else {
            assert(t.last() == '.');
        }
        assert(after_last_dot(t) =~= Seq::<char>::empty());
    }
    let mut out: Vec<char> = Vec::new();
    let mut i = start;
    while i < name.len()
        invariant
            start <= i <= name@.len(),
            out@ == name@.subrange(start as int, i as int),
        decreases name.len() - i,
    {
        out.push(name[i]);
        i = i + 1;
        assert(out@ =~= name@.subrange(start as int, i as int));
    }
    assert(out@ =~= name@.skip(start as int));
    assert(after_last_dot(name@) =~= Seq::<char>::empty() + name@.skip(start as int));
    out
}

/// Detects the format from a filename extension.
pub fn detect_format(filename: &str) -> (r: Option<String>)
    ensures
        r matches Some(f) ==> detected_format(filename@) == Some(f@),
        r is None ==> detected_format(filename@) is None,
{
    let name = str_chars(filename);
    let dot = crate::text::find_char(&name, 0, '.');
    proof {
        assert(name@.skip(0) =~= name@);
        crate::text::lemma_index_of_bounds(name@, '.');
    }
    if dot == name.len() {
        return None;
    }
    let ext = extension_chars(&name);
    let lower = to_lowercase_chars(&ext);
    let lower_str = string_from_chars(&lower);
    if is_known_format(lower_str.as_str()) {
        Some(lower_str)
    } else {
        None
    }
}

/// The ASCII lowercase of a text, letter by letter: what `str::to_lowercase`
/// gives for ASCII text.
pub open spec fn ascii_lowercase(s: Seq<char>) -> Seq<char> {
    s.map_values(|c: char| ascii_lower(c))
}

/// For an ASCII extension, the formats offered do not depend on letter case:
/// `get_output_formats` offers an extension and its lowercase the same
/// outputs (its contract gives `output_formats` of the ASCII lowercase).
pub proof fn law_output_formats_ignore_case(s: Seq<char>)
    requires
        is_ascii_chars(s),
    ensures
        is_ascii_chars(ascii_lowercase(s)),
        output_formats(ascii_lowercase(ascii_lowercase(s))) == output_formats(ascii_lowercase(s)),
{
    let l = ascii_lowercase(s);
    assert forall|i: int| 0 <= i < l.len() implies '\0' <= #[trigger] l[i] <= '\u{7f}' by {
        assert(s[i] <= '\u{7f}');
    }
    assert(ascii_lowercase(l) =~= l);
}

/// Every extension is offered at least one output format.
pub proof fn law_output_formats_never_empty(e: Seq<char>)
    ensures
        output_formats(e).len() > 0,
{
}

/// Every format the file picker accepts is recognised by `detect_format`,
/// and offered at least one output format.
pub proof fn law_input_formats_known(i: int)
    requires
        0 <= i < ALL_INPUT_FORMATS@.len(),
    ensures
        known_format(ALL_INPUT_FORMATS@[i]@),
        output_formats(ALL_INPUT_FORMATS@[i]@).len() > 0,
{
    assert(ALL_INPUT_FORMATS@ == seq![
        "png", "jpg", "jpeg", "webp", "gif", "bmp", "tiff", "tif", "ico", "qoi", "tga", "hdr", "dds",
        "exr", "svg", "mp3", "flac", "ogg", "wav", "md", "markdown", "html", "txt", "docx", "rtf",
        "pdf", "csv", "tsv", "json", "yaml", "yml", "toml", "base64",
    ]);
}

/// The `accept` attribute of a file picker for the formats: each as `.ext`,
/// separated by commas.
pub open spec fn accept_list(fmts: Seq<&'static str>) -> Seq<char>
    decreases fmts.len(),
{
    if fmts.len() == 0 {
        Seq::empty()
    } else if fmts.len() == 1 {
        "."@ + fmts[0]@
    } else {
        accept_list(fmts.drop_last()) + ",."@ + fmts.last()@
    }
}

/// The `accept` attribute of the file picker: every input format.
pub fn accept_attribute() -> (r: String)
    ensures
        r@ == accept_list(ALL_INPUT_FORMATS@),
{
    let mut out: Vec<char> = Vec::new();
    let mut i: usize = 0;
    while i < ALL_INPUT_FORMATS.len()
        invariant
            i <= ALL_INPUT_FORMATS@.len(),
            out@ == accept_list(ALL_INPUT_FORMATS@.take(i as int)),
        decreases ALL_INPUT_FORMATS@.len() - i,
    {
        if i > 0 {
            crate::text::push_str(&mut out, ",");
        }
        crate::text::push_str(&mut out, ".");
        crate::text::push_str(&mut out, ALL_INPUT_FORMATS[i]);
        proof {
            let t = ALL_INPUT_FORMATS@.take(i as int + 1);
            assert(t.drop_last() =~= ALL_INPUT_FORMATS@.take(i as int));
            reveal_strlit(",");
            reveal_strlit(".");
            reveal_strlit(",.");
            if i == 0 {
                assert(out@ =~= "."@ + t[0]@);
            } else {
                assert(out@ =~= accept_list(t.drop_last()) + ",."@ + t.last()@);
            }
        }
        i = i + 1;
    }
    assert(ALL_INPUT_FORMATS@.take(i as int) =~= ALL_INPUT_FORMATS@);
    string_from_chars(&out)
}

} // verus!
