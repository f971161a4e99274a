//! What the interface shows and saves: MIME types, output file names and the
//! status of each file in a batch.
use vstd::prelude::*;
use crate::text::{str_chars, eq_str, push_str, extend_chars, string_from_chars};

verus! {

/// The MIME type used when saving a file with the given extension.
pub open spec fn mime_type(ext: Seq<char>) -> &'static str {
    if ext == "png"@ {
        "image/png"
    } else if ext == "jpg"@ || ext == "jpeg"@ {
        "image/jpeg"
    } else if ext == "gif"@ {
        "image/gif"
    } else if ext == "webp"@ {
        "image/webp"
    } else if ext == "bmp"@ {
        "image/bmp"
    } else if ext == "tiff"@ || ext == "tif"@ {
        "image/tiff"
    } else if ext == "avif"@ {
        "image/avif"
    } else if ext == "ico"@ {
        "image/x-icon"
    } else if ext == "qoi"@ {
        "image/qoi"
    } else if ext == "tga"@ {
        "image/x-tga"
    } else if ext == "hdr"@ {
        "image/vnd.radiance"
    } else if ext == "dds"@ {
        "image/vnd.ms-dds"
    } else if ext == "exr"@ {
        "image/x-exr"
    } else if ext == "html"@ {
        "text/html"
    } else if ext == "md"@ || ext == "markdown"@ {
        "text/markdown"
    } else if ext == "txt"@ || ext == "text"@ {
        "text/plain"
    } else if ext == "rtf"@ {
        "application/rtf"
    } else if ext == "pdf"@ {
        "application/pdf"
    } else if ext == "docx"@ {
        "application/vnd.openxmlformats-officedocument.wordprocessingml.document"
    } else if ext == "csv"@ {
        "text/csv"
    } else if ext == "tsv"@ {
        "text/tab-separated-values"
    } else if ext == "json"@ {
        "application/json"
    } else if ext == "yaml"@ || ext == "yml"@ {
        "application/x-yaml"
    } else if ext == "toml"@ {
        "application/toml"
    } else {
        "application/octet-stream"
    }
}

pub fn mime_type_for(ext: &str) -> (r: &'static str)
    ensures
        r == mime_type(ext@),
{
    let e = str_chars(ext);
    if eq_str(&e, "png") {
        "image/png"
    } else if eq_str(&e, "jpg") || eq_str(&e, "jpeg") {
        "image/jpeg"
    } else if eq_str(&e, "gif") {
        "image/gif"
    } else if eq_str(&e, "webp") {
        "image/webp"
    } else if eq_str(&e, "bmp") {
        "image/bmp"
    } else if eq_str(&e, "tiff") || eq_str(&e, "tif") {
        "image/tiff"
    } else if eq_str(&e, "avif") {
        "image/avif"
    } else if eq_str(&e, "ico") {
        "image/x-icon"
    } else if eq_str(&e, "qoi") {
        "image/qoi"
    } else if eq_str(&e, "tga") {
        "image/x-tga"
    } else if eq_str(&e, "hdr") {
        "image/vnd.radiance"
    } else if eq_str(&e, "dds") {
        "image/vnd.ms-dds"
    } else if eq_str(&e, "exr") {
        "image/x-exr"
    } else if eq_str(&e, "html") {
        "text/html"
    } else if eq_str(&e, "md") || eq_str(&e, "markdown") {
        "text/markdown"
    } else if eq_str(&e, "txt") || eq_str(&e, "text") {
        "text/plain"
    } else if eq_str(&e, "rtf") {
        "application/rtf"
    } else if eq_str(&e, "pdf") {
        "application/pdf"
    } else if eq_str(&e, "docx") {
        "application/vnd.openxmlformats-officedocument.wordprocessingml.document"
    } else if eq_str(&e, "csv") {
        "text/csv"
    } else if eq_str(&e, "tsv") {
        "text/tab-separated-values"
    } else if eq_str(&e, "json") {
        "application/json"
    } else if eq_str(&e, "yaml") || eq_str(&e, "yml") {
        "application/x-yaml"
    } else if eq_str(&e, "toml") {
        "application/toml"
    } else {
        "application/octet-stream"
    }
}

/// The position of the last `.` in `s`, if there is one (`str::rsplit_once`).
pub open spec fn last_dot(s: Seq<char>) -> Option<int>
    decreases s.len(),
{
    if s.len() == 0 {
        None
    } else if s.last() == '.' {
        Some(s.len() - 1)
    } else {
        last_dot(s.drop_last())
    }
}

proof fn lemma_last_dot(s: Seq<char>, j: int)
    requires
        0 <= j <= s.len(),
        forall|k: int| j <= k < s.len() ==> s[k] != '.',
    ensures
        last_dot(s) == last_dot(s.take(j)),
    decreases s.len() - j,
{
    if j < s.len() {
        assert(s.drop_last().take(j) =~= s.take(j));
        lemma_last_dot(s.drop_last(), j);
    } else {
        assert(s.take(j) =~= s);
    }
}

proof fn lemma_last_dot_bounds(s: Seq<char>)
    ensures
        last_dot(s) matches Some(k) ==> 0 <= k < s.len() && s[k] == '.',
    decreases s.len(),
{
    if s.len() > 0 && s.last() != '.' {
        lemma_last_dot_bounds(s.drop_last());
    }
}

/// The output file name: the name without its last extension, then `.` and
/// the target extension; a name without a `.` keeps all of it.
pub open spec fn output_name(original: Seq<char>, target: Seq<char>) -> Seq<char> {
    match last_dot(original) {
        Some(k) => original.take(k) + "."@ + target,
        None => original + "."@ + target,
    }
}

pub fn make_output_name(original_name: &str, target_ext: &str) -> (r: String)
    ensures
        r@ == output_name(original_name@, target_ext@),
{
    let name = str_chars(original_name);
    let mut j = name.len();
    while j > 0 && name[j - 1] != '.'
        invariant
            j <= name@.len(),
            forall|k: int| j <= k < name@.len() ==> name@[k] != '.',
        decreases j,
    {
        j = j - 1;
    }
    proof {
        lemma_last_dot(name@, j as int);
        lemma_last_dot_bounds(name@);
    }
    let mut out: Vec<char> = Vec::new();
    if j > 0 {
        assert(last_dot(name@.take(j as int)) == Some(j - 1));
        let mut k: usize = 0;
        while k < j - 1
            invariant
                0 < j <= name@.len(),
                k <= j - 1,
                out@ == name@.take(k as int),
            decreases j - 1 - k,
        {
            out.push(name[k]);
            k = k + 1;
            assert(out@ =~= name@.take(k as int));
        }
    } else {
        assert(name@.take(0) =~= Seq::<char>::empty());
        extend_chars(&mut out, &name);
    }
    push_str(&mut out, ".");
    let t = str_chars(target_ext);
    extend_chars(&mut out, &t);
    string_from_chars(&out)
}

// ── Batch entries ───────────────────────────────────────────────

/// Where one file of a batch stands.
#[derive(Clone, PartialEq, Debug)]
pub enum FileStatus {
    Pending,
    Converting,
    Done { data: Vec<u8>, elapsed_ms: u32 },
    Error(String),
}

impl FileStatus {
    /// A file is finished once its conversion has succeeded or failed.
    pub open spec fn finished(&self) -> bool {
        self is Done || self is Error
    }

    pub fn is_finished(&self) -> (r: bool)
        ensures
            r == self.finished(),
    {
        match self {
            FileStatus::Done { .. } => true,
            FileStatus::Error(_) => true,
            _ => false,
        }
    }
}

/// One file of a batch: its bytes, detected extension, chosen target
/// extension and status.
#[derive(Clone)]
pub struct BatchFile {
    pub id: usize,
    pub name: String,
    pub bytes: Vec<u8>,
    pub extension: String,
    pub size: usize,
    pub target: Option<String>,
    pub status: FileStatus,
}

/// The file name and MIME type under which converted data is saved.
pub struct Download {
    pub filename: String,
    pub mime: &'static str,
}

/// What saving converted data as a file asks of the browser: the output name
/// and the MIME type of the target extension.
pub fn download_blob(original_name: &str, target_ext: &str) -> (r: Download)
    ensures
        r.filename@ == output_name(original_name@, target_ext@),
        r.mime == mime_type(target_ext@),
{
    Download { filename: make_output_name(original_name, target_ext), mime: mime_type_for(target_ext) }
}

/// The icon shown beside a file of an extension.
pub open spec fn icon_for(ext: Seq<char>) -> &'static str {
    if ext == "png"@ || ext == "jpg"@ || ext == "jpeg"@ || ext == "gif"@ || ext == "webp"@ || ext
        == "bmp"@ || ext == "tiff"@ || ext == "svg"@ {
        "🖼️"
    } else if ext == "md"@ || ext == "markdown"@ || ext == "html"@ || ext == "txt"@ {
        "📝"
    } else if ext == "csv"@ || ext == "tsv"@ || ext == "json"@ {
        "📊"
    } else if ext == "yaml"@ || ext == "yml"@ || ext == "toml"@ {
        "⚙️"
    } else if ext == "base64"@ {
        "🔐"
    } else {
        "📄"
    }
}

/// The icon shown beside a file of an extension.
pub fn format_icon(ext: &str) -> (r: &'static str)
    ensures
        r == icon_for(ext@),
{
    let e = str_chars(ext);
    if eq_str(&e, "png") || eq_str(&e, "jpg") || eq_str(&e, "jpeg") || eq_str(&e, "gif") || eq_str(
        &e,
        "webp",
    ) || eq_str(&e, "bmp") || eq_str(&e, "tiff") || eq_str(&e, "svg") {
        "🖼️"
    } else if eq_str(&e, "md") || eq_str(&e, "markdown") || eq_str(&e, "html") || eq_str(&e, "txt") {
        "📝"
    } else if eq_str(&e, "csv") || eq_str(&e, "tsv") || eq_str(&e, "json") {
        "📊"
    } else if eq_str(&e, "yaml") || eq_str(&e, "yml") || eq_str(&e, "toml") {
        "⚙️"
    } else if eq_str(&e, "base64") {
        "🔐"
    } else {
        "📄"
    }
}

} // verus!
