//! The conversion entry point: which conversion a pair of extensions asks
//! for, and running it.
use vstd::prelude::*;
use vstd::utf8::*;
use crate::config_formats::{
    json_to_toml, json_to_yaml, json_toml_result, json_yaml_result, toml_json_result,
    toml_to_json, toml_values_readable, yaml_json_result, yaml_to_json,
};
use crate::docx::{docx_html, docx_text, docx_to_html, docx_to_text, docx_xml_result};
use crate::document::{
    b64_decode_result, b64_encode, base64_decode, base64_encode, comrak_html, from_text,
    html_to_markdown, html_to_pdf, markdown_to_html, markdown_to_pdf, markdown_to_text,
    pdf_html_result, pdf_text_result, pdf_to_html, pdf_to_text, rtf_text_result, rtf_to_text,
    text_to_pdf,
};
use crate::formats::{
    audio_format, image_input_format, image_output_format, is_audio_format, output_formats,
    is_image_input_format, is_image_output_format,
};
use crate::image_conv::{convert_image, image_result};
use crate::markup::{html_markdown, stripped_text};
use crate::pdf_text::{str_lines, text_pdf};
use crate::spreadsheet::{
    csv_json_result, csv_to_json, csv_to_tsv, csv_tsv_result, json_csv_result, json_to_csv,
    tsv_csv_result, tsv_to_csv,
};
use crate::text::{
    bytes_view, eq_str, push_str, str_chars, string_from_chars, to_lowercase_chars,
    unicode_lowercase,
};

verus! {

/// What a conversion is asked for: the input and output extensions, and the
/// JPEG quality where the output is JPEG.
pub struct ConvertConfig {
    pub from: String,
    pub to: String,
    pub quality: Option<u8>,
}

/// The conversions, by the pair of (lowercased) extensions that selects
/// each.
#[derive(Clone, Copy, PartialEq, Eq, Structural)]
pub enum Conversion {
    Image,
    SvgToPng,
    MarkdownToHtml,
    MarkdownToText,
    MarkdownToPdf,
    HtmlToMarkdown,
    HtmlToPdf,
    DocxToText,
    DocxToHtml,
    RtfToText,
    PdfToText,
    PdfToHtml,
    TextToPdf,
    CsvToJson,
    JsonToCsv,
    CsvToTsv,
    TsvToCsv,
    AudioToWav,
    Base64Decode,
    Base64Encode,
    JsonToYaml,
    YamlToJson,
    TomlToJson,
    JsonToToml,
    Unsupported,
}

/// The conversion for a pair of lowercased extensions; the first rule that
/// applies wins.
pub open spec fn conversion_for(f: Seq<char>, t: Seq<char>) -> Conversion {
    let md = f == "md"@ || f == "markdown"@;
    let to_text = t == "txt"@ || t == "text"@;
    if image_input_format(f) && image_output_format(t) {
        Conversion::Image
    } else if f == "svg"@ && t == "png"@ {
        Conversion::SvgToPng
    } else if md && t == "html"@ {
        Conversion::MarkdownToHtml
    } else if md && to_text {
        Conversion::MarkdownToText
    } else if md && t == "pdf"@ {
        Conversion::MarkdownToPdf
    } else if f == "html"@ && (t == "md"@ || t == "markdown"@) {
        Conversion::HtmlToMarkdown
    } else if f == "html"@ && t == "pdf"@ {
        Conversion::HtmlToPdf
    } else if f == "docx"@ && to_text {
        Conversion::DocxToText
    } else if f == "docx"@ && t == "html"@ {
        Conversion::DocxToHtml
    } else if f == "rtf"@ && to_text {
        Conversion::RtfToText
    } else if f == "pdf"@ && to_text {
        Conversion::PdfToText
    } else if f == "pdf"@ && t == "html"@ {
        Conversion::PdfToHtml
    } else if (f == "txt"@ || f == "text"@) && t == "pdf"@ {
        Conversion::TextToPdf
    } else if f == "csv"@ && t == "json"@ {
        Conversion::CsvToJson
    } else if f == "json"@ && t == "csv"@ {
        Conversion::JsonToCsv
    } else if f == "csv"@ && t == "tsv"@ {
        Conversion::CsvToTsv
    } else if f == "tsv"@ && t == "csv"@ {
        Conversion::TsvToCsv
    } else if audio_format(f) && t == "wav"@ {
        Conversion::AudioToWav
    } else if f == "base64"@ {
        Conversion::Base64Decode
    } else if t == "base64"@ {
        Conversion::Base64Encode
    } else if f == "json"@ && (t == "yaml"@ || t == "yml"@) {
        Conversion::JsonToYaml
    } else if (f == "yaml"@ || f == "yml"@) && t == "json"@ {
        Conversion::YamlToJson
    } else if f == "toml"@ && t == "json"@ {
        Conversion::TomlToJson
    } else if f == "json"@ && t == "toml"@ {
        Conversion::JsonToToml
    } else {
        Conversion::Unsupported
    }
}

/// The conversion for a pair of lowercased extensions.
pub fn plan_conversion(f: &str, t: &str) -> (r: Conversion)
    ensures
        r == conversion_for(f@, t@),
{
    let fc = str_chars(f);
    let tc = str_chars(t);
    let md = eq_str(&fc, "md") || eq_str(&fc, "markdown");
    let to_text = eq_str(&tc, "txt") || eq_str(&tc, "text");
    if is_image_input_format(f) && is_image_output_format(t) {
        Conversion::Image
    } else if eq_str(&fc, "svg") && eq_str(&tc, "png") {
        Conversion::SvgToPng
    } else if md && eq_str(&tc, "html") {
        Conversion::MarkdownToHtml
    } else if md && to_text {
        Conversion::MarkdownToText
    } else if md && eq_str(&tc, "pdf") {
        Conversion::MarkdownToPdf
    } else if eq_str(&fc, "html") && (eq_str(&tc, "md") || eq_str(&tc, "markdown")) {
        Conversion::HtmlToMarkdown
    } else if eq_str(&fc, "html") && eq_str(&tc, "pdf") {
        Conversion::HtmlToPdf
    } else if eq_str(&fc, "docx") && to_text {
        Conversion::DocxToText
    } else if eq_str(&fc, "docx") && eq_str(&tc, "html") {
        Conversion::DocxToHtml
    } else if eq_str(&fc, "rtf") && to_text {
        Conversion::RtfToText
    } else if eq_str(&fc, "pdf") && to_text {
        Conversion::PdfToText
    } else if eq_str(&fc, "pdf") && eq_str(&tc, "html") {
        Conversion::PdfToHtml
    } else if (eq_str(&fc, "txt") || eq_str(&fc, "text")) && eq_str(&tc, "pdf") {
        Conversion::TextToPdf
    } else if eq_str(&fc, "csv") && eq_str(&tc, "json") {
        Conversion::CsvToJson
    } else if eq_str(&fc, "json") && eq_str(&tc, "csv") {
        Conversion::JsonToCsv
    } else if eq_str(&fc, "csv") && eq_str(&tc, "tsv") {
        Conversion::CsvToTsv
    } else if eq_str(&fc, "tsv") && eq_str(&tc, "csv") {
        Conversion::TsvToCsv
    } else if is_audio_format(f) && eq_str(&tc, "wav") {
        Conversion::AudioToWav
    } else if eq_str(&fc, "base64") {
        Conversion::Base64Decode
    } else if eq_str(&tc, "base64") {
        Conversion::Base64Encode
    } else if eq_str(&fc, "json") && (eq_str(&tc, "yaml") || eq_str(&tc, "yml")) {
        Conversion::JsonToYaml
    } else if (eq_str(&fc, "yaml") || eq_str(&fc, "yml")) && eq_str(&tc, "json") {
        Conversion::YamlToJson
    } else if eq_str(&fc, "toml") && eq_str(&tc, "json") {
        Conversion::TomlToJson
    } else if eq_str(&fc, "json") && eq_str(&tc, "toml") {
        Conversion::JsonToToml
    } else {
        Conversion::Unsupported
    }
}

/// What `convert` hands back: the finished result, or the request to
/// rasterise the SVG input or to decode the audio input (named by its
/// lowercased extension) to WAV. Both of those compute in floating point,
/// which this library leaves to its caller.
pub enum Converted {
    Done(Result<Vec<u8>, String>),
    RenderSvg,
    DecodeAudio(String),
}

/// `convert`'s answer seen as plain values.
pub enum ConvertedView {
    Done(Result<Seq<u8>, Seq<char>>),
    RenderSvg,
    DecodeAudio(Seq<char>),
}

impl Converted {
    pub open spec fn view(&self) -> ConvertedView {
        match self {
            Converted::Done(r) => ConvertedView::Done(bytes_view(*r)),
            Converted::RenderSvg => ConvertedView::RenderSvg,
            Converted::DecodeAudio(e) => ConvertedView::DecodeAudio(e@),
        }
    }
}

/// The answer for an input, the lowercased extensions `f` and `t`, the
/// extensions as given (`from`, `to`) and the JPEG quality.
pub open spec fn convert_result(
    input: Seq<u8>,
    f: Seq<char>,
    t: Seq<char>,
    from: Seq<char>,
    to: Seq<char>,
    quality: Option<u8>,
) -> ConvertedView {
    match conversion_for(f, t) {
        Conversion::Image => ConvertedView::Done(image_result(input, f, t, quality)),
        Conversion::SvgToPng => ConvertedView::RenderSvg,
        Conversion::MarkdownToHtml => ConvertedView::Done(
            from_text(input, |s: Seq<char>| encode_utf8(comrak_html(s))),
        ),
        Conversion::MarkdownToText => ConvertedView::Done(
            from_text(input, |s: Seq<char>| encode_utf8(stripped_text(comrak_html(s)))),
        ),
        Conversion::MarkdownToPdf => ConvertedView::Done(
            from_text(input, |s: Seq<char>| text_pdf(stripped_text(comrak_html(s)))),
        ),
        Conversion::HtmlToMarkdown => ConvertedView::Done(
            from_text(input, |s: Seq<char>| encode_utf8(html_markdown(s))),
        ),
        Conversion::HtmlToPdf => ConvertedView::Done(
            from_text(input, |s: Seq<char>| text_pdf(stripped_text(s))),
        ),
        Conversion::DocxToText => ConvertedView::Done(
            match docx_xml_result(input) {
                Ok(x) => Ok(encode_utf8(docx_text(x))),
                Err(m) => Err(m),
            },
        ),
        Conversion::DocxToHtml => ConvertedView::Done(
            match docx_xml_result(input) {
                Ok(x) => Ok(encode_utf8(docx_html(x))),
                Err(m) => Err(m),
            },
        ),
        Conversion::RtfToText => ConvertedView::Done(rtf_text_result(input)),
        Conversion::PdfToText => ConvertedView::Done(pdf_text_result(input)),
        Conversion::PdfToHtml => ConvertedView::Done(pdf_html_result(input)),
        Conversion::TextToPdf => ConvertedView::Done(from_text(input, |s: Seq<char>| text_pdf(s))),
        Conversion::CsvToJson => ConvertedView::Done(csv_json_result(input)),
        Conversion::JsonToCsv => ConvertedView::Done(json_csv_result(input)),
        Conversion::CsvToTsv => ConvertedView::Done(csv_tsv_result(input)),
        Conversion::TsvToCsv => ConvertedView::Done(tsv_csv_result(input)),
        Conversion::AudioToWav => ConvertedView::DecodeAudio(f),
        Conversion::Base64Decode => ConvertedView::Done(b64_decode_result(input)),
        Conversion::Base64Encode => ConvertedView::Done(Ok(encode_utf8(b64_encode(input)))),
        Conversion::JsonToYaml => ConvertedView::Done(json_yaml_result(input)),
        Conversion::YamlToJson => ConvertedView::Done(yaml_json_result(input)),
        Conversion::TomlToJson => ConvertedView::Done(toml_json_result(input)),
        Conversion::JsonToToml => ConvertedView::Done(json_toml_result(input)),
        Conversion::Unsupported => ConvertedView::Done(
            Err("Unsupported conversion: "@ + from + " → "@ + to),
        ),
    }
}

/// Input that the TOML reader can take whenever the pair of extensions
/// selects it: no `key = value` line has a lone quote as its value.
pub open spec fn convert_input_readable(input: Seq<u8>, f: Seq<char>, t: Seq<char>) -> bool {
    conversion_for(f, t) == Conversion::TomlToJson && valid_utf8(input) ==> toml_values_readable(
        str_lines(decode_utf8(input)),
    )
}

/// Converts `input` from the format `config.from` names to the one
/// `config.to` names; both are compared lowercased.
pub fn convert(input: &[u8], config: &ConvertConfig) -> (r: Converted)
    requires
        convert_input_readable(
            input@,
            unicode_lowercase(config.from@),
            unicode_lowercase(config.to@),
        ),
    ensures
        r.view() == convert_result(
            input@,
            unicode_lowercase(config.from@),
            unicode_lowercase(config.to@),
            config.from@,
            config.to@,
            config.quality,
        ),
{
    let fl = to_lowercase_chars(&str_chars(config.from.as_str()));
    let tl = to_lowercase_chars(&str_chars(config.to.as_str()));
    let from = string_from_chars(&fl);
    let to = string_from_chars(&tl);
    let f = from.as_str();
    let t = to.as_str();
    match plan_conversion(f, t) {
        Conversion::Image => Converted::Done(convert_image(input, f, t, config.quality)),
        Conversion::SvgToPng => Converted::RenderSvg,
        Conversion::MarkdownToHtml => Converted::Done(markdown_to_html(input)),
        Conversion::MarkdownToText => Converted::Done(markdown_to_text(input)),
        Conversion::MarkdownToPdf => Converted::Done(markdown_to_pdf(input)),
        Conversion::HtmlToMarkdown => Converted::Done(html_to_markdown(input)),
        Conversion::HtmlToPdf => Converted::Done(html_to_pdf(input)),
        Conversion::DocxToText => Converted::Done(docx_to_text(input)),
        Conversion::DocxToHtml => Converted::Done(docx_to_html(input)),
        Conversion::RtfToText => Converted::Done(rtf_to_text(input)),
        Conversion::PdfToText => Converted::Done(pdf_to_text(input)),
        Conversion::PdfToHtml => Converted::Done(pdf_to_html(input)),
        Conversion::TextToPdf => Converted::Done(text_to_pdf(input)),
        Conversion::CsvToJson => Converted::Done(csv_to_json(input)),
        Conversion::JsonToCsv => Converted::Done(json_to_csv(input)),
        Conversion::CsvToTsv => Converted::Done(csv_to_tsv(input)),
        Conversion::TsvToCsv => Converted::Done(tsv_to_csv(input)),
        Conversion::AudioToWav => Converted::DecodeAudio(from),
        Conversion::Base64Decode => Converted::Done(base64_decode(input)),
        Conversion::Base64Encode => Converted::Done(base64_encode(input)),
        Conversion::JsonToYaml => Converted::Done(json_to_yaml(input)),
        Conversion::YamlToJson => Converted::Done(yaml_to_json(input)),
        Conversion::TomlToJson => Converted::Done(toml_to_json(input)),
        Conversion::JsonToToml => Converted::Done(json_to_toml(input)),
        Conversion::Unsupported => {
            let mut msg: Vec<char> = Vec::new();
            push_str(&mut msg, "Unsupported conversion: ");
            push_str(&mut msg, config.from.as_str());
            push_str(&mut msg, " → ");
            push_str(&mut msg, config.to.as_str());
            Converted::Done(Err(string_from_chars(&msg)))
        },
    }
}

/// `convert`, for every input: `None` exactly where the pair of extensions
/// selects the TOML reader and a `key = value` line of the input has a lone
/// quote as its value.
pub fn convert_checked(input: &[u8], config: &ConvertConfig) -> (r: Option<Converted>)
    ensures
        r is None <==> !convert_input_readable(
            input@,
            unicode_lowercase(config.from@),
            unicode_lowercase(config.to@),
        ),
        r matches Some(c) ==> c.view() == convert_result(
            input@,
            unicode_lowercase(config.from@),
            unicode_lowercase(config.to@),
            config.from@,
            config.to@,
            config.quality,
        ),
{
    let fl = to_lowercase_chars(&str_chars(config.from.as_str()));
    let tl = to_lowercase_chars(&str_chars(config.to.as_str()));
    let from = string_from_chars(&fl);
    let to = string_from_chars(&tl);
    match plan_conversion(from.as_str(), to.as_str()) {
        Conversion::TomlToJson => {
            match crate::text::decode_text(input) {
                Ok(text) => {
                    if !crate::config_formats::toml_readable(&text) {
                        return None;
                    }
                },
                Err(_) => {},
            }
        },
        _ => {},
    }
    Some(convert(input, config))
}

/// Every output format offered for an extension names a conversion that
/// `convert` performs or hands back: none of them is unsupported.
pub proof fn law_offered_conversions_are_supported(e: Seq<char>, i: int)
    requires
        0 <= i < output_formats(e).len(),
    ensures
        conversion_for(e, output_formats(e)[i]@) != Conversion::Unsupported,
{
    reveal_strlit("avif");
    reveal_strlit("base64");
    reveal_strlit("bmp");
    reveal_strlit("csv");
    reveal_strlit("dds");
    reveal_strlit("docx");
    reveal_strlit("exr");
    reveal_strlit("flac");
    reveal_strlit("gif");
    reveal_strlit("hdr");
    reveal_strlit("html");
    reveal_strlit("ico");
    reveal_strlit("jpeg");
    reveal_strlit("jpg");
    reveal_strlit("json");
    reveal_strlit("markdown");
    reveal_strlit("md");
    reveal_strlit("mp3");
    reveal_strlit("ogg");
    reveal_strlit("pdf");
    reveal_strlit("png");
    reveal_strlit("qoi");
    reveal_strlit("rtf");
    reveal_strlit("svg");
    reveal_strlit("text");
    reveal_strlit("tga");
    reveal_strlit("tif");
    reveal_strlit("tiff");
    reveal_strlit("toml");
    reveal_strlit("tsv");
    reveal_strlit("txt");
    reveal_strlit("wav");
    reveal_strlit("webp");
    reveal_strlit("yaml");
    reveal_strlit("yml");
}

} // verus!
