use image::{ImageBuffer, Rgba};
use converter::config_formats::{json_to_toml, json_to_yaml, toml_to_json, yaml_to_json};
use converter::docx::{docx_to_html, docx_xml_to_html, docx_xml_to_text};
use converter::document::{
    base64_decode, base64_encode, html_to_markdown, markdown_to_html, pdf_to_html, pdf_to_text,
    rtf_to_text, text_to_pdf,
};
use converter::image_conv::convert_image;
use converter::spreadsheet::{csv_to_json, csv_to_tsv, json_to_csv, tsv_to_csv};
use converter::archive::{create_zip, ArchiveEntry};
use converter::{convert, convert_checked, ConvertConfig, Converted};

fn text_of(r: Result<Vec<u8>, String>) -> String {
    String::from_utf8(r.unwrap()).unwrap()
}

#[test]
fn base64_encode_exact_text() {
    assert_eq!(text_of(base64_encode(b"Hello, World!")), "SGVsbG8sIFdvcmxkIQ==");
    assert_eq!(text_of(base64_encode(b"ab")), "YWI=");
    assert_eq!(text_of(base64_encode(b"")), "");
}

#[test]
fn base64_decode_trims_and_refuses() {
    assert_eq!(base64_decode(b"  SGk=\n").unwrap(), b"Hi".to_vec());
    let err = base64_decode(b"SGk").unwrap_err();
    assert!(err.starts_with("Invalid base64: "), "unexpected error: {err}");
    let err = base64_decode(&[0xff, 0xfe]).unwrap_err();
    assert!(err.starts_with("Invalid UTF-8: "), "unexpected error: {err}");
}

#[test]
fn base64_roundtrip_of_every_byte() {
    let data: Vec<u8> = (0u8..=255).collect();
    let encoded = base64_encode(&data).unwrap();
    assert_eq!(base64_decode(&encoded).unwrap(), data);
}

#[test]
fn text_input_must_be_utf8() {
    let err = markdown_to_html(&[0x66, 0xff]).unwrap_err();
    assert!(err.starts_with("Invalid UTF-8: "), "unexpected error: {err}");
    let err = rtf_to_text(&[0xc3]).unwrap_err();
    assert!(err.starts_with("Invalid UTF-8 in RTF: "), "unexpected error: {err}");
}

#[test]
fn html_to_markdown_exact_text() {
    let md = html_to_markdown(b"<h2>Sub</h2><p>a &amp; b &lt;c&gt;</p><ul><li>x</li></ul><br/>").unwrap();
    assert_eq!(String::from_utf8(md).unwrap(), "## Sub\n\na & b <c>\n\n- x");
}

#[test]
fn pdf_text_of_generated_pdf() {
    let pdf = text_to_pdf(b"first line\nsecond line").unwrap();
    let text = String::from_utf8(pdf_to_text(&pdf).unwrap()).unwrap();
    assert!(text.contains("first line"), "got {text:?}");
    assert!(text.contains("second line"), "got {text:?}");
}

#[test]
fn pdf_to_html_escapes_the_text() {
    let pdf = text_to_pdf(b"a < b").unwrap();
    let html = String::from_utf8(pdf_to_html(&pdf).unwrap()).unwrap();
    assert!(html.starts_with("<!DOCTYPE html>\n<html><head><meta charset=\"utf-8\"></head><body><pre>\n"));
    assert!(html.ends_with("\n</pre></body></html>"));
    assert!(html.contains("a &lt; b"), "got {html:?}");
}

#[test]
fn pdf_load_error_is_reported() {
    let err = pdf_to_html(b"plain").unwrap_err();
    assert!(err.starts_with("Failed to load PDF: "), "unexpected error: {err}");
}

#[test]
fn rtf_plain_text_is_trimmed() {
    let text = rtf_to_text(br"{\rtf1\ansi  Hello }").unwrap();
    assert_eq!(String::from_utf8(text).unwrap(), "Hello");
}

#[test]
fn docx_html_headings_and_runs() {
    let xml = r#"<w:document><w:body><w:p><w:pPr><w:pStyle w:val="Heading2"/></w:pPr><w:r><w:t>Title</w:t></w:r></w:p><w:p><w:r><w:rPr><w:b/></w:rPr><w:t>Bold</w:t></w:r></w:p></w:body></w:document>"#;
    let docx = create_zip(&[ArchiveEntry { name: "word/document.xml".into(), data: xml.as_bytes().to_vec() }]).unwrap();
    let html = String::from_utf8(docx_to_html(&docx).unwrap()).unwrap();
    assert_eq!(html, "<html><body>\n<h2>Title</h2>\n<p><strong>Bold</strong></p>\n</body></html>");
}

#[test]
fn docx_refuses_non_zip_input() {
    let err = docx_to_html(b"not a zip").unwrap_err();
    assert!(err.starts_with("Failed to open DOCX as ZIP: "), "unexpected error: {err}");
}

#[test]
fn json_to_yaml_exact_text() {
    let yaml = json_to_yaml(br#"{"b":[true,null],"a":1,"c":{"d":"x"}}"#).unwrap();
    assert_eq!(String::from_utf8(yaml).unwrap(), "a: 1\nb: - true\n  - null\nc: d: x\n");
    let err = json_to_yaml(b"{").unwrap_err();
    assert!(err.starts_with("Invalid JSON: "), "unexpected error: {err}");
}

#[test]
fn json_to_toml_exact_text() {
    let toml = json_to_toml(br#"{"title":"T","n":1,"arr":[1,"x"],"srv":{"port":80}}"#).unwrap();
    assert_eq!(
        String::from_utf8(toml).unwrap(),
        "arr = [1, \"x\"]\nn = 1\ntitle = \"T\"\n\n[srv]\nport = 80\n"
    );
}

#[test]
fn yaml_to_json_scalars() {
    let json = yaml_to_json(b"a: 'x'\nb: ~\nc: 1.5\n# note\n---\nd: -7\nplain line\n").unwrap();
    assert_eq!(
        String::from_utf8(json).unwrap(),
        "{\n  \"a\": \"x\",\n  \"b\": null,\n  \"c\": 1.5,\n  \"d\": -7\n}"
    );
}

#[test]
fn toml_to_json_tables_and_values() {
    let json = toml_to_json(b"x = true\n[t]\ny = 'q'\nz = 2.0\n[t]\nw = inf").unwrap();
    let v: serde_json::Value = serde_json::from_str(&String::from_utf8(json).unwrap()).unwrap();
    assert_eq!(v["x"], true);
    assert_eq!(v["t"]["y"], "q");
    assert_eq!(v["t"]["z"], 2.0);
    assert_eq!(v["t"]["w"], "inf");
}

#[test]
fn toml_lone_quote_is_refused_before_reading() {
    let config = ConvertConfig { from: "toml".into(), to: "json".into(), quality: None };
    assert!(convert_checked(b"a = \"", &config).is_none());
    assert!(convert_checked(b"a = \"\"", &config).is_some());
}

#[test]
fn csv_and_tsv_exact_text() {
    assert_eq!(String::from_utf8(csv_to_tsv(b"a,b\n1,2\n").unwrap()).unwrap(), "a\tb\n1\t2\n");
    assert_eq!(String::from_utf8(tsv_to_csv(b"a\tb\n1\t2").unwrap()).unwrap(), "a,b\n1,2\n");
}

#[test]
fn csv_to_json_types_fields() {
    let json = csv_to_json(b"n,f,s\n1,2.5,x\n").unwrap();
    let v: serde_json::Value = serde_json::from_str(&String::from_utf8(json).unwrap()).unwrap();
    assert_eq!(v[0]["n"], 1);
    assert_eq!(v[0]["f"], 2.5);
    assert_eq!(v[0]["s"], "x");
}

#[test]
fn csv_parse_error_is_reported() {
    let err = csv_to_json(b"a,b\n1,2,3\n").unwrap_err();
    assert!(err.starts_with("CSV parse error: "), "unexpected error: {err}");
}

#[test]
fn json_to_csv_shapes() {
    assert_eq!(json_to_csv(b"{}").unwrap_err(), "JSON must be an array of objects");
    assert_eq!(json_to_csv(b"[]").unwrap(), Vec::<u8>::new());
    let csv = json_to_csv(br#"[{"b":"x","a":[1]},{"c":null}]"#).unwrap();
    assert_eq!(String::from_utf8(csv).unwrap(), "a,b,c\n[1],x,\n,,null\n");
}

#[test]
fn image_format_names_are_checked() {
    let err = convert_image(b"", "png", "xyz", None).unwrap_err();
    assert_eq!(err, "Unsupported image format: xyz");
    let err = convert_image(b"junk", "gif", "png", None).unwrap_err();
    assert!(err.starts_with("Failed to decode gif image: "), "unexpected error: {err}");
}

#[test]
fn convert_hands_float_work_back() {
    let svg = ConvertConfig { from: "SVG".into(), to: "png".into(), quality: None };
    assert!(matches!(convert(b"<svg/>", &svg), Converted::RenderSvg));
    let audio = ConvertConfig { from: "Mp3".into(), to: "WAV".into(), quality: None };
    match convert(b"", &audio) {
        Converted::DecodeAudio(ext) => assert_eq!(ext, "mp3"),
        _ => panic!("audio is decoded by the caller"),
    }
}

#[test]
fn convert_uses_the_jpeg_quality() {
    let img: ImageBuffer<Rgba<u8>, Vec<u8>> = ImageBuffer::from_fn(16, 16, |x, y| Rgba([(x * 16) as u8, (y * 16) as u8, 7, 255]));
    let mut buf = std::io::Cursor::new(Vec::new());
    img.write_to(&mut buf, image::ImageFormat::Png).unwrap();
    let png = buf.into_inner();
    let low = ConvertConfig { from: "png".into(), to: "jpeg".into(), quality: Some(10) };
    let high = ConvertConfig { from: "png".into(), to: "jpeg".into(), quality: Some(100) };
    let (Converted::Done(Ok(a)), Converted::Done(Ok(b))) = (convert(&png, &low), convert(&png, &high)) else {
        panic!("JPEG encoding failed");
    };
    assert!(a.len() < b.len());
}

#[test]
fn csv_integer_fields_read_as_i64() {
    let json = csv_to_json(b"a,b,c,d\n+5,-9223372036854775808,9223372036854775808,12x\n").unwrap();
    let v: serde_json::Value = serde_json::from_slice(&json).unwrap();
    assert_eq!(v[0]["a"], 5);
    assert_eq!(v[0]["b"].as_i64(), Some(i64::MIN));
    assert!(v[0]["c"].is_f64());
    assert_eq!(v[0]["d"], "12x");
}

#[test]
fn docx_only_text_runs_hold_text() {
    let xml: Vec<char> =
        "<w:p><w:r><w:tab/>stray<w:tbl>cell</w:tbl><w:t xml:space=\"preserve\">Hi</w:t><w:t>!</w:t></w:r></w:p>"
            .chars()
            .collect();
    let text: String = docx_xml_to_text(&xml).into_iter().collect();
    assert_eq!(text, "Hi!");
    let html: String = docx_xml_to_html(&xml).into_iter().collect();
    assert_eq!(html, "<html><body>\n<p>Hi!</p>\n</body></html>");
}
