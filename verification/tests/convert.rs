use image::{ImageBuffer, Rgba};
use converter::archive::{create_zip, ArchiveEntry};
use converter::{convert, ConvertConfig, Converted};

/// Runs a conversion that the library finishes itself.
fn run_conversion(input: &[u8], from: &str, to: &str) -> Result<Vec<u8>, String> {
    let config = ConvertConfig { from: from.to_string(), to: to.to_string(), quality: None };
    match convert(input, &config) {
        Converted::Done(r) => r,
        Converted::RenderSvg => panic!("{from} → {to} is rendered by the caller"),
        Converted::DecodeAudio(_) => panic!("{from} → {to} is decoded by the caller"),
    }
}

fn create_test_png() -> Vec<u8> {
    let img: ImageBuffer<Rgba<u8>, Vec<u8>> = ImageBuffer::from_pixel(1, 1, Rgba([255, 0, 0, 255]));
    let mut buf = std::io::Cursor::new(Vec::new());
    img.write_to(&mut buf, image::ImageFormat::Png).unwrap();
    buf.into_inner()
}

fn make_minimal_docx(document_xml: &str) -> Vec<u8> {
    let entries = vec![ArchiveEntry {
        name: "word/document.xml".into(),
        data: document_xml.as_bytes().to_vec(),
    }];
    create_zip(&entries).unwrap()
}

#[test]
fn convert_unsupported_pair() {
    let result = run_conversion(b"data", "png", "html");
    assert!(result.is_err());
    assert!(result.unwrap_err().contains("Unsupported conversion"));
}

#[test]
fn convert_unsupported_pair_exact_message() {
    let result = run_conversion(b"data", "PNG", "Html");
    assert_eq!(result, Err("Unsupported conversion: PNG → Html".to_string()));
}

#[test]
fn convert_markdown_to_html() {
    let md = b"# Hello\n\nWorld";
    let result = run_conversion(md, "md", "html").unwrap();
    let html = String::from_utf8(result).unwrap();
    assert!(html.contains("<h1>"));
    assert!(html.contains("Hello"));
}

#[test]
fn convert_markdown_to_text() {
    let md = b"**bold** text";
    let result = run_conversion(md, "md", "txt").unwrap();
    let text = String::from_utf8(result).unwrap();
    assert!(text.contains("bold"));
    assert!(!text.contains("**"));
}

#[test]
fn convert_html_to_markdown() {
    let html = b"<h1>Title</h1><p>Paragraph</p>";
    let result = run_conversion(html, "html", "md").unwrap();
    let md = String::from_utf8(result).unwrap();
    assert!(md.contains("# Title"));
}

#[test]
fn convert_to_base64_roundtrip() {
    let data = b"Hello, World!";
    let encoded = run_conversion(data, "bin", "base64").unwrap();
    let decoded = run_conversion(&encoded, "base64", "bin").unwrap();
    assert_eq!(decoded, data);
}

#[test]
fn convert_invalid_base64() {
    let result = run_conversion(b"not!valid!base64!!!", "base64", "bin");
    assert!(result.is_err());
}

#[test]
fn convert_csv_to_json() {
    let csv = b"name,age\nAlice,30\nBob,25";
    let result = run_conversion(csv, "csv", "json").unwrap();
    let json_str = String::from_utf8(result).unwrap();
    let data: serde_json::Value = serde_json::from_str(&json_str).unwrap();
    assert!(data.is_array());
    assert_eq!(data.as_array().unwrap().len(), 2);
    assert_eq!(data[0]["name"], "Alice");
}

#[test]
fn convert_json_to_csv() {
    let json = br#"[{"name":"Alice","age":30},{"name":"Bob","age":25}]"#;
    let result = run_conversion(json, "json", "csv").unwrap();
    let csv_str = String::from_utf8(result).unwrap();
    assert!(csv_str.contains("Alice"));
    assert!(csv_str.contains("Bob"));
}

#[test]
fn convert_csv_to_tsv() {
    let csv = b"a,b\n1,2";
    let result = run_conversion(csv, "csv", "tsv").unwrap();
    let tsv = String::from_utf8(result).unwrap();
    assert!(tsv.contains("a\tb"));
    assert!(tsv.contains("1\t2"));
}

#[test]
fn convert_tsv_to_csv() {
    let tsv = b"a\tb\n1\t2";
    let result = run_conversion(tsv, "tsv", "csv").unwrap();
    let csv = String::from_utf8(result).unwrap();
    assert!(csv.contains("a,b"));
}

#[test]
fn convert_json_to_yaml() {
    let json = br#"{"key":"value","num":42}"#;
    let result = run_conversion(json, "json", "yaml").unwrap();
    let yaml = String::from_utf8(result).unwrap();
    assert!(yaml.contains("key:"));
    assert!(yaml.contains("value"));
}

#[test]
fn convert_yaml_to_json() {
    let yaml = b"name: test\ncount: 5";
    let result = run_conversion(yaml, "yaml", "json").unwrap();
    let json: serde_json::Value = serde_json::from_str(&String::from_utf8(result).unwrap()).unwrap();
    assert_eq!(json["name"], "test");
    assert_eq!(json["count"], 5);
}

#[test]
fn convert_json_to_toml() {
    let json = br#"{"title":"Test","version":1}"#;
    let result = run_conversion(json, "json", "toml").unwrap();
    let toml = String::from_utf8(result).unwrap();
    assert!(toml.contains("title"));
    assert!(toml.contains("Test"));
}

#[test]
fn convert_toml_to_json() {
    let toml = b"name = \"example\"\nversion = 1";
    let result = run_conversion(toml, "toml", "json").unwrap();
    let json: serde_json::Value = serde_json::from_str(&String::from_utf8(result).unwrap()).unwrap();
    assert_eq!(json["name"], "example");
    assert_eq!(json["version"], 1);
}

#[test]
fn convert_png_to_jpg() {
    let png = create_test_png();
    let result = run_conversion(&png, "png", "jpg");
    assert!(result.is_ok());
    let jpg = result.unwrap();
    assert_eq!(&jpg[..2], &[0xFF, 0xD8]);
}

#[test]
fn convert_png_to_webp() {
    let png = create_test_png();
    let result = run_conversion(&png, "png", "webp");
    assert!(result.is_ok());
}

#[test]
fn convert_png_to_avif() {
    let png = create_test_png();
    let result = run_conversion(&png, "png", "avif");
    assert!(result.is_ok(), "Expected AVIF output, got: {:?}", result.err());
}

#[test]
fn convert_png_to_qoi() {
    let png = create_test_png();
    let result = run_conversion(&png, "png", "qoi");
    assert!(result.is_ok());
    let qoi = result.unwrap();
    assert_eq!(&qoi[..4], b"qoif");
}

#[test]
fn convert_qoi_roundtrip() {
    let png = create_test_png();
    let qoi = run_conversion(&png, "png", "qoi").unwrap();
    let back = run_conversion(&qoi, "qoi", "png");
    assert!(back.is_ok());
    assert_eq!(&back.unwrap()[..4], b"\x89PNG");
}

#[test]
fn convert_png_to_tga() {
    let png = create_test_png();
    let result = run_conversion(&png, "png", "tga");
    assert!(result.is_ok());
}

#[test]
fn convert_png_to_ico() {
    let png = create_test_png();
    let result = run_conversion(&png, "png", "ico");
    assert!(result.is_ok());
    let ico = result.unwrap();
    assert_eq!(&ico[..4], &[0x00, 0x00, 0x01, 0x00]);
}

#[test]
fn convert_ico_to_png() {
    let original_png = create_test_png();
    let ico = run_conversion(&original_png, "png", "ico").unwrap();
    let png = run_conversion(&ico, "ico", "png");
    assert!(png.is_ok());
    assert_eq!(&png.unwrap()[..4], b"\x89PNG");
}

#[test]
fn convert_docx_to_text() {
    let xml = r#"<?xml version="1.0" encoding="UTF-8"?>
<w:document xmlns:w="http://schemas.openxmlformats.org/wordprocessingml/2006/main">
  <w:body>
    <w:p><w:r><w:t>Hello World</w:t></w:r></w:p>
    <w:p><w:r><w:t>Second paragraph</w:t></w:r></w:p>
  </w:body>
</w:document>"#;
    let docx = make_minimal_docx(xml);
    let result = run_conversion(&docx, "docx", "txt").unwrap();
    let text = String::from_utf8(result).unwrap();
    assert!(text.contains("Hello World"));
    assert!(text.contains("Second paragraph"));
}

#[test]
fn convert_docx_to_html() {
    let xml = r#"<?xml version="1.0" encoding="UTF-8"?>
<w:document xmlns:w="http://schemas.openxmlformats.org/wordprocessingml/2006/main">
  <w:body>
    <w:p><w:r><w:t>Content</w:t></w:r></w:p>
  </w:body>
</w:document>"#;
    let docx = make_minimal_docx(xml);
    let result = run_conversion(&docx, "docx", "html").unwrap();
    let html = String::from_utf8(result).unwrap();
    assert!(html.contains("<html>") || html.contains("<p>"));
    assert!(html.contains("Content"));
}

#[test]
fn convert_docx_missing_document_xml() {
    let entries = vec![ArchiveEntry { name: "unrelated.txt".into(), data: b"not a docx".to_vec() }];
    let zip = create_zip(&entries).unwrap();
    let result = run_conversion(&zip, "docx", "txt");
    assert!(result.is_err());
    assert!(result.unwrap_err().contains("word/document.xml"));
}

#[test]
fn convert_rtf_to_text() {
    let rtf = br#"{\rtf1\ansi Hello World}"#;
    let result = run_conversion(rtf, "rtf", "txt");
    assert!(result.is_ok(), "RTF conversion failed: {:?}", result.err());
    let text = String::from_utf8(result.unwrap()).unwrap();
    assert!(text.contains("Hello"));
}

#[test]
fn convert_invalid_image_data() {
    let result = run_conversion(b"not an image", "png", "jpg");
    assert!(result.is_err());
}

#[test]
fn audio_unsupported_output_format_errors() {
    let result = run_conversion(b"data", "mp3", "png");
    assert!(result.is_err());
    assert!(result.unwrap_err().contains("Unsupported conversion"));
}

#[test]
fn text_to_pdf_produces_valid_header() {
    let result = run_conversion(b"Hello World", "txt", "pdf");
    assert!(result.is_ok(), "text→pdf failed: {:?}", result.err());
    let pdf = result.unwrap();
    assert!(pdf.starts_with(b"%PDF-"), "output should start with %PDF-");
    assert!(pdf.windows(5).any(|w| w == b"%%EOF"), "output should contain %%EOF");
}

#[test]
fn text_to_pdf_non_empty_output() {
    let result = run_conversion(b"Line 1\nLine 2\nLine 3", "txt", "pdf").unwrap();
    assert!(result.len() > 200, "PDF output unexpectedly small");
}

#[test]
fn text_to_pdf_empty_input() {
    let result = run_conversion(b"", "txt", "pdf");
    assert!(result.is_ok());
    let pdf = result.unwrap();
    assert!(pdf.starts_with(b"%PDF-"));
}

#[test]
fn text_to_pdf_with_special_chars() {
    let result = run_conversion(b"Price: (100) + (200) = (300) \\taxed", "txt", "pdf");
    assert!(result.is_ok(), "special chars failed: {:?}", result.err());
    let pdf = result.unwrap();
    assert!(pdf.starts_with(b"%PDF-"));
}

#[test]
fn text_to_pdf_multipage() {
    let long_text = (0..120).map(|i| format!("Line number {i}")).collect::<Vec<_>>().join("\n");
    let result = run_conversion(long_text.as_bytes(), "txt", "pdf").unwrap();
    assert!(result.starts_with(b"%PDF-"));
    assert!(result.len() > 1000);
}

#[test]
fn text_to_pdf_long_line_wraps() {
    let long_line = "A".repeat(300);
    let result = run_conversion(long_line.as_bytes(), "txt", "pdf");
    assert!(result.is_ok());
    assert!(result.unwrap().starts_with(b"%PDF-"));
}

#[test]
fn pdf_text_roundtrip() {
    let original = b"Hello from Transfigure PDF roundtrip test";
    let pdf = run_conversion(original, "txt", "pdf").unwrap();
    let extracted = run_conversion(&pdf, "pdf", "txt");
    assert!(extracted.is_ok(), "pdf→txt failed: {:?}", extracted.err());
    let text = String::from_utf8(extracted.unwrap()).unwrap();
    assert!(
        text.contains("Hello from Transfigure"),
        "extracted text should contain original content, got: {text:?}"
    );
}

#[test]
fn pdf_to_html_contains_pre_tag() {
    let pdf = run_conversion(b"Sample text", "txt", "pdf").unwrap();
    let html_result = run_conversion(&pdf, "pdf", "html");
    assert!(html_result.is_ok(), "pdf→html failed: {:?}", html_result.err());
    let html = String::from_utf8(html_result.unwrap()).unwrap();
    assert!(html.contains("<pre>") || html.contains("<html>"));
}

#[test]
fn pdf_to_text_invalid_data() {
    let result = run_conversion(b"this is not a pdf", "pdf", "txt");
    assert!(result.is_err());
    let err = result.unwrap_err();
    assert!(err.contains("Failed to load PDF"), "unexpected error: {err}");
}

#[test]
fn pdf_to_html_invalid_data() {
    let result = run_conversion(b"\x00\x01\x02\x03", "pdf", "html");
    assert!(result.is_err());
}

#[test]
fn markdown_to_pdf_produces_valid_pdf() {
    let md = b"# Title\n\nSome **bold** paragraph text.";
    let result = run_conversion(md, "md", "pdf");
    assert!(result.is_ok(), "md→pdf failed: {:?}", result.err());
    let pdf = result.unwrap();
    assert!(pdf.starts_with(b"%PDF-"));
}

#[test]
fn markdown_to_pdf_content_preserved() {
    let md = b"Hello Markdown PDF content here";
    let pdf = run_conversion(md, "md", "pdf").unwrap();
    let text_result = run_conversion(&pdf, "pdf", "txt");
    assert!(text_result.is_ok(), "{:?}", text_result.err());
    let text = String::from_utf8(text_result.unwrap()).unwrap();
    assert!(text.contains("Hello Markdown PDF"), "expected content in extracted text, got: {text:?}");
}

#[test]
fn html_to_pdf_produces_valid_pdf() {
    let html = b"<h1>Title</h1><p>Hello world.</p>";
    let result = run_conversion(html, "html", "pdf");
    assert!(result.is_ok(), "html→pdf failed: {:?}", result.err());
    let pdf = result.unwrap();
    assert!(pdf.starts_with(b"%PDF-"));
}

#[test]
fn html_to_pdf_strips_tags() {
    let html = b"<p>Stripped content here</p>";
    let pdf = run_conversion(html, "html", "pdf").unwrap();
    let text = run_conversion(&pdf, "pdf", "txt").unwrap();
    let s = String::from_utf8(text).unwrap();
    assert!(s.contains("Stripped content"), "HTML content should survive PDF roundtrip, got: {s:?}");
}

#[test]
fn csv_to_json_quoted_fields() {
    let csv = b"name,note\n\"Smith, John\",\"has, commas\"";
    let result = run_conversion(csv, "csv", "json").unwrap();
    let json_str = String::from_utf8(result).unwrap();
    let v: serde_json::Value = serde_json::from_str(&json_str).unwrap();
    assert_eq!(v[0]["name"], "Smith, John");
    assert_eq!(v[0]["note"], "has, commas");
}

#[test]
fn json_to_csv_missing_fields_empty() {
    let json = br#"[{"name":"Alice","age":30},{"name":"Bob"}]"#;
    let result = run_conversion(json, "json", "csv").unwrap();
    let s = String::from_utf8(result).unwrap();
    assert!(s.contains("Bob"));
    assert!(s.lines().count() >= 3);
}

#[test]
fn csv_single_row_no_data() {
    let csv = b"col1,col2\n";
    let result = run_conversion(csv, "csv", "json").unwrap();
    let v: serde_json::Value = serde_json::from_str(&String::from_utf8(result).unwrap()).unwrap();
    assert!(v.as_array().unwrap().is_empty());
}

#[test]
fn yaml_to_json_roundtrip_string_values() {
    let yaml = b"city: Paris\ncountry: France";
    let json = run_conversion(yaml, "yaml", "json").unwrap();
    let v: serde_json::Value = serde_json::from_str(&String::from_utf8(json).unwrap()).unwrap();
    assert_eq!(v["city"], "Paris");
    assert_eq!(v["country"], "France");
}

#[test]
fn toml_to_json_section_table() {
    let toml = b"[server]\nport = 8080\nhost = \"localhost\"";
    let json = run_conversion(toml, "toml", "json").unwrap();
    let v: serde_json::Value = serde_json::from_str(&String::from_utf8(json).unwrap()).unwrap();
    assert_eq!(v["server"]["port"], 8080);
    assert_eq!(v["server"]["host"], "localhost");
}

#[test]
fn markdown_code_block_to_html() {
    let md = b"```rust\nfn main() {}\n```";
    let html = run_conversion(md, "md", "html").unwrap();
    let s = String::from_utf8(html).unwrap();
    assert!(s.contains("<code") || s.contains("main"));
}

#[test]
fn markdown_list_to_text() {
    let md = b"- item one\n- item two\n- item three";
    let text = run_conversion(md, "md", "txt").unwrap();
    let s = String::from_utf8(text).unwrap();
    assert!(s.contains("item one"));
    assert!(s.contains("item two"));
}

#[test]
fn html_to_markdown_links() {
    let html = b"<p>Visit <strong>here</strong></p>";
    let md = run_conversion(html, "html", "md").unwrap();
    let s = String::from_utf8(md).unwrap();
    assert!(s.contains("here"));
    assert!(s.contains("**"));
}
