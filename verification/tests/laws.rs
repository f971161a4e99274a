use converter::batch::Batch;
use converter::document::{base64_decode, base64_encode, html_to_pdf, markdown_to_pdf, text_to_pdf};
use converter::{
    convert, get_output_formats, ConvertConfig, Converted, FileStatus, ALL_INPUT_FORMATS,
};

#[test]
fn law_base64_roundtrip_on_values() {
    for data in [&b""[..], b"a", b"ab", b"abc", b"\x00\xff\x10 binary"] {
        let text = base64_encode(data).unwrap();
        assert_eq!(base64_decode(&text).unwrap(), data.to_vec());
    }
}

#[test]
fn law_finished_batch_offers_no_conversion_on_values() {
    let mut b = Batch::new();
    b.add_files(vec![("a.md".to_string(), vec![]), ("b.md".to_string(), vec![])]);
    b.finish_conversion(0, Ok(vec![]), 1);
    b.finish_conversion(1, Err("x".to_string()), 1);
    assert!(b.all_done());
    assert!(!b.can_convert(false));
    assert!(b.conversion_queue().is_empty());
}

#[test]
fn law_retargeted_file_is_queued_on_values() {
    let mut b = Batch::new();
    b.add_files(vec![("a.md".to_string(), vec![])]);
    b.finish_conversion(0, Ok(vec![]), 1);
    b.set_target(0, "pdf".to_string());
    assert_eq!(b.files()[0].status, FileStatus::Pending);
    assert_eq!(b.conversion_queue(), vec![0]);
}

#[test]
fn law_converting_file_stays_converting_when_retargeted() {
    let mut b = Batch::new();
    b.add_files(vec![("a.md".to_string(), vec![])]);
    let _ = b.begin_conversion(0);
    b.set_target(0, "pdf".to_string());
    assert_eq!(b.files()[0].status, FileStatus::Converting);
    assert!(!b.can_convert(false));
}

#[test]
fn law_output_formats_never_empty_on_values() {
    for ext in ["", "png", "zip", "ÄÖ", "TOML"] {
        assert!(!get_output_formats(ext).is_empty());
    }
}

#[test]
fn law_button_matches_queue_on_values() {
    let mut b = Batch::new();
    assert_eq!(b.can_convert(false), !b.conversion_queue().is_empty());
    b.add_files(vec![("a.md".to_string(), vec![]), ("b.png".to_string(), vec![])]);
    assert_eq!(b.can_convert(false), !b.conversion_queue().is_empty());
    b.set_target(1, "jpg".to_string());
    assert!(b.can_convert(false));
    assert_eq!(b.conversion_queue(), vec![0, 1]);
    b.finish_conversion(0, Ok(vec![]), 1);
    b.finish_conversion(1, Ok(vec![]), 1);
    assert!(!b.can_convert(false));
    assert!(b.conversion_queue().is_empty());
}

#[test]
fn law_pdf_framing_on_values() {
    let outputs = [
        text_to_pdf(b"").unwrap(),
        text_to_pdf("line\n(paren) \\ and more".as_bytes()).unwrap(),
        markdown_to_pdf(b"# Title\n\nbody").unwrap(),
        html_to_pdf(b"<p>x</p>").unwrap(),
    ];
    for pdf in outputs {
        assert!(pdf.starts_with(b"%PDF-1.4\n%\xe2\xe3\xcf\xd3\n"));
        assert!(pdf.ends_with(b"\n%%EOF\n"));
    }
}

#[test]
fn law_offered_conversions_are_supported_on_values() {
    for from in ALL_INPUT_FORMATS {
        for to in get_output_formats(from) {
            let config = ConvertConfig { from: from.to_string(), to: to.to_string(), quality: None };
            if let Converted::Done(Err(m)) = convert(b"", &config) {
                assert!(!m.starts_with("Unsupported conversion"), "{from} -> {to}: {m}");
            }
        }
    }
}
