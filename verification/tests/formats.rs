use converter::{detect_format, get_output_formats, is_known_format, ALL_INPUT_FORMATS};

// ── detect_format ───────────────────────────────

#[test]
fn detect_format_known_extensions() {
    assert_eq!(detect_format("photo.png"), Some("png".into()));
    assert_eq!(detect_format("doc.MD"), Some("md".into()));
    assert_eq!(detect_format("data.JSON"), Some("json".into()));
    assert_eq!(detect_format("archive.tar.gz"), None); // gz is not known
    assert_eq!(detect_format("image.JPEG"), Some("jpeg".into()));
}

#[test]
fn detect_format_no_extension() {
    assert_eq!(detect_format("README"), None);
}

#[test]
fn detect_format_unknown_extension() {
    assert_eq!(detect_format("file.xyz"), None);
}

#[test]
fn detect_format_dotfile() {
    assert_eq!(detect_format(".gitignore"), None);
}

#[test]
fn audio_detect_format_extensions() {
    assert_eq!(detect_format("track.mp3"), Some("mp3".into()));
    assert_eq!(detect_format("song.flac"), Some("flac".into()));
    assert_eq!(detect_format("audio.ogg"), Some("ogg".into()));
    assert_eq!(detect_format("clip.wav"), Some("wav".into()));
    assert_eq!(detect_format("SONG.MP3"), Some("mp3".into()));
}

#[test]
fn detect_format_pdf_and_txt() {
    assert_eq!(detect_format("report.pdf"), Some("pdf".into()));
    assert_eq!(detect_format("README.txt"), Some("txt".into()));
    assert_eq!(detect_format("notes.text"), Some("text".into()));
    assert_eq!(detect_format("REPORT.PDF"), Some("pdf".into()));
}

#[test]
fn detect_format_is_lowercase_of_last_extension() {
    assert_eq!(detect_format("Archive.ZIP.Yml"), Some("yml".into()));
    assert_eq!(detect_format("a.b.c"), None);
    assert_eq!(detect_format("name."), None);
}

// ── get_output_formats ──────────────────────────

#[test]
fn output_formats_for_images() {
    let fmts = get_output_formats("png");
    assert!(fmts.contains(&"jpg"));
    assert!(fmts.contains(&"webp"));
    assert!(!fmts.contains(&"png")); // shouldn't convert to self
}

#[test]
fn output_formats_for_markdown() {
    let fmts = get_output_formats("md");
    assert!(fmts.contains(&"html"));
    assert!(fmts.contains(&"txt"));
    assert!(fmts.contains(&"pdf"));
}

#[test]
fn output_formats_for_json() {
    let fmts = get_output_formats("json");
    assert!(fmts.contains(&"csv"));
    assert!(fmts.contains(&"yaml"));
    assert!(fmts.contains(&"toml"));
}

#[test]
fn output_formats_case_insensitive() {
    assert_eq!(get_output_formats("PNG"), get_output_formats("png"));
}

#[test]
fn output_formats_unknown_defaults_to_base64() {
    assert_eq!(get_output_formats("xyz"), vec!["base64"]);
}

#[test]
fn all_input_formats_have_output_options() {
    for fmt in ALL_INPUT_FORMATS {
        let outputs = get_output_formats(fmt);
        assert!(
            !outputs.is_empty(),
            "ALL_INPUT_FORMATS contains '{}' but get_output_formats returns nothing for it",
            fmt
        );
    }
}

#[test]
fn all_input_formats_are_known() {
    for fmt in ALL_INPUT_FORMATS {
        assert!(
            is_known_format(fmt),
            "ALL_INPUT_FORMATS contains '{}' which is not in is_known_format",
            fmt
        );
    }
}

#[test]
fn audio_output_formats_mp3() {
    assert_eq!(get_output_formats("mp3"), vec!["wav"]);
}

#[test]
fn audio_output_formats_flac() {
    assert_eq!(get_output_formats("flac"), vec!["wav"]);
}

#[test]
fn audio_output_formats_ogg() {
    assert_eq!(get_output_formats("ogg"), vec!["wav"]);
}

#[test]
fn audio_output_formats_wav() {
    assert_eq!(get_output_formats("wav"), vec!["wav"]);
}

#[test]
fn output_formats_for_pdf() {
    let fmts = get_output_formats("pdf");
    assert!(fmts.contains(&"txt"));
    assert!(fmts.contains(&"html"));
}

#[test]
fn output_formats_for_txt() {
    let fmts = get_output_formats("txt");
    assert!(fmts.contains(&"pdf"));
}

#[test]
fn output_formats_for_html_includes_pdf() {
    let fmts = get_output_formats("html");
    assert!(fmts.contains(&"md"));
    assert!(fmts.contains(&"pdf"));
}

#[test]
fn output_formats_exact_lists() {
    assert_eq!(
        get_output_formats("Jpeg"),
        vec!["png", "webp", "avif", "gif", "bmp", "tiff", "qoi", "tga", "ico"]
    );
    assert_eq!(get_output_formats("hdr"), vec!["png", "jpg", "webp", "avif", "bmp", "tiff", "tga"]);
    assert_eq!(get_output_formats("svg"), vec!["png"]);
    assert_eq!(get_output_formats("base64"), vec!["bin"]);
    assert_eq!(get_output_formats("yml"), vec!["json"]);
    assert_eq!(get_output_formats(""), vec!["base64"]);
}

#[test]
fn detect_format_needs_a_dot() {
    assert_eq!(detect_format("png"), None);
    assert_eq!(detect_format("md"), None);
    assert_eq!(detect_format(".png"), Some("png".to_string()));
    assert_eq!(detect_format("archive.tar.GZ"), None);
    assert_eq!(detect_format("notes.MD"), Some("md".to_string()));
}
