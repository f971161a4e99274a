use converter::display::format_icon;
use converter::{
    download_blob, format_elapsed, format_size, format_size_delta, make_output_name, mime_type_for,
};

#[test]
fn mime_type_images() {
    assert_eq!(mime_type_for("png"), "image/png");
    assert_eq!(mime_type_for("jpg"), "image/jpeg");
    assert_eq!(mime_type_for("gif"), "image/gif");
    assert_eq!(mime_type_for("webp"), "image/webp");
}

#[test]
fn mime_type_text() {
    assert_eq!(mime_type_for("html"), "text/html");
    assert_eq!(mime_type_for("csv"), "text/csv");
    assert_eq!(mime_type_for("txt"), "text/plain");
}

#[test]
fn mime_type_unknown() {
    assert_eq!(mime_type_for("xyz"), "application/octet-stream");
}

#[test]
fn mime_type_documents_and_data() {
    assert_eq!(mime_type_for("pdf"), "application/pdf");
    assert_eq!(
        mime_type_for("docx"),
        "application/vnd.openxmlformats-officedocument.wordprocessingml.document"
    );
    assert_eq!(mime_type_for("yml"), "application/x-yaml");
    assert_eq!(mime_type_for("PNG"), "application/octet-stream");
}

#[test]
fn make_output_name_replaces_extension() {
    assert_eq!(make_output_name("photo.png", "jpg"), "photo.jpg");
    assert_eq!(make_output_name("doc.md", "html"), "doc.html");
}

#[test]
fn make_output_name_no_extension() {
    assert_eq!(make_output_name("README", "txt"), "README.txt");
}

#[test]
fn make_output_name_multiple_dots() {
    assert_eq!(make_output_name("my.file.png", "jpg"), "my.file.jpg");
}

#[test]
fn make_output_name_dotfile_and_trailing_dot() {
    assert_eq!(make_output_name(".gitignore", "txt"), ".txt");
    assert_eq!(make_output_name("name.", "md"), "name.md");
}

#[test]
fn download_blob_names_and_types() {
    let d = download_blob("report.md", "pdf");
    assert_eq!(d.filename, "report.pdf");
    assert_eq!(d.mime, "application/pdf");
}

#[test]
fn format_size_bytes() {
    assert_eq!(format_size(0), "0 B");
    assert_eq!(format_size(512), "512 B");
    assert_eq!(format_size(1023), "1023 B");
}

#[test]
fn format_size_kilobytes() {
    assert_eq!(format_size(1024), "1.0 KB");
    assert_eq!(format_size(1536), "1.5 KB");
}

#[test]
fn format_size_megabytes() {
    assert_eq!(format_size(1024 * 1024), "1.0 MB");
    assert_eq!(format_size(2 * 1024 * 1024 + 512 * 1024), "2.5 MB");
}

#[test]
fn format_size_matches_float_formatting() {
    for b in [1100usize, 1126, 1075, 1048575, 5_000_000, 123_456_789, 9_007_199_254_740_993] {
        let expected = if b < 1024 {
            format!("{b} B")
        } else if b < 1024 * 1024 {
            format!("{:.1} KB", b as f64 / 1024.0)
        } else {
            format!("{:.1} MB", b as f64 / (1024.0 * 1024.0))
        };
        assert_eq!(format_size(b), expected);
    }
}

#[test]
fn size_delta_smaller() {
    assert_eq!(format_size_delta(1000, 580), Some("-42%".into()));
}

#[test]
fn size_delta_larger() {
    assert_eq!(format_size_delta(1000, 1080), Some("+8%".into()));
}

#[test]
fn size_delta_unchanged() {
    assert_eq!(format_size_delta(1000, 1000), None);
    assert_eq!(format_size_delta(1000, 1001), None); // rounds to 0
}

#[test]
fn size_delta_empty_input() {
    assert_eq!(format_size_delta(0, 500), None);
}

#[test]
fn size_delta_matches_float_rounding() {
    let cases: [(usize, usize); 9] = [
        (1000, 1005),
        (1000, 995),
        (3, 1),
        (7, 0),
        (1, 1_000_000),
        (200, 201),
        (123_456_789, 987_654_321),
        (usize::MAX, 1),
        (1, usize::MAX),
    ];
    for (i, o) in cases {
        let pct = ((o as f64 - i as f64) / i as f64 * 100.0).round() as i64;
        let expected = match pct {
            0 => None,
            p if p > 0 => Some(format!("+{p}%")),
            p => Some(format!("{p}%")),
        };
        assert_eq!(format_size_delta(i, o), expected, "input {i} output {o}");
    }
}

#[test]
fn elapsed_millis() {
    assert_eq!(format_elapsed(0), "0 ms");
    assert_eq!(format_elapsed(999), "999 ms");
}

#[test]
fn elapsed_seconds() {
    assert_eq!(format_elapsed(1000), "1.0 s");
    assert_eq!(format_elapsed(2350), "2.4 s");
}

#[test]
fn elapsed_matches_float_formatting() {
    for ms in [1050u32, 1150, 1250, 9999, 65_432, u32::MAX] {
        assert_eq!(format_elapsed(ms), format!("{:.1} s", ms as f64 / 1000.0));
    }
}

#[test]
fn format_icon_by_category() {
    assert_eq!(format_icon("png"), "🖼️");
    assert_eq!(format_icon("svg"), "🖼️");
    assert_eq!(format_icon("md"), "📝");
    assert_eq!(format_icon("json"), "📊");
    assert_eq!(format_icon("toml"), "⚙️");
    assert_eq!(format_icon("base64"), "🔐");
    assert_eq!(format_icon("PNG"), "📄");
    assert_eq!(format_icon("pdf"), "📄");
}
