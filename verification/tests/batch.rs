use converter::batch::{is_lossy_target, Batch};
use converter::FileStatus;

fn batch_of(names: &[&str]) -> Batch {
    let mut b = Batch::new();
    b.add_files(names.iter().map(|n| (n.to_string(), n.as_bytes().to_vec())).collect());
    b
}

#[test]
fn batch_add_files_assigns_ids_and_targets() {
    let b = batch_of(&["a.png", "notes.MD", "blob"]);
    let files = b.files();
    assert_eq!(files.len(), 3);
    assert_eq!(files.iter().map(|f| f.id).collect::<Vec<_>>(), vec![0, 1, 2]);
    assert_eq!(files[0].extension, "png");
    assert_eq!(files[0].target.as_deref(), Some("jpg"));
    assert_eq!(files[1].extension, "md");
    assert_eq!(files[1].target.as_deref(), Some("html"));
    assert_eq!(files[2].extension, "");
    assert_eq!(files[2].target.as_deref(), Some("base64"));
    assert_eq!(files[2].size, 4);
    assert!(files.iter().all(|f| f.status == FileStatus::Pending));
    assert_eq!(b.next_id(), 3);
}

#[test]
fn batch_ids_keep_counting_after_removal_and_reset() {
    let mut b = batch_of(&["a.png", "b.png"]);
    b.remove_file(0);
    assert_eq!(b.files().iter().map(|f| f.id).collect::<Vec<_>>(), vec![1]);
    b.reset();
    assert!(b.files().is_empty());
    b.add_files(vec![("c.txt".to_string(), vec![1])]);
    assert_eq!(b.files()[0].id, 2);
}

#[test]
fn batch_set_target_requeues_finished_file() {
    let mut b = batch_of(&["a.png"]);
    b.finish_conversion(0, Ok(vec![1, 2, 3]), 5);
    assert!(b.all_done());
    assert!(!b.can_convert(false));
    b.set_target(0, "webp".to_string());
    assert_eq!(b.files()[0].target.as_deref(), Some("webp"));
    assert_eq!(b.files()[0].status, FileStatus::Pending);
    assert!(b.can_convert(false));
    assert!(!b.can_convert(true));
}

#[test]
fn batch_set_all_targets_only_where_offered() {
    let mut b = batch_of(&["a.png", "b.jpg", "c.csv"]);
    b.set_all_targets("webp".to_string());
    let t: Vec<_> = b.files().iter().map(|f| f.target.clone().unwrap()).collect();
    assert_eq!(t, vec!["webp", "webp", "json"]);
}

#[test]
fn batch_common_formats() {
    assert!(batch_of(&["a.png"]).common_formats().is_empty());
    assert_eq!(
        batch_of(&["a.png", "b.jpg"]).common_formats(),
        vec!["webp", "avif", "gif", "bmp", "tiff", "qoi", "tga", "ico"]
    );
    assert!(batch_of(&["a.png", "b.csv"]).common_formats().is_empty());
}

#[test]
fn batch_queue_and_labels() {
    let mut b = batch_of(&["a.png", "b.md"]);
    assert_eq!(b.conversion_queue(), vec![0, 1]);
    assert_eq!(b.convert_button_label(false), "Convert 2 files");
    let started = b.begin_conversion(0).unwrap();
    assert_eq!(started.0, b"a.png".to_vec());
    assert_eq!(started.1, "png");
    assert_eq!(started.2, "jpg");
    assert_eq!(b.files()[0].status, FileStatus::Converting);
    assert_eq!(b.conversion_queue(), vec![1]);
    assert_eq!(b.convert_button_label(false), "Convert 1 file");
    b.finish_conversion(0, Err("boom".to_string()), 0);
    assert_eq!(b.convert_button_label(true), "Converting 1/2…");
    assert_eq!(b.done_count(), 0);
    assert!(b.begin_conversion(7).is_none());
}

#[test]
fn batch_quality_control_shows_for_lossy_targets() {
    let mut b = batch_of(&["a.png", "b.md"]);
    assert!(b.show_quality());
    b.set_target(0, "webp".to_string());
    assert!(!b.show_quality());
    assert!(is_lossy_target("avif"));
    assert!(!is_lossy_target("png"));
}

#[test]
fn batch_save_all_as_archives_converted_files() {
    let mut b = batch_of(&["a.png", "b.md", "c.txt"]);
    assert!(b.save_all_as("zip").is_none());
    b.finish_conversion(0, Ok(b"JPG".to_vec()), 1);
    b.finish_conversion(1, Ok(b"<p>".to_vec()), 1);
    let entries = b.archive_entries();
    assert_eq!(entries.iter().map(|e| e.name.clone()).collect::<Vec<_>>(), vec!["a.jpg", "b.html"]);
    assert_eq!(b.done_count(), 2);
    assert!(b.save_all_as("rar").is_none());
    let dl = b.save_all_as("tar.xz").unwrap().unwrap();
    assert_eq!(dl.filename, "transfigure-output.tar.xz");
    assert_eq!(dl.mime, "application/x-xz");
    assert_eq!(&dl.data[..6], &[0xFD, 0x37, 0x7A, 0x58, 0x5A, 0x00]);
    let dl = b.save_all_as("7z").unwrap().unwrap();
    assert_eq!(dl.filename, "transfigure-output.7z");
    assert_eq!(dl.mime, "application/x-7z-compressed");
}

#[test]
fn batch_saved_file_of_converted_file() {
    let mut b = batch_of(&["a.png", "b.md"]);
    b.finish_conversion(1, Ok(b"<h1>".to_vec()), 3);
    assert!(b.saved_file(0).is_none());
    let (data, dl) = b.saved_file(1).unwrap();
    assert_eq!(data, b"<h1>".to_vec());
    assert_eq!(dl.filename, "b.html");
    assert_eq!(dl.mime, "text/html");
}
