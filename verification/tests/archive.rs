use converter::archive::{create_7z, create_tar_gz, create_tar_xz, create_zip, ArchiveEntry};

#[test]
fn archive_zip_roundtrip() {
    let entries = vec![
        ArchiveEntry { name: "hello.txt".into(), data: b"Hello".to_vec() },
        ArchiveEntry { name: "world.txt".into(), data: b"World".to_vec() },
    ];
    let zip_data = create_zip(&entries).unwrap();
    assert_eq!(&zip_data[..4], b"PK\x03\x04");

    let reader = std::io::Cursor::new(&zip_data);
    let mut zip = zip::ZipArchive::new(reader).unwrap();
    assert_eq!(zip.len(), 2);

    let mut file = zip.by_name("hello.txt").unwrap();
    let mut contents = String::new();
    std::io::Read::read_to_string(&mut file, &mut contents).unwrap();
    assert_eq!(contents, "Hello");
}

#[test]
fn archive_tar_gz_roundtrip() {
    let entries = vec![ArchiveEntry { name: "test.txt".into(), data: b"test content".to_vec() }];
    let data = create_tar_gz(&entries).unwrap();
    assert_eq!(&data[..2], &[0x1f, 0x8b]);

    let decoder = flate2::read::GzDecoder::new(std::io::Cursor::new(&data));
    let mut tar = tar::Archive::new(decoder);
    let entries: Vec<_> = tar.entries().unwrap().collect();
    assert_eq!(entries.len(), 1);
}

#[test]
fn archive_tar_xz() {
    let entries = vec![ArchiveEntry { name: "file.bin".into(), data: vec![1, 2, 3, 4, 5] }];
    let data = create_tar_xz(&entries).unwrap();
    assert_eq!(&data[..6], &[0xFD, 0x37, 0x7A, 0x58, 0x5A, 0x00]);
}

#[test]
fn archive_7z() {
    let entries = vec![
        ArchiveEntry { name: "a.txt".into(), data: b"alpha".to_vec() },
        ArchiveEntry { name: "b.txt".into(), data: b"bravo".to_vec() },
    ];
    let data = create_7z(&entries).unwrap();
    assert_eq!(&data[..6], &[0x37, 0x7A, 0xBC, 0xAF, 0x27, 0x1C]);
}

#[test]
fn archive_empty_entries() {
    let entries: Vec<ArchiveEntry> = vec![];
    assert!(create_zip(&entries).is_ok());
    assert!(create_tar_gz(&entries).is_ok());
    assert!(create_tar_xz(&entries).is_ok());
    assert!(create_7z(&entries).is_ok());
}

#[test]
fn archive_large_file() {
    let entries = vec![ArchiveEntry { name: "big.bin".into(), data: vec![0xAB; 100_000] }];
    assert!(create_zip(&entries).is_ok());
    assert!(create_7z(&entries).is_ok());
}

#[test]
fn archive_tar_keeps_names_data_and_mode() {
    let entries = vec![
        ArchiveEntry { name: "one.txt".into(), data: b"first".to_vec() },
        ArchiveEntry { name: "two.txt".into(), data: b"second".to_vec() },
    ];
    let data = create_tar_gz(&entries).unwrap();
    let decoder = flate2::read::GzDecoder::new(std::io::Cursor::new(&data));
    let mut tar = tar::Archive::new(decoder);
    let mut seen = Vec::new();
    for entry in tar.entries().unwrap() {
        let mut entry = entry.unwrap();
        let name = entry.path().unwrap().to_string_lossy().to_string();
        let mode = entry.header().mode().unwrap();
        let mut body = String::new();
        std::io::Read::read_to_string(&mut entry, &mut body).unwrap();
        seen.push((name, mode, body));
    }
    assert_eq!(
        seen,
        vec![
            ("one.txt".to_string(), 0o644, "first".to_string()),
            ("two.txt".to_string(), 0o644, "second".to_string()),
        ]
    );
}

#[test]
fn archive_zip_refuses_a_repeated_name() {
    let entries = vec![
        ArchiveEntry { name: "same.txt".into(), data: b"a".to_vec() },
        ArchiveEntry { name: "same.txt".into(), data: b"b".to_vec() },
    ];
    let err = create_zip(&entries).unwrap_err();
    assert!(err.starts_with("zip error: "), "unexpected error: {err}");
}

#[test]
fn archive_zip_entries_are_deflated() {
    let entries = vec![ArchiveEntry { name: "z.txt".into(), data: vec![b'z'; 1000] }];
    let data = create_zip(&entries).unwrap();
    let mut zip = zip::ZipArchive::new(std::io::Cursor::new(&data)).unwrap();
    let file = zip.by_index(0).unwrap();
    assert_eq!(file.compression(), zip::CompressionMethod::Deflated);
}
