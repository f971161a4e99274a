//! Archives of named byte entries: ZIP, tar.gz, tar.xz and 7z. The entries
//! go in in order, each under its name; the first failure ends the build
//! with a message that says at which step it came.
use vstd::prelude::*;
use std::io::Write;
use crate::text::{bytes_view, prefixed};

verus! {

/// A single file entry for archive creation.
pub struct ArchiveEntry {
    pub name: String,
    pub data: Vec<u8>,
}

/// The entries as (name, data) pairs.
pub open spec fn entry_views(es: Seq<ArchiveEntry>) -> Seq<(Seq<char>, Seq<u8>)> {
    es.map_values(|e: ArchiveEntry| (e.name@, e.data@))
}

// ── ZIP ─────────────────────────────────────────────────────────

/// How the data of a ZIP entry is stored.
#[derive(Clone, Copy, PartialEq, Eq, Structural)]
pub enum ZipMethod {
    Stored,
    Deflated,
}

/// A ZIP archive being written into memory by `zip::ZipWriter`. The writer's
/// trait bounds keep Verus from reading its type, so it stays behind this
/// struct.
#[verifier::external_body]
pub struct ZipBuild {
    writer: zip::ZipWriter<std::io::Cursor<Vec<u8>>>,
}

/// The entries started so far in a ZIP build: name, whether the data is
/// deflated, and the data written to it.
pub uninterp spec fn zip_entries_of(b: ZipBuild) -> Seq<(Seq<char>, bool, Seq<u8>)>;

/// The display text of the error with which `ZipWriter::start_file` refuses
/// to start an entry `name` (deflated or stored) after the entries `done`,
/// or `None` where it starts it.
pub uninterp spec fn zip_start_error(done: Seq<(Seq<char>, bool, Seq<u8>)>, name: Seq<char>, deflated: bool) -> Option<Seq<char>>;

/// The display text of the error with which writing `data` to the last entry
/// of `done` fails, or `None` where it is written.
pub uninterp spec fn zip_write_error(done: Seq<(Seq<char>, bool, Seq<u8>)>, data: Seq<u8>) -> Option<Seq<char>>;

/// What `ZipWriter::finish` gives after the entries `done`: the bytes of the
/// archive, or the display text of its error.
pub uninterp spec fn zip_finish(done: Seq<(Seq<char>, bool, Seq<u8>)>) -> Result<Seq<u8>, Seq<char>>;

/// Calls `zip::ZipWriter::new` on an empty in-memory cursor: no entry is
/// started yet.
#[verifier::external_body]
fn zip_build_new() -> (r: ZipBuild)
    ensures
        zip_entries_of(r) == Seq::<(Seq<char>, bool, Seq<u8>)>::empty(),
{
    ZipBuild { writer: zip::ZipWriter::new(std::io::Cursor::new(Vec::new())) }
}

/// Calls `zip::ZipWriter::start_file` with `SimpleFileOptions` whose
/// compression method is the one asked for.
#[verifier::external_body]
fn zip_start_file(b: &mut ZipBuild, name: &str, method: ZipMethod) -> (r: Result<(), String>)
    ensures
        r is Ok <==> zip_start_error(zip_entries_of(*old(b)), name@, method == ZipMethod::Deflated) is None,
        r matches Err(m) ==> zip_start_error(zip_entries_of(*old(b)), name@, method == ZipMethod::Deflated) == Some(m@),
        r is Ok ==> zip_entries_of(*final(b)) == zip_entries_of(*old(b)).push((name@, method == ZipMethod::Deflated, Seq::empty())),
{
    let compression = match method {
        ZipMethod::Stored => zip::CompressionMethod::Stored,
        ZipMethod::Deflated => zip::CompressionMethod::Deflated,
    };
    let options = zip::write::SimpleFileOptions::default().compression_method(compression);
    b.writer.start_file(name, options).map_err(|e| e.to_string())
}

/// Calls `Write::write_all` on the ZIP writer, which writes into the entry
/// started last; an entry must have been started.
#[verifier::external_body]
fn zip_write_data(b: &mut ZipBuild, data: &[u8]) -> (r: Result<(), String>)
    requires
        zip_entries_of(*old(b)).len() > 0,
    ensures
        r is Ok <==> zip_write_error(zip_entries_of(*old(b)), data@) is None,
        r matches Err(m) ==> zip_write_error(zip_entries_of(*old(b)), data@) == Some(m@),
        r is Ok ==> zip_entries_of(*final(b)) == zip_entries_of(*old(b)).drop_last().push(
            (zip_entries_of(*old(b)).last().0, zip_entries_of(*old(b)).last().1, zip_entries_of(*old(b)).last().2 + data@),
        ),
{
    b.writer.write_all(data).map_err(|e| e.to_string())
}

/// Calls `zip::ZipWriter::finish` and takes the bytes out of the cursor.
#[verifier::external_body]
fn zip_finish_bytes(b: ZipBuild) -> (r: Result<Vec<u8>, String>)
    ensures
        bytes_view(r) == zip_finish(zip_entries_of(b)),
{
    b.writer.finish().map(|c| c.into_inner()).map_err(|e| e.to_string())
}

/// The entries as they stand in the ZIP writer: each deflated.
pub open spec fn zip_written(es: Seq<(Seq<char>, Seq<u8>)>) -> Seq<(Seq<char>, bool, Seq<u8>)> {
    es.map_values(|e: (Seq<char>, Seq<u8>)| (e.0, true, e.1))
}

/// The first failure in writing the first `n` entries, with its message.
pub open spec fn zip_failure(es: Seq<(Seq<char>, Seq<u8>)>, n: nat) -> Option<Seq<char>>
    decreases n,
{
    if n == 0 {
        None
    } else {
        match zip_failure(es, (n - 1) as nat) {
            Some(m) => Some(m),
            None => {
                let done = zip_written(es.take(n - 1));
                match zip_start_error(done, es[n - 1].0, true) {
                    Some(m) => Some("zip error: "@ + m),
                    None => match zip_write_error(done.push((es[n - 1].0, true, Seq::empty())), es[n - 1].1) {
                        Some(m) => Some("zip write error: "@ + m),
                        None => None,
                    },
                }
            },
        }
    }
}

/// The result of building a ZIP archive of the entries.
pub open spec fn zip_result(es: Seq<(Seq<char>, Seq<u8>)>) -> Result<Seq<u8>, Seq<char>> {
    match zip_failure(es, es.len()) {
        Some(m) => Err(m),
        None => match zip_finish(zip_written(es)) {
            Ok(b) => Ok(b),
            Err(m) => Err("zip finish error: "@ + m),
        },
    }
}

/// A failure among the first `k` entries is the failure of the whole build.
proof fn lemma_zip_failure_stays(es: Seq<(Seq<char>, Seq<u8>)>, k: nat, n: nat)
    requires
        k <= n,
        zip_failure(es, k) is Some,
    ensures
        zip_failure(es, n) == zip_failure(es, k),
    decreases n - k,
{
    if k < n {
        lemma_zip_failure_stays(es, k, (n - 1) as nat);
    }
}

/// Create a ZIP archive from the given entries, each deflated.
pub fn create_zip(entries: &[ArchiveEntry]) -> (r: Result<Vec<u8>, String>)
    ensures
        bytes_view(r) == zip_result(entry_views(entries@)),
{
    let ghost es = entry_views(entries@);
    let mut b = zip_build_new();
    let mut i: usize = 0;
    while i < entries.len()
        invariant
            i <= entries.len(),
            es == entry_views(entries@),
            zip_failure(es, i as nat) is None,
            zip_entries_of(b) == zip_written(es.take(i as int)),
        decreases entries.len() - i,
    {
        let entry = &entries[i];
        let ghost done = zip_entries_of(b);
        match zip_start_file(&mut b, entry.name.as_str(), ZipMethod::Deflated) {
            Ok(()) => {},
            Err(m) => {
                proof {
                    assert(es[i as int] == (entry.name@, entry.data@));
                    assert(zip_failure(es, (i + 1) as nat) == Some("zip error: "@ + m@));
                    lemma_zip_failure_stays(es, (i + 1) as nat, es.len());
                }
                return Err(prefixed("zip error: ", &m));
            },
        }
        match zip_write_data(&mut b, entry.data.as_slice()) {
            Ok(()) => {},
            Err(m) => {
                proof {
                    assert(es[i as int] == (entry.name@, entry.data@));
                    assert(zip_failure(es, (i + 1) as nat) == Some("zip write error: "@ + m@));
                    lemma_zip_failure_stays(es, (i + 1) as nat, es.len());
                }
                return Err(prefixed("zip write error: ", &m));
            },
        }
        assert(es.take(i as int + 1).take(i as int) =~= es.take(i as int));
        assert(zip_entries_of(b) =~= zip_written(es.take(i as int + 1)));
        i = i + 1;
    }
    assert(es.take(entries.len() as int) =~= es);
    match zip_finish_bytes(b) {
        Ok(bytes) => Ok(bytes),
        Err(m) => Err(prefixed("zip finish error: ", &m)),
    }
}

// ── tar, tar.gz, tar.xz ─────────────────────────────────────────

/// The permission bits that every entry of a tar archive gets: `rw-r--r--`.
pub open spec fn tar_mode() -> u32 {
    0o644
}

/// A tar stream being written into memory by `tar::Builder`. The builder's
/// trait bounds keep Verus from reading its type, so it stays behind this
/// struct.
#[verifier::external_body]
pub struct TarBuild {
    builder: tar::Builder<Vec<u8>>,
}

/// The entries appended so far to a tar build: name, data and mode.
pub uninterp spec fn tar_entries_of(b: TarBuild) -> Seq<(Seq<char>, Seq<u8>, u32)>;

/// The display text of the error with which `tar::Builder::append_data`
/// refuses to append `name` with `data` and a GNU header of mode `mode`
/// after the entries `done`, or `None` where it appends it.
pub uninterp spec fn tar_append_error(done: Seq<(Seq<char>, Seq<u8>, u32)>, name: Seq<char>, data: Seq<u8>, mode: u32) -> Option<Seq<char>>;

/// What `tar::Builder::into_inner` gives after the entries `done`: the bytes
/// of the tar stream, or the display text of its error.
pub uninterp spec fn tar_finish(done: Seq<(Seq<char>, Seq<u8>, u32)>) -> Result<Seq<u8>, Seq<char>>;

/// What a `flate2::write::GzEncoder` at compression level `level` gives for
/// `data` written into it and finished: the gzip bytes, or the display text
/// of the error.
pub uninterp spec fn gzip_result(data: Seq<u8>, level: u32) -> Result<Seq<u8>, Seq<char>>;

/// What `lzma_rs::xz_compress` writes for `data`: the xz bytes, or the
/// display text of its error.
pub uninterp spec fn xz_result(data: Seq<u8>) -> Result<Seq<u8>, Seq<char>>;

/// Calls `tar::Builder::new` on an empty vector: nothing is appended yet.
#[verifier::external_body]
fn tar_build_new() -> (r: TarBuild)
    ensures
        tar_entries_of(r) == Seq::<(Seq<char>, Seq<u8>, u32)>::empty(),
{
    TarBuild { builder: tar::Builder::new(Vec::new()) }
}

/// Makes a `tar::Header::new_gnu` for the data, with its size and the given
/// mode and checksum set (`set_size`, `set_mode`, `set_cksum`), and calls
/// `tar::Builder::append_data` with it, the name and the data.
#[verifier::external_body]
fn tar_append(b: &mut TarBuild, name: &str, data: &[u8], mode: u32) -> (r: Result<(), String>)
    ensures
        r is Ok <==> tar_append_error(tar_entries_of(*old(b)), name@, data@, mode) is None,
        r matches Err(m) ==> tar_append_error(tar_entries_of(*old(b)), name@, data@, mode) == Some(m@),
        r is Ok ==> tar_entries_of(*final(b)) == tar_entries_of(*old(b)).push((name@, data@, mode)),
{
    let mut header = tar::Header::new_gnu();
    header.set_size(data.len() as u64);
    header.set_mode(mode);
    header.set_cksum();
    b.builder.append_data(&mut header, name, data).map_err(|e| e.to_string())
}

/// Calls `tar::Builder::into_inner`, which ends the stream.
#[verifier::external_body]
fn tar_into_bytes(b: TarBuild) -> (r: Result<Vec<u8>, String>)
    ensures
        bytes_view(r) == tar_finish(tar_entries_of(b)),
{
    b.builder.into_inner().map_err(|e| e.to_string())
}

/// Writes the data into a `flate2::write::GzEncoder` over an empty vector at
/// `flate2::Compression::new(level)` and calls `GzEncoder::finish`.
#[verifier::external_body]
fn gzip_compress(data: &[u8], level: u32) -> (r: Result<Vec<u8>, String>)
    ensures
        bytes_view(r) == gzip_result(data@, level),
{
    let mut encoder = flate2::write::GzEncoder::new(Vec::new(), flate2::Compression::new(level));
    match encoder.write_all(data) {
        Ok(()) => encoder.finish().map_err(|e| e.to_string()),
        Err(e) => Err(e.to_string()),
    }
}

/// Calls `lzma_rs::xz_compress` from the data into an empty vector.
#[verifier::external_body]
fn xz_compress(data: &[u8]) -> (r: Result<Vec<u8>, String>)
    ensures
        bytes_view(r) == xz_result(data@),
{
    let mut out = Vec::new();
    match lzma_rs::xz_compress(&mut std::io::Cursor::new(data), &mut out) {
        Ok(()) => Ok(out),
        Err(e) => Err(e.to_string()),
    }
}

/// The entries as they stand in the tar builder: each with mode `mode`.
pub open spec fn tar_written(es: Seq<(Seq<char>, Seq<u8>)>, mode: u32) -> Seq<(Seq<char>, Seq<u8>, u32)> {
    es.map_values(|e: (Seq<char>, Seq<u8>)| (e.0, e.1, mode))
}

/// The first failure in appending the first `n` entries, with its message.
pub open spec fn tar_failure(es: Seq<(Seq<char>, Seq<u8>)>, mode: u32, n: nat) -> Option<Seq<char>>
    decreases n,
{
    if n == 0 {
        None
    } else {
        match tar_failure(es, mode, (n - 1) as nat) {
            Some(m) => Some(m),
            None => match tar_append_error(tar_written(es.take(n - 1), mode), es[n - 1].0, es[n - 1].1, mode) {
                Some(m) => Some("tar error: "@ + m),
                None => None,
            },
        }
    }
}

/// The result of writing the entries as a tar stream.
pub open spec fn tar_result(es: Seq<(Seq<char>, Seq<u8>)>, mode: u32) -> Result<Seq<u8>, Seq<char>> {
    match tar_failure(es, mode, es.len()) {
        Some(m) => Err(m),
        None => match tar_finish(tar_written(es, mode)) {
            Ok(b) => Ok(b),
            Err(m) => Err("tar finish error: "@ + m),
        },
    }
}

/// The result of building a tar.gz archive of the entries.
pub open spec fn tar_gz_result(es: Seq<(Seq<char>, Seq<u8>)>) -> Result<Seq<u8>, Seq<char>> {
    match tar_result(es, tar_mode()) {
        Ok(t) => match gzip_result(t, 6) {
            Ok(z) => Ok(z),
            Err(m) => Err("gzip finish error: "@ + m),
        },
        Err(m) => Err(m),
    }
}

/// The result of building a tar.xz archive of the entries.
pub open spec fn tar_xz_result(es: Seq<(Seq<char>, Seq<u8>)>) -> Result<Seq<u8>, Seq<char>> {
    match tar_result(es, tar_mode()) {
        Ok(t) => match xz_result(t) {
            Ok(z) => Ok(z),
            Err(m) => Err("xz compress error: "@ + m),
        },
        Err(m) => Err(m),
    }
}

proof fn lemma_tar_failure_stays(es: Seq<(Seq<char>, Seq<u8>)>, mode: u32, k: nat, n: nat)
    requires
        k <= n,
        tar_failure(es, mode, k) is Some,
    ensures
        tar_failure(es, mode, n) == tar_failure(es, mode, k),
    decreases n - k,
{
    if k < n {
        lemma_tar_failure_stays(es, mode, k, (n - 1) as nat);
    }
}

/// The entries as an uncompressed tar stream, each with GNU headers of mode
/// `mode`.
pub fn build_tar(entries: &[ArchiveEntry], mode: u32) -> (r: Result<Vec<u8>, String>)
    ensures
        bytes_view(r) == tar_result(entry_views(entries@), mode),
{
    let ghost es = entry_views(entries@);
    let mut b = tar_build_new();
    let mut i: usize = 0;
    while i < entries.len()
        invariant
            i <= entries.len(),
            es == entry_views(entries@),
            tar_failure(es, mode, i as nat) is None,
            tar_entries_of(b) == tar_written(es.take(i as int), mode),
        decreases entries.len() - i,
    {
        let entry = &entries[i];
        match tar_append(&mut b, entry.name.as_str(), entry.data.as_slice(), mode) {
            Ok(()) => {},
            Err(m) => {
                proof {
                    assert(es[i as int] == (entry.name@, entry.data@));
                    assert(tar_failure(es, mode, (i + 1) as nat) == Some("tar error: "@ + m@));
                    lemma_tar_failure_stays(es, mode, (i + 1) as nat, es.len());
                }
                return Err(prefixed("tar error: ", &m));
            },
        }
        assert(es.take(i as int + 1).take(i as int) =~= es.take(i as int));
        assert(tar_entries_of(b) =~= tar_written(es.take(i as int + 1), mode));
        i = i + 1;
    }
    assert(es.take(entries.len() as int) =~= es);
    match tar_into_bytes(b) {
        Ok(bytes) => Ok(bytes),
        Err(m) => Err(prefixed("tar finish error: ", &m)),
    }
}

/// Create a tar.gz archive from the given entries.
pub fn create_tar_gz(entries: &[ArchiveEntry]) -> (r: Result<Vec<u8>, String>)
    ensures
        bytes_view(r) == tar_gz_result(entry_views(entries@)),
{
    let tar_bytes = build_tar(entries, 0o644)?;
    match gzip_compress(&tar_bytes, 6) {
        Ok(z) => Ok(z),
        Err(m) => Err(prefixed("gzip finish error: ", &m)),
    }
}

/// Create a tar.xz archive from the given entries.
pub fn create_tar_xz(entries: &[ArchiveEntry]) -> (r: Result<Vec<u8>, String>)
    ensures
        bytes_view(r) == tar_xz_result(entry_views(entries@)),
{
    let tar_bytes = build_tar(entries, 0o644)?;
    match xz_compress(&tar_bytes) {
        Ok(z) => Ok(z),
        Err(m) => Err(prefixed("xz compress error: ", &m)),
    }
}

// ── 7z ──────────────────────────────────────────────────────────

/// A 7z archive being written into memory by `sevenz_rust2::ArchiveWriter`.
/// The writer's trait bounds keep Verus from reading its type, so it stays
/// behind this struct.
#[verifier::external_body]
pub struct SevenZBuild {
    writer: sevenz_rust2::ArchiveWriter<std::io::Cursor<Vec<u8>>>,
}

/// The file entries pushed so far to a 7z build: name and data.
pub uninterp spec fn sevenz_entries_of(b: SevenZBuild) -> Seq<(Seq<char>, Seq<u8>)>;

/// The display text of the error with which `ArchiveWriter::new` refuses a
/// cursor over `out`, or `None` where it accepts it.
pub uninterp spec fn sevenz_new_error(out: Seq<u8>) -> Option<Seq<char>>;

/// The display text of the error with which
/// `ArchiveWriter::push_archive_entry` refuses a file entry `name` with
/// `data` after the entries `done`, or `None` where it takes it.
pub uninterp spec fn sevenz_push_error(done: Seq<(Seq<char>, Seq<u8>)>, name: Seq<char>, data: Seq<u8>) -> Option<Seq<char>>;

/// What `ArchiveWriter::finish` gives after the entries `done`: the bytes of
/// the archive, or the display text of its error.
pub uninterp spec fn sevenz_finish(done: Seq<(Seq<char>, Seq<u8>)>) -> Result<Seq<u8>, Seq<char>>;

/// Calls `sevenz_rust2::ArchiveWriter::new` on a cursor over `out`.
#[verifier::external_body]
fn sevenz_build_new(out: Vec<u8>) -> (r: Result<SevenZBuild, String>)
    ensures
        r is Ok <==> sevenz_new_error(out@) is None,
        r matches Ok(b) ==> sevenz_entries_of(b) == Seq::<(Seq<char>, Seq<u8>)>::empty(),
        r matches Err(m) ==> sevenz_new_error(out@) == Some(m@),
{
    match sevenz_rust2::ArchiveWriter::new(std::io::Cursor::new(out)) {
        Ok(writer) => Ok(SevenZBuild { writer }),
        Err(e) => Err(e.to_string()),
    }
}

/// Calls `ArchiveWriter::push_archive_entry` with
/// `sevenz_rust2::ArchiveEntry::new_file(name)` and the data as its reader.
#[verifier::external_body]
fn sevenz_push(b: &mut SevenZBuild, name: &str, data: &[u8]) -> (r: Result<(), String>)
    ensures
        r is Ok <==> sevenz_push_error(sevenz_entries_of(*old(b)), name@, data@) is None,
        r matches Err(m) ==> sevenz_push_error(sevenz_entries_of(*old(b)), name@, data@) == Some(m@),
        r is Ok ==> sevenz_entries_of(*final(b)) == sevenz_entries_of(*old(b)).push((name@, data@)),
{
    match b.writer.push_archive_entry(sevenz_rust2::ArchiveEntry::new_file(name), Some(data)) {
        Ok(_) => Ok(()),
        Err(e) => Err(e.to_string()),
    }
}

/// Calls `ArchiveWriter::finish` and takes the bytes out of the cursor.
#[verifier::external_body]
fn sevenz_finish_bytes(b: SevenZBuild) -> (r: Result<Vec<u8>, String>)
    ensures
        bytes_view(r) == sevenz_finish(sevenz_entries_of(b)),
{
    b.writer.finish().map(|c| c.into_inner()).map_err(|e| e.to_string())
}

/// The first failure in pushing the first `n` entries, with its message.
pub open spec fn sevenz_failure(es: Seq<(Seq<char>, Seq<u8>)>, n: nat) -> Option<Seq<char>>
    decreases n,
{
    if n == 0 {
        None
    } else {
        match sevenz_failure(es, (n - 1) as nat) {
            Some(m) => Some(m),
            None => match sevenz_push_error(es.take(n - 1), es[n - 1].0, es[n - 1].1) {
                Some(m) => Some("7z error: "@ + m),
                None => None,
            },
        }
    }
}

/// The result of building a 7z archive of the entries.
pub open spec fn sevenz_result(es: Seq<(Seq<char>, Seq<u8>)>) -> Result<Seq<u8>, Seq<char>> {
    match sevenz_new_error(Seq::empty()) {
        Some(m) => Err("7z error: "@ + m),
        None => match sevenz_failure(es, es.len()) {
            Some(m) => Err(m),
            None => match sevenz_finish(es) {
                Ok(b) => Ok(b),
                Err(m) => Err("7z finish error: "@ + m),
            },
        },
    }
}

proof fn lemma_sevenz_failure_stays(es: Seq<(Seq<char>, Seq<u8>)>, k: nat, n: nat)
    requires
        k <= n,
        sevenz_failure(es, k) is Some,
    ensures
        sevenz_failure(es, n) == sevenz_failure(es, k),
    decreases n - k,
{
    if k < n {
        lemma_sevenz_failure_stays(es, k, (n - 1) as nat);
    }
}

/// Create a 7z archive from the given entries, each a file compressed with
/// the writer's default method.
pub fn create_7z(entries: &[ArchiveEntry]) -> (r: Result<Vec<u8>, String>)
    ensures
        bytes_view(r) == sevenz_result(entry_views(entries@)),
{
    let ghost es = entry_views(entries@);
    let out: Vec<u8> = Vec::new();
    assert(out@ =~= Seq::<u8>::empty());
    let mut b = match sevenz_build_new(out) {
        Ok(b) => b,
        Err(m) => return Err(prefixed("7z error: ", &m)),
    };
    let mut i: usize = 0;
    while i < entries.len()
        invariant
            i <= entries.len(),
            es == entry_views(entries@),
            sevenz_new_error(Seq::empty()) is None,
            sevenz_failure(es, i as nat) is None,
            sevenz_entries_of(b) == es.take(i as int),
        decreases entries.len() - i,
    {
        let entry = &entries[i];
        match sevenz_push(&mut b, entry.name.as_str(), entry.data.as_slice()) {
            Ok(()) => {},
            Err(m) => {
                proof {
                    assert(es[i as int] == (entry.name@, entry.data@));
                    assert(sevenz_failure(es, (i + 1) as nat) == Some("7z error: "@ + m@));
                    lemma_sevenz_failure_stays(es, (i + 1) as nat, es.len());
                }
                return Err(prefixed("7z error: ", &m));
            },
        }
        assert(es.take(i as int + 1).take(i as int) =~= es.take(i as int));
        assert(sevenz_entries_of(b) =~= es.take(i as int + 1));
        i = i + 1;
    }
    assert(es.take(entries.len() as int) =~= es);
    match sevenz_finish_bytes(b) {
        Ok(bytes) => Ok(bytes),
        Err(m) => Err(prefixed("7z finish error: ", &m)),
    }
}

} // verus!
