//! A batch of files on the converter's workbench: adding and removing files,
//! choosing their targets, the queue of conversions and what the controls
//! show.
use vstd::prelude::*;
use crate::archive::{
    create_7z, create_tar_gz, create_tar_xz, create_zip, entry_views, sevenz_result,
    tar_gz_result, tar_xz_result, zip_result, ArchiveEntry,
};
use crate::display::{
    download_blob, make_output_name, mime_type, output_name, BatchFile, Download, FileStatus,
};
use crate::pdf_text::{dec, dec_chars};
use crate::text::{extend_chars, push_str};
use crate::formats::{detect_format, detected_format, get_output_formats, output_formats};
use crate::text::{eq_str, str_chars, string_from_chars, unicode_lowercase};

verus! {

/// The files of a batch, in the order they were added, and the id the next
/// added file gets.
pub struct Batch {
    files: Vec<BatchFile>,
    next_id: usize,
}

/// Ids grow along the list.
pub open spec fn ids_increasing(files: Seq<BatchFile>) -> bool {
    forall|i: int, j: int| 0 <= i < j < files.len() ==> files[i].id < files[j].id
}

/// The extension a file's name is detected as, or nothing.
pub open spec fn ext_of(name: Seq<char>) -> Seq<char> {
    match detected_format(name) {
        Some(e) => e,
        None => Seq::empty(),
    }
}

/// The output formats offered for an extension, as text.
pub open spec fn offered(ext: Seq<char>) -> Seq<Seq<char>> {
    output_formats(unicode_lowercase(ext)).map_values(|s: &'static str| s@)
}

/// The target a new file starts with: the first format offered.
pub open spec fn default_target(ext: Seq<char>) -> Option<Seq<char>> {
    if offered(ext).len() > 0 {
        Some(offered(ext)[0])
    } else {
        None
    }
}

/// A target seen as text.
pub open spec fn target_view(t: Option<String>) -> Option<Seq<char>> {
    match t {
        Some(s) => Some(s@),
        None => None,
    }
}

/// `f` is the file a batch makes of `name` and `bytes` under `id`.
pub open spec fn is_new_entry(f: BatchFile, name: Seq<char>, bytes: Seq<u8>, id: nat) -> bool {
    &&& f.id == id
    &&& f.name@ == name
    &&& f.bytes@ == bytes
    &&& f.extension@ == ext_of(name)
    &&& f.size == bytes.len()
    &&& target_view(f.target) == default_target(ext_of(name))
    &&& f.status is Pending
}

/// `g` is `f` with the target `t`; a finished file is queued again.
pub open spec fn is_retargeted(g: BatchFile, f: BatchFile, t: Seq<char>) -> bool {
    &&& g.id == f.id
    &&& g.name == f.name
    &&& g.bytes == f.bytes
    &&& g.extension == f.extension
    &&& g.size == f.size
    &&& target_view(g.target) == Some(t)
    &&& g.status == if f.status.finished() {
        FileStatus::Pending
    } else {
        f.status
    }
}

impl Batch {
    /// The files, in order.
    pub closed spec fn entries(&self) -> Seq<BatchFile> {
        self.files@
    }

    /// The id the next added file gets.
    pub closed spec fn next(&self) -> nat {
        self.next_id as nat
    }

    /// Ids grow along the list and stay below the next id.
    pub open spec fn wf(&self) -> bool {
        &&& ids_increasing(self.entries())
        &&& forall|i: int| 0 <= i < self.entries().len() ==> #[trigger] self.entries()[i].id < self.next()
    }

    /// An empty batch.
    pub fn new() -> (r: Batch)
        ensures
            r.wf(),
            r.entries() == Seq::<BatchFile>::empty(),
            r.next() == 0,
    {
        Batch { files: Vec::new(), next_id: 0 }
    }

    /// The files, in order.
    pub fn files(&self) -> (r: &Vec<BatchFile>)
        ensures
            r@ == self.entries(),
    {
        &self.files
    }

    /// The id the next added file gets.
    pub fn next_id(&self) -> (r: usize)
        ensures
            r == self.next(),
    {
        self.next_id
    }

    /// Adds files by name and content: each gets the next id, the extension
    /// detected from its name, its size, the first offered target and
    /// `Pending`.
    pub fn add_files(&mut self, new_files: Vec<(String, Vec<u8>)>)
        requires
            old(self).wf(),
            old(self).next() + new_files.len() <= usize::MAX,
        ensures
            final(self).wf(),
            final(self).next() == old(self).next() + new_files.len(),
            final(self).entries().len() == old(self).entries().len() + new_files.len(),
            final(self).entries().take(old(self).entries().len() as int) == old(self).entries(),
            forall|j: int| 0 <= j < new_files.len() ==> is_new_entry(
                #[trigger] final(self).entries()[old(self).entries().len() + j],
                new_files@[j].0@,
                new_files@[j].1@,
                (old(self).next() + j) as nat,
            ),
    {
        let ghost start = self.files@;
        let ghost start_next = self.next_id as nat;
        let n = new_files.len();
        let mut rest = new_files;
        let ghost all = rest@;
        let mut k: usize = 0;
        while k < n
            invariant
                k <= n == all.len(),
                rest@ == all.skip(k as int),
                start_next + n <= usize::MAX,
                self.next_id == start_next + k,
                self.files@.len() == start.len() + k,
                self.files@.take(start.len() as int) == start,
                ids_increasing(self.files@),
                forall|i: int| 0 <= i < self.files@.len() ==> #[trigger] self.files@[i].id < self.next_id,
                forall|j: int| 0 <= j < k ==> is_new_entry(
                    #[trigger] self.files@[start.len() + j],
                    all[j].0@,
                    all[j].1@,
                    (start_next + j) as nat,
                ),
            decreases n - k,
        {
            let (name, bytes) = rest.remove(0);
            assert(rest@ =~= all.skip(k as int + 1));
            let size = bytes.len();
            let ext = match detect_format(name.as_str()) {
                Some(e) => e,
                None => string_from_chars(&Vec::new()),
            };
            assert(ext@ == ext_of(name@));
            let formats = get_output_formats(ext.as_str());
            let target = if formats.len() > 0 {
                Some(string_from_chars(&str_chars(formats[0])))
            } else {
                None
            };
            assert(formats@.map_values(|s: &'static str| s@) =~= offered(ext@));
            let id = self.next_id;
            self.next_id = id + 1;
            let ghost before = self.files@;
            self.files.push(BatchFile { id, name, bytes, extension: ext, size, target, status: FileStatus::Pending });
            assert(self.files@.take(start.len() as int) =~= before.take(start.len() as int));
            assert(self.files@[start.len() + k as int] == self.files@.last());
            k = k + 1;
        }
    }

    /// Removes the file with id `id`; the others keep their order.
    pub fn remove_file(&mut self, id: usize)
        requires
            old(self).wf(),
        ensures
            final(self).wf(),
            final(self).next() == old(self).next(),
            final(self).entries() == old(self).entries().filter(|f: BatchFile| f.id != id),
    {
        let ghost start = self.files@;
        let ghost start_next = self.next_id;
        let ghost keep = |f: BatchFile| f.id != id;
        let total = self.files.len();
        assert(start.len() == total);
        let mut i: usize = 0;
        let mut seen: usize = 0;
        assert(start.take(0).filter(keep) =~= Seq::<BatchFile>::empty()) by {
            reveal_with_fuel(Seq::<BatchFile>::filter, 1);
        }
        while i < self.files.len()
            invariant
                i <= self.files@.len(),
                seen <= start.len(),
                self.files@.len() - i == start.len() - seen,
                start.len() <= usize::MAX,
                self.next_id == start_next,
                keep == (|f: BatchFile| f.id != id),
                self.files@.take(i as int) == start.take(seen as int).filter(keep),
                self.files@.skip(i as int) == start.skip(seen as int),
                ids_increasing(self.files@),
                forall|j: int| 0 <= j < self.files@.len() ==> #[trigger] self.files@[j].id < self.next_id,
            decreases self.files@.len() - i,
        {
            let ghost before = self.files@;
            proof {
                assert(start.take(seen as int + 1).drop_last() =~= start.take(seen as int));
                assert(start[seen as int] == before.skip(i as int)[0]);
                assert(before.skip(i as int)[0] == before[i as int]);
                reveal_with_fuel(Seq::<BatchFile>::filter, 1);
                assert(start.take(seen as int + 1).last() == start[seen as int]);
                assert(start.take(seen as int + 1).filter(keep) == if keep(start[seen as int]) {
                    start.take(seen as int).filter(keep).push(start[seen as int])
                } else {
                    start.take(seen as int).filter(keep)
                });
            }
            if self.files[i].id == id {
                assert(!keep(start[seen as int]));
                let _gone = self.files.remove(i);
                assert(self.files@.take(i as int) =~= before.take(i as int));
                assert(forall|a: int| 0 <= a < self.files@.len() ==> #[trigger] self.files@[a] == if a < i {
                    before[a]
                } else {
                    before[a + 1]
                });
                assert(self.files@.skip(i as int) =~= start.skip(seen as int + 1)) by {
                    assert(self.files@.skip(i as int) =~= before.skip(i as int).drop_first());
                    assert(start.skip(seen as int + 1) =~= start.skip(seen as int).drop_first());
                }
            } else {
                assert(keep(start[seen as int]));
                assert(self.files@.take(i as int + 1) =~= before.take(i as int).push(before[i as int]));
                assert(self.files@.skip(i as int + 1) =~= start.skip(seen as int + 1)) by {
                    assert(self.files@.skip(i as int + 1) =~= before.skip(i as int).drop_first());
                    assert(start.skip(seen as int + 1) =~= start.skip(seen as int).drop_first());
                }
                i = i + 1;
            }
            seen = seen + 1;
        }
        assert(self.files@.take(i as int) =~= self.files@);
        assert(start.take(seen as int) =~= start) by {
            assert(self.files@.skip(i as int).len() == 0);
        }
    }
}

/// A file that the next conversion run takes: it has a target and waits.
pub open spec fn convertible(f: BatchFile) -> bool {
    f.target is Some && f.status is Pending
}

/// Output formats that take a lossy quality setting.
pub open spec fn lossy_target(fmt: Seq<char>) -> bool {
    fmt == "jpg"@ || fmt == "jpeg"@ || fmt == "avif"@
}

/// Output formats that take a lossy quality setting.
pub fn is_lossy_target(fmt: &str) -> (r: bool)
    ensures
        r == lossy_target(fmt@),
{
    let f = str_chars(fmt);
    eq_str(&f, "jpg") || eq_str(&f, "jpeg") || eq_str(&f, "avif")
}

/// Whether the conversion button is live: some file waits with a target
/// and no run is going on.
pub open spec fn can_convert_spec(files: Seq<BatchFile>, converting: bool) -> bool {
    files.len() > 0 && (exists|i: int| 0 <= i < files.len() && convertible(#[trigger] files[i]))
        && !converting
}

/// Whether every file of a non-empty batch is finished.
pub open spec fn all_done_spec(files: Seq<BatchFile>) -> bool {
    files.len() > 0 && forall|i: int| 0 <= i < files.len() ==> (#[trigger] files[i]).status.finished()
}

/// The files converted successfully.
pub open spec fn done_files(files: Seq<BatchFile>) -> Seq<BatchFile> {
    files.filter(|f: BatchFile| f.status is Done)
}

/// A waiting file whose target is lossy.
pub open spec fn wants_quality(f: BatchFile) -> bool {
    f.status is Pending && match f.target {
        Some(t) => lossy_target(t@),
        None => false,
    }
}

/// Whether a waiting file targets a lossy format.
pub open spec fn show_quality_spec(files: Seq<BatchFile>) -> bool {
    exists|i: int| 0 <= i < files.len() && wants_quality(#[trigger] files[i])
}

/// The ids of the files a conversion run takes, in order.
pub open spec fn queue_of(files: Seq<BatchFile>) -> Seq<usize> {
    files.filter(|f: BatchFile| convertible(f)).map_values(|f: BatchFile| f.id)
}

impl Batch {
    /// Sets the target of the file with id `id`; a finished file is queued
    /// again so that it can be converted anew.
    pub fn set_target(&mut self, id: usize, target: String)
        requires
            old(self).wf(),
        ensures
            final(self).wf(),
            final(self).next() == old(self).next(),
            final(self).entries().len() == old(self).entries().len(),
            (forall|i: int| 0 <= i < old(self).entries().len() ==> old(self).entries()[i].id != id)
                ==> final(self).entries() == old(self).entries(),
            forall|i: int|
                0 <= i < old(self).entries().len() && old(self).entries()[i].id == id ==> {
                    &&& is_retargeted(final(self).entries()[i], old(self).entries()[i], target@)
                    &&& forall|j: int|
                        0 <= j < old(self).entries().len() && j != i ==> final(self).entries()[j]
                            == old(self).entries()[j]
                },
    {
        let mut i: usize = 0;
        while i < self.files.len()
            invariant
                i <= self.files@.len(),
                self.files@ == old(self).files@,
                self.next_id == old(self).next_id,
                old(self).wf(),
                forall|j: int| 0 <= j < i ==> self.files@[j].id != id,
            decreases self.files@.len() - i,
        {
            if self.files[i].id == id {
                let ghost before = self.files@;
                let f = self.files.remove(i);
                let BatchFile { id: fid, name, bytes, extension, size, target: _, status } = f;
                let finished = status.is_finished();
                let new_status = if finished {
                    FileStatus::Pending
                } else {
                    status
                };
                let ghost tv = target@;
                self.files.insert(i, BatchFile { id: fid, name, bytes, extension, size, target: Some(target), status: new_status });
                assert(self.files@ =~= before.update(i as int, self.files@[i as int]));
                assert(is_retargeted(self.files@[i as int], before[i as int], tv));
                assert forall|a: int| 0 <= a < before.len() && before[a].id == id implies a == i by {
                    if a > i {
                        assert(ids_increasing(before));
                        assert(before[i as int].id < before[a].id);
                    }
                }
                assert(forall|a: int| 0 <= a < self.files@.len() ==> #[trigger] self.files@[a].id == before[a].id);
                return;
            }
            i = i + 1;
        }
    }

    /// Sets the target of every file that offers it; a finished file is
    /// queued again.
    pub fn set_all_targets(&mut self, target: String)
        requires
            old(self).wf(),
        ensures
            final(self).wf(),
            final(self).next() == old(self).next(),
            final(self).entries().len() == old(self).entries().len(),
            forall|k: int|
                0 <= k < old(self).entries().len() ==> if offered(old(self).entries()[k].extension@).contains(target@) {
                    is_retargeted(#[trigger] final(self).entries()[k], old(self).entries()[k], target@)
                } else {
                    final(self).entries()[k] == old(self).entries()[k]
                },
    {
        let ghost start = self.files@;
        let tc = str_chars(target.as_str());
        let mut k: usize = 0;
        while k < self.files.len()
            invariant
                k <= self.files@.len() == start.len(),
                tc@ == target@,
                self.next_id == old(self).next_id,
                start == old(self).files@,
                forall|j: int| k <= j < start.len() ==> #[trigger] self.files@[j] == start[j],
                forall|j: int|
                    0 <= j < k ==> if offered(start[j].extension@).contains(target@) {
                        is_retargeted(#[trigger] self.files@[j], start[j], target@)
                    } else {
                        self.files@[j] == start[j]
                    },
            decreases start.len() - k,
        {
            let formats = get_output_formats(self.files[k].extension.as_str());
            let ghost offers = offered(start[k as int].extension@);
            assert(formats@.map_values(|s: &'static str| s@) =~= offers);
            let mut has = false;
            let mut m: usize = 0;
            while m < formats.len()
                invariant
                    m <= formats@.len(),
                    offers == formats@.map_values(|s: &'static str| s@),
                    has == exists|q: int| 0 <= q < m && offers[q] == tc@,
                decreases formats@.len() - m,
            {
                assert(offers[m as int] == formats@[m as int]@);
                if eq_str(&tc, formats[m]) {
                    has = true;
                }
                m = m + 1;
            }
            assert(has == offers.contains(target@));
            if has {
                let ghost before = self.files@;
                let f = self.files.remove(k);
                let BatchFile { id, name, bytes, extension, size, target: _, status } = f;
                let finished = status.is_finished();
                let new_status = if finished {
                    FileStatus::Pending
                } else {
                    status
                };
                let t = string_from_chars(&tc);
                self.files.insert(k, BatchFile { id, name, bytes, extension, size, target: Some(t), status: new_status });
                assert(self.files@ =~= before.update(k as int, self.files@[k as int]));
            }
            k = k + 1;
        }
        assert(ids_increasing(self.files@)) by {
            assert forall|a: int, b: int| 0 <= a < b < self.files@.len() implies self.files@[a].id < self.files@[b].id by {
                assert(self.files@[a].id == start[a].id);
                assert(self.files@[b].id == start[b].id);
            }
        }
        assert forall|a: int| 0 <= a < self.files@.len() implies #[trigger] self.files@[a].id < self.next_id by {
            assert(self.files@[a].id == start[a].id);
        }
    }

    /// Whether the conversion button is live.
    pub fn can_convert(&self, is_converting: bool) -> (r: bool)
        ensures
            r == can_convert_spec(self.entries(), is_converting),
    {
        if self.files.len() == 0 || is_converting {
            return false;
        }
        let mut i: usize = 0;
        while i < self.files.len()
            invariant
                i <= self.files@.len(),
                !is_converting,
                self.files@.len() > 0,
                forall|j: int| 0 <= j < i ==> !convertible(#[trigger] self.files@[j]),
            decreases self.files@.len() - i,
        {
            if self.files[i].target.is_some() && matches!(self.files[i].status, FileStatus::Pending) {
                assert(convertible(self.files@[i as int]));
                assert(self.entries()[i as int] == self.files@[i as int]);
                return true;
            }
            i = i + 1;
        }
        false
    }

    /// Whether every file of a non-empty batch is finished.
    pub fn all_done(&self) -> (r: bool)
        ensures
            r == all_done_spec(self.entries()),
    {
        if self.files.len() == 0 {
            return false;
        }
        let mut i: usize = 0;
        while i < self.files.len()
            invariant
                i <= self.files@.len(),
                forall|j: int| 0 <= j < i ==> (#[trigger] self.files@[j]).status.finished(),
            decreases self.files@.len() - i,
        {
            if !self.files[i].status.is_finished() {
                return false;
            }
            i = i + 1;
        }
        true
    }

    /// How many files were converted successfully.
    pub fn done_count(&self) -> (r: usize)
        ensures
            r == done_files(self.entries()).len(),
    {
        let ghost done = |f: BatchFile| f.status is Done;
        let mut count: usize = 0;
        let mut i: usize = 0;
        assert(self.files@.take(0).filter(done) =~= Seq::<BatchFile>::empty()) by {
            reveal_with_fuel(Seq::<BatchFile>::filter, 1);
        }
        while i < self.files.len()
            invariant
                i <= self.files@.len(),
                done == (|f: BatchFile| f.status is Done),
                count == self.files@.take(i as int).filter(done).len(),
                count <= i,
            decreases self.files@.len() - i,
        {
            proof {
                reveal_with_fuel(Seq::<BatchFile>::filter, 1);
                let t = self.files@.take(i as int + 1);
                assert(t.drop_last() =~= self.files@.take(i as int));
                assert(t.last() == self.files@[i as int]);
            }
            if matches!(self.files[i].status, FileStatus::Done { .. }) {
                count = count + 1;
            }
            i = i + 1;
        }
        assert(self.files@.take(i as int) =~= self.files@);
        count
    }

    /// Whether the quality control shows: a waiting file targets a lossy
    /// format.
    pub fn show_quality(&self) -> (r: bool)
        ensures
            r == show_quality_spec(self.entries()),
    {
        let mut i: usize = 0;
        while i < self.files.len()
            invariant
                i <= self.files@.len(),
                forall|j: int| 0 <= j < i ==> !wants_quality(#[trigger] self.files@[j]),
            decreases self.files@.len() - i,
        {
            if matches!(self.files[i].status, FileStatus::Pending) {
                match &self.files[i].target {
                    Some(t) => {
                        if is_lossy_target(t.as_str()) {
                            assert(wants_quality(self.files@[i as int]));
                            return true;
                        }
                    },
                    None => {},
                }
            }
            i = i + 1;
        }
        false
    }

    /// The ids of the files a conversion run takes, in order.
    pub fn conversion_queue(&self) -> (r: Vec<usize>)
        ensures
            r@ == queue_of(self.entries()),
    {
        let ghost conv = |f: BatchFile| convertible(f);
        let mut ids: Vec<usize> = Vec::new();
        let mut i: usize = 0;
        assert(self.files@.take(0).filter(conv) =~= Seq::<BatchFile>::empty()) by {
            reveal_with_fuel(Seq::<BatchFile>::filter, 1);
        }
        while i < self.files.len()
            invariant
                i <= self.files@.len(),
                conv == (|f: BatchFile| convertible(f)),
                ids@ == self.files@.take(i as int).filter(conv).map_values(|f: BatchFile| f.id),
            decreases self.files@.len() - i,
        {
            proof {
                reveal_with_fuel(Seq::<BatchFile>::filter, 1);
                let t = self.files@.take(i as int + 1);
                assert(t.drop_last() =~= self.files@.take(i as int));
                assert(t.last() == self.files@[i as int]);
            }
            let ghost before = ids@;
            if self.files[i].target.is_some() && matches!(self.files[i].status, FileStatus::Pending) {
                ids.push(self.files[i].id);
                assert(ids@ =~= self.files@.take(i as int + 1).filter(conv).map_values(|f: BatchFile| f.id));
            } else {
                assert(ids@ =~= self.files@.take(i as int + 1).filter(conv).map_values(|f: BatchFile| f.id));
            }
            i = i + 1;
        }
        assert(self.files@.take(i as int) =~= self.files@);
        ids
    }

    /// Removes every file; ids keep counting on.
    pub fn reset(&mut self)
        requires
            old(self).wf(),
        ensures
            final(self).wf(),
            final(self).entries() == Seq::<BatchFile>::empty(),
            final(self).next() == old(self).next(),
    {
        self.files = Vec::new();
    }
}

/// The formats offered for every file of a batch of two or more, in the
/// order the first file offers them.
pub open spec fn common_upto(files: Seq<BatchFile>, n: nat) -> Seq<Seq<char>>
    decreases n,
{
    if n <= 1 {
        offered(files[0].extension@)
    } else {
        common_upto(files, (n - 1) as nat).filter(|c: Seq<char>| offered(files[n - 1].extension@).contains(c))
    }
}

/// What "set all" offers: the formats common to every file, for a batch of
/// two or more files.
pub open spec fn common_formats_spec(files: Seq<BatchFile>) -> Seq<Seq<char>> {
    if files.len() < 2 {
        Seq::empty()
    } else {
        common_upto(files, files.len())
    }
}

/// The target a converted file is saved under.
pub open spec fn target_or_bin(t: Option<String>) -> Seq<char> {
    match t {
        Some(s) => s@,
        None => "bin"@,
    }
}

/// The archive entries of the converted files: each under its output name,
/// with its converted data.
pub open spec fn done_entries(files: Seq<BatchFile>) -> Seq<(Seq<char>, Seq<u8>)> {
    done_files(files).map_values(
        |f: BatchFile| (output_name(f.name@, target_or_bin(f.target)), f.status->data@),
    )
}

/// The archive formats "save all" offers, with their file extension and
/// MIME type.
pub open spec fn archive_kind(format: Seq<char>) -> Option<(Seq<char>, Seq<char>)> {
    if format == "zip"@ {
        Some(("zip"@, "application/zip"@))
    } else if format == "tar.gz"@ {
        Some(("tar.gz"@, "application/gzip"@))
    } else if format == "tar.xz"@ {
        Some(("tar.xz"@, "application/x-xz"@))
    } else if format == "7z"@ {
        Some(("7z"@, "application/x-7z-compressed"@))
    } else {
        None
    }
}

/// The result of building the archive of a format.
pub open spec fn archive_result(format: Seq<char>, es: Seq<(Seq<char>, Seq<u8>)>) -> Result<Seq<u8>, Seq<char>> {
    if format == "zip"@ {
        zip_result(es)
    } else if format == "tar.gz"@ {
        tar_gz_result(es)
    } else if format == "tar.xz"@ {
        tar_xz_result(es)
    } else {
        sevenz_result(es)
    }
}

/// An archive of the converted files, ready to be saved.
pub struct ArchiveDownload {
    pub data: Vec<u8>,
    pub filename: String,
    pub mime: &'static str,
}

/// The number of finished files.
pub open spec fn finished_count(files: Seq<BatchFile>) -> nat {
    files.filter(|f: BatchFile| f.status.finished()).len()
}

/// The label of the conversion button.
pub open spec fn convert_label(files: Seq<BatchFile>, converting: bool) -> Seq<char> {
    if converting {
        "Converting "@ + dec(finished_count(files)) + "/"@ + dec(files.len()) + "…"@
    } else {
        let q = queue_of(files).len();
        "Convert "@ + dec(q) + " file"@ + if q != 1 {
            "s"@
        } else {
            Seq::empty()
        }
    }
}

/// A copy of bytes.
fn copy_bytes(b: &[u8]) -> (r: Vec<u8>)
    ensures
        r@ == b@,
{
    let mut out: Vec<u8> = Vec::new();
    let mut i: usize = 0;
    while i < b.len()
        invariant
            i <= b.len(),
            out@ == b@.take(i as int),
        decreases b.len() - i,
    {
        out.push(b[i]);
        i = i + 1;
        assert(out@ =~= b@.take(i as int));
    }
    assert(b@.take(i as int) =~= b@);
    out
}

/// A copy of a string.
fn copy_string(s: &String) -> (r: String)
    ensures
        r@ == s@,
{
    string_from_chars(&str_chars(s.as_str()))
}

impl Batch {
    /// The formats offered for every file, for "set all".
    pub fn common_formats(&self) -> (r: Vec<&'static str>)
        ensures
            r@.map_values(|s: &'static str| s@) == common_formats_spec(self.entries()),
    {
        if self.files.len() < 2 {
            let r: Vec<&'static str> = Vec::new();
            assert(r@.map_values(|s: &'static str| s@) =~= Seq::<Seq<char>>::empty());
            return r;
        }
        let ghost files = self.files@;
        let mut common = get_output_formats(self.files[0].extension.as_str());
        assert(common@.map_values(|s: &'static str| s@) =~= common_upto(files, 1));
        let mut n: usize = 1;
        while n < self.files.len()
            invariant
                1 <= n <= self.files@.len(),
                files == self.files@,
                common@.map_values(|s: &'static str| s@) == common_upto(files, n as nat),
            decreases self.files@.len() - n,
        {
            let fmts = get_output_formats(self.files[n].extension.as_str());
            let ghost offers = offered(files[n as int].extension@);
            assert(fmts@.map_values(|s: &'static str| s@) =~= offers);
            let ghost pred = |c: Seq<char>| offers.contains(c);
            let ghost cv = common@.map_values(|s: &'static str| s@);
            let mut kept: Vec<&'static str> = Vec::new();
            let mut j: usize = 0;
            assert(cv.take(0).filter(pred) =~= Seq::<Seq<char>>::empty()) by {
                reveal_with_fuel(Seq::<Seq<char>>::filter, 1);
            }
            while j < common.len()
                invariant
                    j <= common@.len(),
                    cv == common@.map_values(|s: &'static str| s@),
                    offers == fmts@.map_values(|s: &'static str| s@),
                    pred == (|c: Seq<char>| offers.contains(c)),
                    kept@.map_values(|s: &'static str| s@) == cv.take(j as int).filter(pred),
                decreases common@.len() - j,
            {
                let c = common[j];
                let cc = str_chars(c);
                let mut found = false;
                let mut m: usize = 0;
                while m < fmts.len()
                    invariant
                        m <= fmts@.len(),
                        cc@ == c@,
                        offers == fmts@.map_values(|s: &'static str| s@),
                        found == exists|q: int| 0 <= q < m && offers[q] == c@,
                    decreases fmts@.len() - m,
                {
                    assert(offers[m as int] == fmts@[m as int]@);
                    if eq_str(&cc, fmts[m]) {
                        found = true;
                    }
                    m = m + 1;
                }
                assert(found == pred(cv[j as int]));
                proof {
                    reveal_with_fuel(Seq::<Seq<char>>::filter, 1);
                    let t = cv.take(j as int + 1);
                    assert(t.drop_last() =~= cv.take(j as int));
                    assert(t.last() == cv[j as int]);
                }
                let ghost before = kept@;
                if found {
                    kept.push(c);
                    assert(kept@.map_values(|s: &'static str| s@) =~= before.map_values(|s: &'static str| s@).push(c@));
                } else {
                    assert(kept@ == before);
                }
                j = j + 1;
            }
            assert(cv.take(common.len() as int) =~= cv);
            common = kept;
            n = n + 1;
        }
        common
    }

    /// Starts converting the file with id `id`: its bytes, extension and
    /// target are handed out and it is marked `Converting`. A file that is
    /// gone or has no target is left alone.
    pub fn begin_conversion(&mut self, id: usize) -> (r: Option<(Vec<u8>, String, String)>)
        requires
            old(self).wf(),
        ensures
            final(self).wf(),
            final(self).next() == old(self).next(),
            final(self).entries().len() == old(self).entries().len(),
            r is None ==> final(self).entries() == old(self).entries(),
            r is None <==> forall|i: int|
                0 <= i < old(self).entries().len() && old(self).entries()[i].id == id
                    ==> old(self).entries()[i].target is None,
            forall|i: int|
                0 <= i < old(self).entries().len() && old(self).entries()[i].id == id
                    && old(self).entries()[i].target is Some ==> {
                    &&& (r matches Some((b, e, t)) && b@ == old(self).entries()[i].bytes@ && e@
                        == old(self).entries()[i].extension@ && Some(t@) == target_view(
                        old(self).entries()[i].target,
                    ))
                    &&& final(self).entries()[i].status is Converting
                    &&& final(self).entries()[i].id == id
                    &&& final(self).entries()[i].name == old(self).entries()[i].name
                    &&& final(self).entries()[i].bytes == old(self).entries()[i].bytes
                    &&& final(self).entries()[i].target == old(self).entries()[i].target
                    &&& forall|j: int|
                        0 <= j < old(self).entries().len() && j != i ==> final(self).entries()[j]
                            == old(self).entries()[j]
                },
    {
        let mut i: usize = 0;
        while i < self.files.len()
            invariant
                i <= self.files@.len(),
                self.files@ == old(self).files@,
                self.next_id == old(self).next_id,
                old(self).wf(),
                forall|j: int| 0 <= j < i ==> self.files@[j].id != id,
            decreases self.files@.len() - i,
        {
            if self.files[i].id == id {
                let ghost before = self.files@;
                assert forall|a: int| 0 <= a < before.len() && before[a].id == id implies a == i by {
                    if a > i {
                        assert(before[i as int].id < before[a].id);
                    }
                }
                let target = match &self.files[i].target {
                    Some(t) => copy_string(t),
                    None => {
                        return None;
                    },
                };
                let bytes = copy_bytes(self.files[i].bytes.as_slice());
                let ext = copy_string(&self.files[i].extension);
                let f = self.files.remove(i);
                let BatchFile { id: fid, name, bytes: fbytes, extension, size, target: ftarget, status: _ } = f;
                self.files.insert(i, BatchFile { id: fid, name, bytes: fbytes, extension, size, target: ftarget, status: FileStatus::Converting });
                assert(self.files@ =~= before.update(i as int, self.files@[i as int]));
                assert(forall|a: int| 0 <= a < self.files@.len() ==> #[trigger] self.files@[a].id == before[a].id);
                return Some((bytes, ext, target));
            }
            i = i + 1;
        }
        None
    }

    /// Records the outcome of converting the file with id `id`: the
    /// converted data with the time it took, or the error.
    pub fn finish_conversion(&mut self, id: usize, result: Result<Vec<u8>, String>, elapsed_ms: u32)
        requires
            old(self).wf(),
        ensures
            final(self).wf(),
            final(self).next() == old(self).next(),
            final(self).entries().len() == old(self).entries().len(),
            (forall|i: int| 0 <= i < old(self).entries().len() ==> old(self).entries()[i].id != id)
                ==> final(self).entries() == old(self).entries(),
            forall|i: int|
                0 <= i < old(self).entries().len() && old(self).entries()[i].id == id ==> {
                    &&& match result {
                        Ok(d) => final(self).entries()[i].status == FileStatus::Done {
                            data: d,
                            elapsed_ms,
                        },
                        Err(e) => final(self).entries()[i].status == FileStatus::Error(e),
                    }
                    &&& final(self).entries()[i].id == id
                    &&& final(self).entries()[i].name == old(self).entries()[i].name
                    &&& final(self).entries()[i].bytes == old(self).entries()[i].bytes
                    &&& final(self).entries()[i].extension == old(self).entries()[i].extension
                    &&& final(self).entries()[i].size == old(self).entries()[i].size
                    &&& final(self).entries()[i].target == old(self).entries()[i].target
                    &&& forall|j: int|
                        0 <= j < old(self).entries().len() && j != i ==> final(self).entries()[j]
                            == old(self).entries()[j]
                },
    {
        let mut i: usize = 0;
        while i < self.files.len()
            invariant
                i <= self.files@.len(),
                self.files@ == old(self).files@,
                self.next_id == old(self).next_id,
                old(self).wf(),
                forall|j: int| 0 <= j < i ==> self.files@[j].id != id,
            decreases self.files@.len() - i,
        {
            if self.files[i].id == id {
                let ghost before = self.files@;
                assert forall|a: int| 0 <= a < before.len() && before[a].id == id implies a == i by {
                    if a > i {
                        assert(before[i as int].id < before[a].id);
                    }
                }
                let f = self.files.remove(i);
                let BatchFile { id: fid, name, bytes, extension, size, target, status: _ } = f;
                let status = match result {
                    Ok(data) => FileStatus::Done { data, elapsed_ms },
                    Err(e) => FileStatus::Error(e),
                };
                self.files.insert(i, BatchFile { id: fid, name, bytes, extension, size, target, status });
                assert(self.files@ =~= before.update(i as int, self.files@[i as int]));
                assert(forall|a: int| 0 <= a < self.files@.len() ==> #[trigger] self.files@[a].id == before[a].id);
                return;
            }
            i = i + 1;
        }
    }

    /// The converted files as archive entries, each under its output name.
    pub fn archive_entries(&self) -> (r: Vec<ArchiveEntry>)
        ensures
            entry_views(r@) == done_entries(self.entries()),
    {
        let ghost done = |f: BatchFile| f.status is Done;
        let ghost files = self.files@;
        let mut out: Vec<ArchiveEntry> = Vec::new();
        let mut i: usize = 0;
        assert(files.take(0).filter(done) =~= Seq::<BatchFile>::empty()) by {
            reveal_with_fuel(Seq::<BatchFile>::filter, 1);
        }
        while i < self.files.len()
            invariant
                i <= self.files@.len(),
                files == self.files@,
                done == (|f: BatchFile| f.status is Done),
                entry_views(out@) == files.take(i as int).filter(done).map_values(
                    |f: BatchFile| (output_name(f.name@, target_or_bin(f.target)), f.status->data@),
                ),
            decreases self.files@.len() - i,
        {
            proof {
                reveal_with_fuel(Seq::<BatchFile>::filter, 1);
                let t = files.take(i as int + 1);
                assert(t.drop_last() =~= files.take(i as int));
                assert(t.last() == files[i as int]);
                assert(t.filter(done) == if done(files[i as int]) {
                    files.take(i as int).filter(done).push(files[i as int])
                } else {
                    files.take(i as int).filter(done)
                });
            }
            let ghost before = out@;
            match &self.files[i].status {
                FileStatus::Done { data, .. } => {
                    let target = match &self.files[i].target {
                        Some(t) => copy_string(t),
                        None => string_from_chars(&str_chars("bin")),
                    };
                    let name = make_output_name(self.files[i].name.as_str(), target.as_str());
                    let bytes = copy_bytes(data.as_slice());
                    assert(bytes@ == files[i as int].status->data@);
                    assert(name@ == output_name(files[i as int].name@, target_or_bin(files[i as int].target)));
                    let ghost nv = name@;
                    let ghost bv = bytes@;
                    out.push(ArchiveEntry { name, data: bytes });
                    assert(entry_views(out@) =~= entry_views(before).push((nv, bv)));
                    assert(done(files[i as int]));
                    assert(entry_views(out@) =~= files.take(i as int + 1).filter(done).map_values(
                        |f: BatchFile| (output_name(f.name@, target_or_bin(f.target)), f.status->data@),
                    ));
                },
                _ => {
                    assert(entry_views(out@) =~= files.take(i as int + 1).filter(done).map_values(
                        |f: BatchFile| (output_name(f.name@, target_or_bin(f.target)), f.status->data@),
                    ));
                },
            }
            i = i + 1;
        }
        assert(files.take(i as int) =~= files);
        out
    }

    /// The archive of the converted files in `format` (`zip`, `tar.gz`,
    /// `tar.xz` or `7z`), with its download name and MIME type; `None` when
    /// nothing is converted yet or the format is not one of those.
    pub fn save_all_as(&self, format: &str) -> (r: Option<Result<ArchiveDownload, String>>)
        ensures
            r is None <==> done_entries(self.entries()).len() == 0 || archive_kind(format@) is None,
            r matches Some(res) ==> match archive_result(format@, done_entries(self.entries())) {
                Ok(b) => (res matches Ok(d) && d.data@ == b && d.filename@ == "transfigure-output."@
                    + archive_kind(format@).unwrap().0 && d.mime@ == archive_kind(format@).unwrap().1),
                Err(m) => (res matches Err(e) && e@ == m),
            },
    {
        let entries = self.archive_entries();
        if entries.len() == 0 {
            return None;
        }
        let f = str_chars(format);
        let (built, ext, mime) = if eq_str(&f, "zip") {
            (create_zip(&entries), "zip", "application/zip")
        } else if eq_str(&f, "tar.gz") {
            (create_tar_gz(&entries), "tar.gz", "application/gzip")
        } else if eq_str(&f, "tar.xz") {
            (create_tar_xz(&entries), "tar.xz", "application/x-xz")
        } else if eq_str(&f, "7z") {
            (create_7z(&entries), "7z", "application/x-7z-compressed")
        } else {
            return None;
        };
        match built {
            Ok(data) => {
                let mut name: Vec<char> = Vec::new();
                push_str(&mut name, "transfigure-output.");
                push_str(&mut name, ext);
                Some(Ok(ArchiveDownload { data, filename: string_from_chars(&name), mime }))
            },
            Err(e) => Some(Err(e)),
        }
    }

    /// The label of the conversion button.
    pub fn convert_button_label(&self, is_converting: bool) -> (r: String)
        ensures
            r@ == convert_label(self.entries(), is_converting),
    {
        let ghost fin = |f: BatchFile| f.status.finished();
        let mut out: Vec<char> = Vec::new();
        if is_converting {
            let mut done: usize = 0;
            let mut i: usize = 0;
            assert(self.files@.take(0).filter(fin) =~= Seq::<BatchFile>::empty()) by {
                reveal_with_fuel(Seq::<BatchFile>::filter, 1);
            }
            while i < self.files.len()
                invariant
                    i <= self.files@.len(),
                    fin == (|f: BatchFile| f.status.finished()),
                    done == self.files@.take(i as int).filter(fin).len(),
                    done <= i,
                decreases self.files@.len() - i,
            {
                proof {
                    reveal_with_fuel(Seq::<BatchFile>::filter, 1);
                    let t = self.files@.take(i as int + 1);
                    assert(t.drop_last() =~= self.files@.take(i as int));
                    assert(t.last() == self.files@[i as int]);
                }
                if self.files[i].status.is_finished() {
                    done = done + 1;
                }
                i = i + 1;
            }
            assert(self.files@.take(i as int) =~= self.files@);
            push_str(&mut out, "Converting ");
            extend_chars(&mut out, &dec_chars(done));
            push_str(&mut out, "/");
            extend_chars(&mut out, &dec_chars(self.files.len()));
            push_str(&mut out, "…");
        } else {
            let queue = self.conversion_queue();
            let count = queue.len();
            push_str(&mut out, "Convert ");
            extend_chars(&mut out, &dec_chars(count));
            push_str(&mut out, " file");
            if count != 1 {
                push_str(&mut out, "s");
            }
        }
        string_from_chars(&out)
    }

    /// The converted data of the file with id `id` and what saving it asks
    /// of the browser; `None` where that file is not converted.
    pub fn saved_file(&self, id: usize) -> (r: Option<(Vec<u8>, Download)>)
        requires
            self.wf(),
        ensures
            r is None <==> forall|i: int|
                0 <= i < self.entries().len() && self.entries()[i].id == id
                    ==> !(self.entries()[i].status is Done),
            forall|i: int|
                0 <= i < self.entries().len() && self.entries()[i].id == id
                    && self.entries()[i].status is Done ==> (r matches Some((d, dl)) && d@
                    == self.entries()[i].status->data@ && dl.filename@ == output_name(
                    self.entries()[i].name@,
                    target_or_bin(self.entries()[i].target),
                ) && dl.mime == mime_type(target_or_bin(self.entries()[i].target))),
    {
        let mut i: usize = 0;
        while i < self.files.len()
            invariant
                i <= self.files@.len(),
                self.wf(),
                forall|j: int| 0 <= j < i ==> self.files@[j].id != id,
            decreases self.files@.len() - i,
        {
            if self.files[i].id == id {
                let ghost files = self.files@;
                assert forall|a: int| 0 <= a < files.len() && files[a].id == id implies a == i by {
                    if a > i {
                        assert(files[i as int].id < files[a].id);
                    }
                }
                match &self.files[i].status {
                    FileStatus::Done { data, .. } => {
                        let target = match &self.files[i].target {
                            Some(t) => copy_string(t),
                            None => string_from_chars(&str_chars("bin")),
                        };
                        let dl = download_blob(self.files[i].name.as_str(), target.as_str());
                        return Some((copy_bytes(data.as_slice()), dl));
                    },
                    _ => {
                        return None;
                    },
                }
            }
            i = i + 1;
        }
        None
    }
}

// ── What every batch keeps to ───────────────────────────────────

/// A batch whose every file is finished has nothing left to convert: the
/// conversion button is off.
pub proof fn law_finished_batch_offers_no_conversion(files: Seq<BatchFile>, converting: bool)
    requires
        all_done_spec(files),
    ensures
        !can_convert_spec(files, converting),
{
    if files.len() > 0 && (exists|i: int| 0 <= i < files.len() && convertible(#[trigger] files[i])) {
        let i = choose|i: int| 0 <= i < files.len() && convertible(#[trigger] files[i]);
        assert(files[i].status.finished());
    }
}

proof fn lemma_filter_nonempty(files: Seq<BatchFile>, pred: spec_fn(BatchFile) -> bool)
    ensures
        files.filter(pred).len() > 0 <==> exists|i: int| 0 <= i < files.len() && pred(#[trigger] files[i]),
    decreases files.len(),
{
    reveal_with_fuel(Seq::<BatchFile>::filter, 1);
    if files.len() > 0 {
        let d = files.drop_last();
        lemma_filter_nonempty(d, pred);
        if exists|i: int| 0 <= i < d.len() && pred(#[trigger] d[i]) {
            let i = choose|i: int| 0 <= i < d.len() && pred(#[trigger] d[i]);
            assert(files[i] == d[i]);
        }
        if exists|i: int| 0 <= i < files.len() && pred(#[trigger] files[i]) {
            let i = choose|i: int| 0 <= i < files.len() && pred(#[trigger] files[i]);
            if i < files.len() - 1 {
                assert(d[i] == files[i]);
            }
        }
    }
}

/// The conversion button is live, when no run is going on, exactly when the
/// queue a run would take is not empty.
pub proof fn law_button_matches_queue(files: Seq<BatchFile>)
    ensures
        can_convert_spec(files, false) <==> queue_of(files).len() > 0,
{
    lemma_filter_nonempty(files, |f: BatchFile| convertible(f));
    if queue_of(files).len() > 0 {
        assert(files.filter(|f: BatchFile| convertible(f)).len() > 0);
    }
}

/// Choosing a target for a file that is not being converted puts it in the
/// queue, finished or not.
pub proof fn law_retargeted_file_is_queued(g: BatchFile, f: BatchFile, t: Seq<char>)
    requires
        is_retargeted(g, f, t),
        !(f.status is Converting),
    ensures
        convertible(g),
{
}

} // verus!
