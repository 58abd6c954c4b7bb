//! TarFs: a read-only file system over the entries of a tar archive. Files are
//! opened by path and read through handles; directories are derived from the
//! entry names.
use vstd::prelude::*;
use tar_no_std::TarArchiveRef;
use crate::filesystem::archive_check::{is_walkable_archive, walkable_archive};
use std::borrow::ToOwned;
use crate::text::{
    char_index, ends_with_char, find_char, is_prefix_of, push_char, starts_with, str_equal, strip_end,
    strip_start, trim, trim_end_matches_char, trim_start_matches_char, trim_str,
};
use vstd::string::StrSliceExecFns;

verus! {

/// One entry of the archive as the crate yields it: its file name (`None` if
/// the name is not valid UTF-8) and its data.
pub struct TarEntry {
    pub name: Option<String>,
    pub data: &'static [u8],
}

/// The meaning of an entry: its name and its data.
pub open spec fn entry_view(e: TarEntry) -> (Option<Seq<char>>, Seq<u8>) {
    (
        match e.name {
            Some(n) => Some(n@),
            None => None,
        },
        e.data@,
    )
}

/// The entries of the archive with the bytes `data`, in archive order, as
/// `TarArchiveRef::entries` yields them: regular files only, with the full
/// path as name.
pub uninterp spec fn archive_contents(data: Seq<u8>) -> Seq<(Option<Seq<char>>, Seq<u8>)>;

/// Walk the archive with `TarArchiveRef::entries` and hand out each entry's
/// name (`ArchiveEntry::filename` as a string, `None` if that is not UTF-8) and
/// data (`ArchiveEntry::data`). The contract names the result as the archive's
/// contents. The archive is made from the bytes with `TarArchiveRef::new`,
/// which accepts every input of the shape that `walkable_archive` asks for;
/// the walk panics on none of the inputs that `walkable_archive` admits.
#[verifier::external_body]
fn archive_entries(data: &'static [u8]) -> (r: Vec<TarEntry>)
    requires
        walkable_archive(data@),
    ensures
        r@.map_values(|e: TarEntry| entry_view(e)) == archive_contents(data@),
{
    let mut entries = Vec::new();
    let archive = match TarArchiveRef::new(data) {
        Ok(archive) => archive,
        Err(_) => return entries,
    };
    for entry in archive.entries() {
        let name = match entry.filename().as_str() {
            Ok(s) => Some(s.to_owned()),
            Err(_) => None,
        };
        entries.push(TarEntry { name, data: entry.data() });
    }
    entries
}

/// A handle to an open file, like a Unix file descriptor.
#[derive(Copy, Clone, PartialEq, Eq, Structural, PartialOrd, Ord, Debug)]
pub struct FileHandle(pub usize);

/// Errors of the file system.
#[derive(Copy, Clone, Debug, PartialEq, Eq, Structural)]
pub enum FsError {
    /// The file was not found in the archive.
    FileNotFound,
    /// The handle is invalid (not opened, or already closed).
    InvalidHandle,
    /// The file is at its end; no more data can be read.
    EndOfFile,
}

/// The reference point of a seek.
#[derive(Copy, Clone, Debug, PartialEq, Eq, Structural)]
pub enum SeekMode {
    /// From the beginning of the file.
    Start,
    /// From the current position.
    Current,
    /// From the end of the file.
    End,
}

/// The type of a file system entry.
#[derive(Copy, Clone, PartialEq, Eq, Structural, Debug)]
pub enum FileType {
    /// A regular file, which can be opened and read.
    File,
    /// A directory, which can be listed.
    Directory,
}

/// A single entry of a directory listing.
#[derive(Debug)]
pub struct DirectoryEntry {
    /// The name, without the path of the parent directory.
    pub name: String,
    /// The size in bytes; zero for directories.
    pub size: usize,
    /// File or directory.
    pub file_type: FileType,
}

/// Metadata of a single file or directory.
#[derive(Copy, Clone, Debug, PartialEq, Eq, Structural)]
pub struct Metadata {
    /// The size in bytes; zero for directories.
    pub size: usize,
    /// File or directory.
    pub file_type: FileType,
}

/// An open file: its handle, its data and the current read position.
struct OpenFile {
    handle: usize,
    data: &'static [u8],
    position: usize,
}

/// The file `h` among the open files: its data and read position.
pub open spec fn lookup_in(s: Seq<(usize, Seq<u8>, usize)>, h: usize) -> Option<(Seq<u8>, usize)> {
    if exists|i: int| 0 <= i < s.len() && (#[trigger] s[i]).0 == h {
        let i = choose|i: int| 0 <= i < s.len() && (#[trigger] s[i]).0 == h;
        Some((s[i].1, s[i].2))
    } else {
        None
    }
}

/// The value `j` steps after `start`, wrapping around at the end of `usize`.
pub open spec fn wrapped_step(start: usize, j: int) -> int {
    if start + j <= usize::MAX {
        start + j
    } else {
        start + j - (usize::MAX + 1)
    }
}

/// A read-only file system over the entries of a tar archive.
pub struct TarFs {
    archive: Archive,
    open_handles: Vec<OpenFile>,
    next_handle: usize,
}

/// The bytes of an archive whose entries can be walked safely.
struct Archive {
    bytes: &'static [u8],
}

impl Archive {
    #[verifier::type_invariant]
    closed spec fn walkable(&self) -> bool {
        walkable_archive(self.bytes@)
    }

    /// The entries of the archive.
    fn entries(&self) -> (r: Vec<TarEntry>)
        ensures
            r@.map_values(|e: TarEntry| entry_view(e)) == archive_contents(self.bytes@),
    {
        proof {
            use_type_invariant(self);
        }
        archive_entries(self.bytes)
    }
}

impl TarFs {
    /// The bytes of the archive the file system reads.
    pub closed spec fn archive_spec(&self) -> Seq<u8> {
        self.archive.bytes@
    }

    /// The open files: handle, data and read position.
    pub closed spec fn files(&self) -> Seq<(usize, Seq<u8>, usize)> {
        self.open_handles@.map_values(|f: OpenFile| (f.handle, f.data@, f.position))
    }

    /// The open file with handle `h`, if any: its data and read position.
    pub open spec fn lookup(&self, h: FileHandle) -> Option<(Seq<u8>, usize)> {
        lookup_in(self.files(), h.0)
    }

    /// The next handle number that `open` tries.
    pub closed spec fn next_handle_spec(&self) -> usize {
        self.next_handle
    }

    /// Handles are unique and read positions lie within the files.
    pub closed spec fn wf(&self) -> bool {
        &&& forall|i: int, j: int| 0 <= i < j < self.open_handles@.len() ==> (#[trigger] self.open_handles@[i]).handle
            != (#[trigger] self.open_handles@[j]).handle
        &&& forall|i: int| 0 <= i < self.open_handles@.len() ==> (#[trigger] self.open_handles@[i]).position
            <= self.open_handles@[i].data@.len()
    }

    /// Create a file system over the archive with the bytes `archive`, with no
    /// open files. Returns `None` for bytes whose entries cannot be walked
    /// safely (see `is_walkable_archive`).
    pub fn new(archive: &'static [u8]) -> (r: Option<TarFs>)
        ensures
            r is Some <==> walkable_archive(archive@),
            r matches Some(fs) ==> {
                &&& fs.wf()
                &&& fs.archive_spec() == archive@
                &&& fs.files() == Seq::<(usize, Seq<u8>, usize)>::empty()
                &&& fs.next_handle_spec() == 0
            },
    {
        if !is_walkable_archive(archive) {
            return None;
        }
        let r = TarFs { archive: Archive { bytes: archive }, open_handles: Vec::new(), next_handle: 0 };
        assert(r.files() =~= Seq::<(usize, Seq<u8>, usize)>::empty());
        Some(r)
    }

    /// The position of the open file with handle `h` in the list of open files.
    fn find_index(&self, h: usize) -> (r: Option<usize>)
        requires
            self.wf(),
        ensures
            r matches Some(i) ==> i < self.open_handles@.len() && self.open_handles@[i as int].handle == h
                && lookup_in(self.files(), h) == Some((self.open_handles@[i as int].data@, self.open_handles@[i as int].position)),
            r is None ==> lookup_in(self.files(), h) is None,
    {
        let mut i: usize = 0;
        while i < self.open_handles.len()
            invariant
                self.wf(),
                i <= self.open_handles@.len(),
                forall|j: int| 0 <= j < i ==> (#[trigger] self.open_handles@[j]).handle != h,
            decreases self.open_handles@.len() - i,
        {
            if self.open_handles[i].handle == h {
                proof {
                    let s = self.files();
                    assert(s[i as int].0 == h);
                    let k = choose|k: int| 0 <= k < s.len() && (#[trigger] s[k]).0 == h;
                    assert(k == i as int) by {
                        assert(s[k].0 == self.open_handles@[k].handle);
                        if k < i {
                            assert(self.open_handles@[k].handle != self.open_handles@[i as int].handle);
                        } else if k > i {
                            assert(self.open_handles@[i as int].handle != self.open_handles@[k].handle);
                        }
                    }
                }
                return Some(i);
            }
            i = i + 1;
        }
        proof {
            let s = self.files();
            assert forall|k: int| 0 <= k < s.len() implies (#[trigger] s[k]).0 != h by {
                assert(s[k].0 == self.open_handles@[k].handle);
            }
        }
        None
    }

    /// The size in bytes of the open file `handle`.
    pub fn size(&self, handle: FileHandle) -> (r: Result<usize, FsError>)
        requires
            self.wf(),
        ensures
            self.lookup(handle) matches Some((data, _)) ==> r == Ok::<usize, FsError>(data.len() as usize),
            self.lookup(handle) is None ==> r == Err::<usize, FsError>(FsError::InvalidHandle),
    {
        match self.find_index(handle.0) {
            Some(i) => Ok(self.open_handles[i].data.len()),
            None => Err(FsError::InvalidHandle),
        }
    }

    /// Close an open file and invalidate its handle.
    pub fn close(&mut self, handle: FileHandle) -> (r: Result<(), FsError>)
        requires
            old(self).wf(),
        ensures
            final(self).wf(),
            final(self).archive_spec() == old(self).archive_spec(),
            final(self).next_handle_spec() == old(self).next_handle_spec(),
            old(self).lookup(handle) is None ==> r == Err::<(), FsError>(FsError::InvalidHandle) && final(self).files() == old(self).files(),
            old(self).lookup(handle) is Some ==> r == Ok::<(), FsError>(()) && final(self).lookup(handle) is None
                && forall|h: FileHandle| h != handle ==> #[trigger] final(self).lookup(h) == old(self).lookup(h),
    {
        match self.find_index(handle.0) {
            Some(i) => {
                let ghost old_s = self.files();
                let _ = self.open_handles.remove(i);
                proof {
                    let s = self.files();
                    assert(s =~= old_s.remove(i as int));
                    assert forall|h: FileHandle| h != handle implies #[trigger] lookup_in(s, h.0) == lookup_in(old_s, h.0) by {
                        lemma_lookup_remove(old_s, i as int, h.0);
                    }
                    lemma_lookup_remove_self(old_s, i as int);
                }
                Ok(())
            },
            None => Err(FsError::InvalidHandle),
        }
    }
}

impl TarFs {
    /// Read from the open file `handle` into `buffer`, starting at the file's
    /// read position. At most `buffer.len()` bytes are read, fewer at the end of
    /// the file; the position moves past what was read. Reading a file that is
    /// already at its end fails with `EndOfFile`.
    pub fn read(&mut self, handle: FileHandle, buffer: &mut [u8]) -> (r: Result<usize, FsError>)
        requires
            old(self).wf(),
        ensures
            final(self).wf(),
            final(self).archive_spec() == old(self).archive_spec(),
            final(self).next_handle_spec() == old(self).next_handle_spec(),
            final(buffer)@.len() == old(buffer)@.len(),
            match old(self).lookup(handle) {
                None => r == Err::<usize, FsError>(FsError::InvalidHandle)
                    && final(self).files() == old(self).files() && final(buffer)@ == old(buffer)@,
                Some((data, pos)) => if pos >= data.len() {
                    r == Err::<usize, FsError>(FsError::EndOfFile)
                        && final(self).files() == old(self).files() && final(buffer)@ == old(buffer)@
                } else {
                    let n = read_count(data.len() as int, pos as int, old(buffer)@.len() as int);
                    &&& r == Ok::<usize, FsError>(n as usize)
                    &&& final(buffer)@ == data.subrange(pos as int, pos + n) + old(buffer)@.subrange(n, old(buffer)@.len() as int)
                    &&& final(self).lookup(handle) == Some((data, (pos + n) as usize))
                    &&& forall|h: FileHandle| h != handle ==> #[trigger] final(self).lookup(h) == old(self).lookup(h)
                },
            },
    {
        let i = match self.find_index(handle.0) {
            Some(i) => i,
            None => return Err(FsError::InvalidHandle),
        };
        let data = self.open_handles[i].data;
        let position = self.open_handles[i].position;
        if position >= data.len() {
            return Err(FsError::EndOfFile);
        }
        let available = data.len() - position;
        let read_size = if buffer.len() < available { buffer.len() } else { available };
        let ghost old_buffer = buffer@;
        let mut k: usize = 0;
        while k < read_size
            invariant
                read_size <= buffer@.len(),
                buffer@.len() == old_buffer.len(),
                position + read_size <= data.len(),
                data.len() == data@.len(),
                k <= read_size,
                forall|j: int| 0 <= j < k ==> buffer@[j] == data@[position + j],
                forall|j: int| read_size <= j < buffer@.len() ==> buffer@[j] == old_buffer[j],
            decreases read_size - k,
        {
            buffer[k] = data[position + k];
            k = k + 1;
        }
        let end = position + read_size;
        let ghost old_s = self.files();
        self.open_handles.set(i, OpenFile { handle: handle.0, data, position: end });
        proof {
            assert(buffer@ =~= data@.subrange(position as int, end as int) + old_buffer.subrange(
                read_size as int,
                old_buffer.len() as int,
            ));
            let s = self.files();
            assert(s =~= old_s.update(i as int, (handle.0, data@, end)));
            assert forall|h: FileHandle| true implies #[trigger] lookup_in(s, h.0) == if h.0
                == handle.0 {
                Some((data@, end))
            } else {
                lookup_in(old_s, h.0)
            } by {
                lemma_lookup_update(old_s, i as int, (handle.0, data@, end), h.0);
            }
        }
        Ok(read_size)
    }

    /// Move the read position of the open file `handle`. The new position is
    /// `offset` bytes from the start, the current position or the end, as
    /// `mode` says, clamped to lie between zero and the file size. Returns the
    /// new position.
    pub fn seek(&mut self, handle: FileHandle, offset: isize, mode: SeekMode) -> (r: Result<usize, FsError>)
        requires
            old(self).wf(),
        ensures
            final(self).wf(),
            final(self).archive_spec() == old(self).archive_spec(),
            final(self).next_handle_spec() == old(self).next_handle_spec(),
            match old(self).lookup(handle) {
                None => r == Err::<usize, FsError>(FsError::InvalidHandle)
                    && final(self).files() == old(self).files(),
                Some((data, pos)) => {
                    let p = seek_target(seek_base(mode, pos as int, data.len() as int), offset as int, data.len() as int);
                    &&& r == Ok::<usize, FsError>(p as usize)
                    &&& final(self).lookup(handle) == Some((data, p as usize))
                    &&& forall|h: FileHandle| h != handle ==> #[trigger] final(self).lookup(h) == old(self).lookup(h)
                },
            },
    {
        let i = match self.find_index(handle.0) {
            Some(i) => i,
            None => return Err(FsError::InvalidHandle),
        };
        let data = self.open_handles[i].data;
        let position = self.open_handles[i].position;
        let size = data.len();
        let base = match mode {
            SeekMode::Start => 0,
            SeekMode::Current => position,
            SeekMode::End => size,
        };
        let moved = if offset >= 0 {
            base.saturating_add(offset as usize)
        } else {
            let back: usize = ((-(offset + 1)) as usize) + 1;
            base.saturating_sub(back)
        };
        let target = if moved < size { moved } else { size };
        let ghost old_s = self.files();
        self.open_handles.set(i, OpenFile { handle: handle.0, data, position: target });
        proof {
            let s = self.files();
            assert(s =~= old_s.update(i as int, (handle.0, data@, target)));
            assert forall|h: FileHandle| true implies #[trigger] lookup_in(s, h.0) == if h.0
                == handle.0 {
                Some((data@, target))
            } else {
                lookup_in(old_s, h.0)
            } by {
                lemma_lookup_update(old_s, i as int, (handle.0, data@, target), h.0);
            }
        }
        Ok(target)
    }
}

impl TarFs {
    /// The handle numbers that `open` tries, starting from the next handle,
    /// that are still taken: the first `n` steps from `next_handle`.
    pub open spec fn taken_steps(&self, start: usize, n: int) -> bool {
        forall|i: int| 0 <= i < n ==> #[trigger] lookup_in(self.files(), wrapped_step(start, i) as usize) is Some
    }

    /// The position of the first of the archive entries `entries` named
    /// `name`, or the number of entries if none is.
    pub fn entry_position(entries: &Vec<TarEntry>, name: &str) -> (r: usize)
        ensures
            r == entry_index(entries@.map_values(|e: TarEntry| entry_view(e)), name@),
    {
        let ghost c = entries@.map_values(|e: TarEntry| entry_view(e));
        let ghost p = name@;
        proof {
            assert(entries@.len() == c.len());
            assert(c.subrange(0, c.len() as int) =~= c);
        }
        let mut k: usize = 0;
        let mut found = false;
        while k < entries.len() && !found
            invariant
                p == name@,
                entries@.map_values(|e: TarEntry| entry_view(e)) == c,
                entries@.len() == c.len(),
                k <= c.len(),
                found ==> k < c.len() && c[k as int].0 == Some(p) && entry_index(c, p) == k,
                !found ==> entry_index(c, p) == k + entry_index(c.subrange(k as int, c.len() as int), p),
            decreases c.len() - k + if found { 0int } else { 1int },
        {
            let entry = &entries[k];
            let matches = match &entry.name {
                Some(n) => {
                    let m = str_equal(n.as_str(), name);
                    proof {
                        assert(c[k as int] == entry_view(entries@[k as int]));
                    }
                    m
                },
                None => {
                    proof {
                        assert(c[k as int] == entry_view(entries@[k as int]));
                    }
                    false
                },
            };
            proof {
                let t = c.subrange(k as int, c.len() as int);
                assert(t[0] == c[k as int]);
                assert(t.drop_first() =~= c.subrange(k + 1, c.len() as int));
            }
            if matches {
                found = true;
            } else {
                k = k + 1;
            }
        }
        if !found {
            proof {
                assert(c.subrange(k as int, c.len() as int).len() == 0);
            }
            return entries.len();
        }
        k
    }

    /// Open the file at `path` (a leading `/` is ignored) and return a new
    /// handle for it, read from position zero. The handle is the first number,
    /// counting up from the next handle and wrapping around, that is not in use.
    pub fn open(&mut self, path: &str) -> (r: Result<FileHandle, FsError>)
        requires
            old(self).wf(),
        ensures
            final(self).wf(),
            final(self).archive_spec() == old(self).archive_spec(),
            ({
                let c = archive_contents(old(self).archive_spec());
                let k = entry_index(c, strip_start(path@, '/'));
                if k == c.len() {
                    &&& r == Err::<FileHandle, FsError>(FsError::FileNotFound)
                    &&& final(self).files() == old(self).files()
                    &&& final(self).next_handle_spec() == old(self).next_handle_spec()
                } else {
                    &&& r is Ok
                    &&& c[k].1.len() <= usize::MAX
                    &&& old(self).lookup(r->Ok_0) is None
                    &&& final(self).lookup(r->Ok_0) == Some((c[k].1, 0usize))
                    &&& forall|h: FileHandle| h != r->Ok_0 ==> #[trigger] final(self).lookup(h) == old(self).lookup(h)
                    &&& exists|j: int| #![trigger wrapped_step(old(self).next_handle_spec(), j)]
                        0 <= j <= usize::MAX && old(self).taken_steps(old(self).next_handle_spec(), j)
                        && r->Ok_0 == FileHandle(wrapped_step(old(self).next_handle_spec(), j) as usize)
                        && final(self).next_handle_spec() == wrapped_step(old(self).next_handle_spec(), j + 1) as usize
                }
            }),
    {
        let name = trim_start_matches_char(path, '/');
        let entries = self.archive.entries();
        let ghost c = archive_contents(self.archive.bytes@);
        let k = Self::entry_position(&entries, name);
        proof {
            lemma_entry_index_bounds(c, name@);
        }
        if k == entries.len() {
            return Err(FsError::FileNotFound);
        }
        let data = entries[k].data;
        proof {
            assert(c[k as int] == entry_view(entries@[k as int]));
        }
        let ghost next0 = self.next_handle;
        let ghost files0 = self.files();
        let ghost mut j: int = 0;
        let count = self.open_handles.len();
        let mut candidate: usize;
        loop
            invariant_except_break
                0 <= j <= count,
                count == self.open_handles@.len(),
                self.next_handle == wrapped_step(next0, j) as usize,
                self.taken_steps(next0, j),
            invariant
                self.wf(),
                self.archive == old(self).archive,
                self.files() == files0,
                files0.len() == self.open_handles@.len(),
            ensures
                0 <= j <= usize::MAX,
                candidate == wrapped_step(next0, j) as usize,
                self.next_handle == wrapped_step(next0, j + 1) as usize,
                self.taken_steps(next0, j),
                lookup_in(files0, candidate) is None,
            decreases self.open_handles@.len() - j,
        {
            proof {
                lemma_wrapped_step_next(next0, j);
            }
            candidate = self.next_handle;
            self.next_handle = self.next_handle.wrapping_add(1);
            if self.find_index(candidate).is_none() {
                break;
            }
            proof {
                lemma_taken_steps_bounded(files0, next0, j + 1);
                j = j + 1;
            }
        }
        let ghost old_s = self.files();
        self.open_handles.push(OpenFile { handle: candidate, data, position: 0 });
        proof {
            let s = self.files();
            let v = (candidate, data@, 0usize);
            assert(s =~= old_s.push(v));
            assert forall|h: FileHandle| true implies #[trigger] lookup_in(s, h.0) == if h.0
                == candidate {
                Some((data@, 0usize))
            } else {
                lookup_in(old_s, h.0)
            } by {
                lemma_lookup_push(old_s, v, h.0);
            }
            assert forall|a: int, b: int| 0 <= a < b < self.open_handles@.len() implies (#[trigger] self.open_handles@[a]).handle
                != (#[trigger] self.open_handles@[b]).handle by {
                if b == self.open_handles@.len() - 1 {
                    assert(old_s[a].0 == self.open_handles@[a].handle);
                }
            }
            assert(data@ == archive_contents(old(self).archive_spec())[k as int].1);
            assert(data@.len() == data.len());
            assert(next0 == old(self).next_handle_spec());
            assert(wrapped_step(old(self).next_handle_spec(), j) == candidate);
        }
        Ok(FileHandle(candidate))
    }
}

impl TarFs {
    /// The path in the form used inside the archive: without surrounding
    /// whitespace and without leading or trailing `/`.
    fn normalize(path: &str) -> (r: &str)
        ensures
            r@ == normalized(path@),
    {
        trim_end_matches_char(trim_start_matches_char(trim_str(path), '/'), '/')
    }

    /// The prefix that all entries of the directory `path` share: empty for
    /// the root, else the normalized path followed by `/`.
    fn directory_prefix(path: &str) -> (r: String)
        ensures
            r@ == dir_prefix(path@),
    {
        let n = Self::normalize(path);
        if n.unicode_len() == 0 {
            String::new()
        } else {
            let mut prefix = n.to_owned();
            push_char(&mut prefix, '/');
            prefix
        }
    }

    /// Add the subdirectory `name` to a listing, unless a directory of that
    /// name is listed already.
    fn push_directory(entries: &mut Vec<DirectoryEntry>, name: &str)
        ensures
            listing_view(final(entries)@) == with_directory(listing_view(old(entries)@), name@),
    {
        let ghost v = listing_view(entries@);
        let mut i: usize = 0;
        while i < entries.len()
            invariant
                v == listing_view(entries@),
                i <= entries@.len(),
                forall|j: int| 0 <= j < i ==> !((#[trigger] v[j]).2 == FileType::Directory && v[j].0 == name@),
            decreases entries@.len() - i,
        {
            proof {
                assert(v[i as int] == listed(entries@[i as int]));
            }
            if entries[i].file_type == FileType::Directory && str_equal(entries[i].name.as_str(), name) {
                return;
            }
            i = i + 1;
        }
        entries.push(DirectoryEntry { name: name.to_owned(), size: 0, file_type: FileType::Directory });
        proof {
            assert(listing_view(entries@) =~= v.push((name@, 0nat, FileType::Directory)));
        }
    }

    /// List the entries directly below the directory `path`, sorted by name.
    ///
    /// The directory tree is derived from the entry names: an entry whose name
    /// starts with the directory's prefix contributes a file (no further `/`
    /// in the rest of its name) or a subdirectory (the part before the next
    /// `/`, or the rest of a directory entry's name). Each subdirectory is
    /// listed once. The root always exists; another directory exists if some
    /// entry lies below it or names it. Fails with `FileNotFound` otherwise.
    pub fn list(&self, path: &str) -> (r: Result<Vec<DirectoryEntry>, FsError>)
        ensures
            ({
                let scan = list_scan(archive_contents(self.archive_spec()), dir_prefix(path@));
                if scan.1 {
                    r is Ok && listing_view(r->Ok_0@) == sorted_by_name(scan.0)
                } else {
                    r == Err::<Vec<DirectoryEntry>, FsError>(FsError::FileNotFound)
                }
            }),
            r is Ok <==> directory_exists(archive_contents(self.archive_spec()), dir_prefix(path@)),
            r matches Ok(v) ==> is_sorted_by_name(listing_view(v@)) && directories_distinct(listing_view(v@)),
            r matches Ok(v) ==> forall|k: int| 0 <= k < v@.len() && (#[trigger] listing_view(v@)[k]).2 == FileType::File
                ==> lists_entry(archive_contents(self.archive_spec()), dir_prefix(path@), listing_view(v@)[k]),
            r matches Ok(v) ==> forall|k: int| 0 <= k < v@.len() && (#[trigger] listing_view(v@)[k]).2
                == FileType::Directory ==> lists_directory(archive_contents(self.archive_spec()), dir_prefix(path@), listing_view(v@)[k]),
    {
        let all = self.archive.entries();
        Self::list_entries(&all, path)
    }

    /// The listing of the directory at `path` over the archive entries `all`;
    /// see `list`.
    pub fn list_entries(all: &Vec<TarEntry>, path: &str) -> (r: Result<Vec<DirectoryEntry>, FsError>)
        ensures
            ({
                let scan = list_scan(all@.map_values(|e: TarEntry| entry_view(e)), dir_prefix(path@));
                if scan.1 {
                    r is Ok && listing_view(r->Ok_0@) == sorted_by_name(scan.0)
                } else {
                    r == Err::<Vec<DirectoryEntry>, FsError>(FsError::FileNotFound)
                }
            }),
            r is Ok <==> directory_exists(all@.map_values(|e: TarEntry| entry_view(e)), dir_prefix(path@)),
            r matches Ok(v) ==> is_sorted_by_name(listing_view(v@)) && directories_distinct(listing_view(v@)),
            r matches Ok(v) ==> forall|k: int| 0 <= k < v@.len() && (#[trigger] listing_view(v@)[k]).2 == FileType::File
                ==> lists_entry(all@.map_values(|e: TarEntry| entry_view(e)), dir_prefix(path@), listing_view(v@)[k]),
            r matches Ok(v) ==> forall|k: int| 0 <= k < v@.len() && (#[trigger] listing_view(v@)[k]).2
                == FileType::Directory ==> lists_directory(all@.map_values(|e: TarEntry| entry_view(e)), dir_prefix(path@), listing_view(v@)[k]),
    {
        let prefix = Self::directory_prefix(path);
        let prefix_str = prefix.as_str();
        let plen = prefix_str.unicode_len();
        let prefix_dir = trim_end_matches_char(prefix_str, '/');
        let ghost c = all@.map_values(|e: TarEntry| entry_view(e));
        let ghost pre = prefix_str@;
        let mut entries: Vec<DirectoryEntry> = Vec::new();
        let mut exists = plen == 0;
        let mut k: usize = 0;
        proof {
            assert(c.take(0) =~= Seq::<(Option<Seq<char>>, Seq<u8>)>::empty());
            assert(listing_view(entries@) =~= Seq::<ListedEntry>::empty());
        }
        while k < all.len()
            invariant
                all@.map_values(|e: TarEntry| entry_view(e)) == c,
                all@.len() == c.len(),
                k <= c.len(),
                pre == prefix_str@,
                plen == pre.len(),
                prefix_dir@ == strip_end(pre, '/'),
                (listing_view(entries@), exists) == list_scan(c.take(k as int), pre),
            decreases c.len() - k,
        {
            let ghost acc = (listing_view(entries@), exists);
            proof {
                assert(c[k as int] == entry_view(all@[k as int]));
                assert(c.take(k + 1).drop_last() =~= c.take(k as int));
                assert(c.take(k + 1).last() == c[k as int]);
            }
            let entry = &all[k];
            match &entry.name {
                None => {},
                Some(raw_name) => {
                    let raw = raw_name.as_str();
                    let is_dir = ends_with_char(raw, '/');
                    let name = trim_end_matches_char(raw, '/');
                    if plen > 0 && str_equal(name, prefix_dir) {
                        exists = true;
                    } else if starts_with(name, prefix_str) {
                        let nlen = name.unicode_len();
                        let rest = name.substring_char(plen, nlen);
                        let rlen = rest.unicode_len();
                        if rlen > 0 {
                            exists = true;
                            let slash = find_char(rest, '/');
                            if slash < rlen {
                                proof {
                                    assert(rest@.subrange(0, slash as int) =~= rest@.take(slash as int));
                                }
                                Self::push_directory(&mut entries, rest.substring_char(0, slash));
                            } else if is_dir {
                                Self::push_directory(&mut entries, rest);
                            } else {
                                let ghost before = listing_view(entries@);
                                entries.push(DirectoryEntry { name: rest.to_owned(), size: entry.data.len(), file_type: FileType::File });
                                proof {
                                    assert(listing_view(entries@) =~= before.push((rest@, entry.data@.len(), FileType::File)));
                                }
                            }
                        }
                    }
                },
            }
            proof {
                assert((listing_view(entries@), exists) == list_step(acc, c[k as int], pre));
            }
            k = k + 1;
        }
        proof {
            assert(c.take(k as int) =~= c);
            lemma_directory_exists(c, pre);
            lemma_directories_listed_once(c, pre);
            lemma_sorted_directories_distinct(listing_view(entries@));
            lemma_listing_sorted(listing_view(entries@));
            lemma_listed_file_sizes(c, pre);
            lemma_listed_directories(c, pre);
        }
        if !exists {
            return Err(FsError::FileNotFound);
        }
        Ok(sort_listing(entries))
    }

    /// The size and type of the file or directory at `path`. The first
    /// archive entry whose name, without trailing `/`, is the normalized path
    /// decides: a name ending in `/` is a directory. A path that names no
    /// entry is a directory if some entry lies below it (the root always
    /// does), and is not found otherwise.
    pub fn metadata(&self, path: &str) -> (r: Result<Metadata, FsError>)
        ensures
            r == metadata_result(archive_contents(self.archive_spec()), path@),
    {
        let all = self.archive.entries();
        Self::entries_metadata(&all, path)
    }

    /// The metadata of `path` over the archive entries `all`; see `metadata`.
    pub fn entries_metadata(all: &Vec<TarEntry>, path: &str) -> (r: Result<Metadata, FsError>)
        ensures
            r == metadata_result(all@.map_values(|e: TarEntry| entry_view(e)), path@),
    {
        let norm = Self::normalize(path);
        let ghost c = all@.map_values(|e: TarEntry| entry_view(e));
        let mut k: usize = 0;
        proof {
            assert(c.skip(0) =~= c);
        }
        while k < all.len()
            invariant
                all@.map_values(|e: TarEntry| entry_view(e)) == c,
                all@.len() == c.len(),
                k <= c.len(),
                meta_index(c, norm@) == k + meta_index(c.skip(k as int), norm@),
                norm@ == normalized(path@),
            decreases c.len() - k,
        {
            proof {
                assert(c[k as int] == entry_view(all@[k as int]));
                assert(c.skip(k as int)[0] == c[k as int]);
                assert(c.skip(k as int).drop_first() =~= c.skip(k + 1));
            }
            let entry = &all[k];
            match &entry.name {
                None => {},
                Some(raw_name) => {
                    let raw = raw_name.as_str();
                    proof {
                        assert(c[k as int].0 == Some(raw@));
                    }
                    if str_equal(trim_end_matches_char(raw, '/'), norm) {
                        proof {
                            assert(names_path(c[k as int], norm@));
                        }
                        if ends_with_char(raw, '/') {
                            return Ok(Metadata { size: 0, file_type: FileType::Directory });
                        } else {
                            return Ok(Metadata { size: entry.data.len(), file_type: FileType::File });
                        }
                    }
                },
            }
            k = k + 1;
        }
        proof {
            assert(c.skip(k as int).len() == 0);
        }
        if Self::directory_has_entries(all, norm) {
            Ok(Metadata { size: 0, file_type: FileType::Directory })
        } else {
            Err(FsError::FileNotFound)
        }
    }

    /// Whether some of the archive entries `all` lies below the normalized
    /// path; the root always has entries.
    pub fn directory_has_entries(all: &Vec<TarEntry>, normalized: &str) -> (r: bool)
        ensures
            r == has_entries_below(all@.map_values(|e: TarEntry| entry_view(e)), normalized@),
    {
        if normalized.unicode_len() == 0 {
            return true;
        }
        let mut prefix = normalized.to_owned();
        push_char(&mut prefix, '/');
        let ghost c = all@.map_values(|e: TarEntry| entry_view(e));
        let mut k: usize = 0;
        while k < all.len()
            invariant
                all@.map_values(|e: TarEntry| entry_view(e)) == c,
                all@.len() == c.len(),
                k <= c.len(),
                prefix@ == normalized@.push('/'),
                normalized@.len() > 0,
                forall|i: int| 0 <= i < k ==> !below(#[trigger] c[i], normalized@),
            decreases c.len() - k,
        {
            proof {
                assert(c[k as int] == entry_view(all@[k as int]));
            }
            let found = match &all[k].name {
                None => false,
                Some(raw_name) => {
                    let f = starts_with(raw_name.as_str(), prefix.as_str());
                    proof {
                        assert(c[k as int].0 == Some(raw_name@));
                        assert(f == below(c[k as int], normalized@));
                    }
                    f
                },
            };
            if found {
                return true;
            }
            k = k + 1;
        }
        false
    }
}

/// The metadata of `path` in an archive with the entries `c`: the first
/// entry whose name, without trailing `/`, is the normalized path decides (a
/// name ending in `/` is a directory); a path that names no entry is a
/// directory if some entry lies below it, and is not found otherwise.
pub open spec fn metadata_result(c: Seq<(Option<Seq<char>>, Seq<u8>)>, path: Seq<char>) -> Result<Metadata, FsError> {
    let norm = normalized(path);
    let k = meta_index(c, norm);
    if 0 <= k < c.len() {
        let raw = c[k].0->Some_0;
        if raw.len() > 0 && raw.last() == '/' {
            Ok(Metadata { size: 0, file_type: FileType::Directory })
        } else {
            Ok(Metadata { size: c[k].1.len() as usize, file_type: FileType::File })
        }
    } else if has_entries_below(c, norm) {
        Ok(Metadata { size: 0, file_type: FileType::Directory })
    } else {
        Err(FsError::FileNotFound)
    }
}

/// Whether the entry `e` is named by `norm`, ignoring trailing `/`.
pub open spec fn names_path(e: (Option<Seq<char>>, Seq<u8>), norm: Seq<char>) -> bool {
    match e.0 {
        Some(n) => strip_end(n, '/') == norm,
        None => false,
    }
}

/// Index of the first entry named by `norm`, or the number of entries.
pub open spec fn meta_index(c: Seq<(Option<Seq<char>>, Seq<u8>)>, norm: Seq<char>) -> int
    decreases c.len(),
{
    if c.len() == 0 || names_path(c[0], norm) {
        0
    } else {
        1 + meta_index(c.drop_first(), norm)
    }
}

/// Whether the entry `e` lies below the directory `norm`.
pub open spec fn below(e: (Option<Seq<char>>, Seq<u8>), norm: Seq<char>) -> bool {
    match e.0 {
        Some(n) => is_prefix_of(norm.push('/'), n),
        None => false,
    }
}

/// Whether the directory `norm` has entries below it; the root always has.
pub open spec fn has_entries_below(c: Seq<(Option<Seq<char>>, Seq<u8>)>, norm: Seq<char>) -> bool {
    norm.len() == 0 || exists|i: int| 0 <= i < c.len() && below(#[trigger] c[i], norm)
}

/// A seek never leaves the file: the new position lies between zero and the
/// file size, whatever the offset; seeking zero bytes from the start or the
/// end reaches the start or the end.
pub proof fn lemma_seek_within_file(mode: SeekMode, pos: int, size: int, offset: int)
    requires
        0 <= pos <= size,
    ensures
        0 <= seek_target(seek_base(mode, pos, size), offset, size) <= size,
        seek_target(seek_base(SeekMode::Start, pos, size), 0, size) == 0,
        seek_target(seek_base(SeekMode::End, pos, size), 0, size) == size,
        seek_target(seek_base(SeekMode::Current, pos, size), 0, size) == pos,
{
}

/// A read at position `pos` with a buffer of `capacity` bytes takes what the
/// buffer holds, but never more than what is left of the file; a buffer as
/// large as the rest of the file takes all of it.
pub proof fn lemma_read_takes_rest(size: int, pos: int, capacity: int)
    requires
        0 <= pos < size,
        0 <= capacity,
    ensures
        0 <= read_count(size, pos, capacity) <= capacity,
        pos + read_count(size, pos, capacity) <= size,
        capacity >= size - pos ==> read_count(size, pos, capacity) == size - pos,
{
}

/// The root directory always exists, even in an archive without entries.
pub proof fn lemma_root_always_listed(c: Seq<(Option<Seq<char>>, Seq<u8>)>)
    ensures
        list_scan(c, Seq::empty()).1,
    decreases c.len(),
{
    if c.len() > 0 {
        lemma_root_always_listed(c.drop_last());
    }
}

/// No two directories of a listing have the same name.
pub open spec fn directories_distinct(s: Seq<ListedEntry>) -> bool {
    forall|i: int, j: int|
        0 <= i < j < s.len() && (#[trigger] s[i]).2 == FileType::Directory && (#[trigger] s[j]).2
            == FileType::Directory ==> s[i].0 != s[j].0
}

/// A subdirectory is usually implied by several entries, but it is listed once.
pub proof fn lemma_directories_listed_once(c: Seq<(Option<Seq<char>>, Seq<u8>)>, prefix: Seq<char>)
    ensures
        directories_distinct(list_scan(c, prefix).0),
    decreases c.len(),
{
    if c.len() > 0 {
        lemma_directories_listed_once(c.drop_last(), prefix);
        let acc = list_scan(c.drop_last(), prefix).0;
        assert forall|name: Seq<char>| true implies directories_distinct(#[trigger] with_directory(acc, name)) by {
            if !(exists|i: int| 0 <= i < acc.len() && (#[trigger] acc[i]).2 == FileType::Directory && acc[i].0 == name) {
                let t = acc.push((name, 0nat, FileType::Directory));
                assert forall|i: int, j: int|
                    0 <= i < j < t.len() && (#[trigger] t[i]).2 == FileType::Directory && (#[trigger] t[j]).2
                        == FileType::Directory implies t[i].0 != t[j].0 by {
                    if j == acc.len() {
                        assert(t[i] == acc[i]);
                    } else {
                        assert(t[i] == acc[i] && t[j] == acc[j]);
                    }
                }
            }
        }
        assert forall|e: ListedEntry| e.2 == FileType::File implies directories_distinct(#[trigger] acc.push(e)) by {
            let t = acc.push(e);
            assert forall|i: int, j: int|
                0 <= i < j < t.len() && (#[trigger] t[i]).2 == FileType::Directory && (#[trigger] t[j]).2
                    == FileType::Directory implies t[i].0 != t[j].0 by {
                assert(t[i] == acc[i] && t[j] == acc[j]);
            }
        }
    }
}

/// Whether the listed file `e` is the archive entry named `prefix` followed
/// by its name, with that entry's data length as its size.
pub open spec fn lists_entry(c: Seq<(Option<Seq<char>>, Seq<u8>)>, prefix: Seq<char>, e: ListedEntry) -> bool {
    exists|j: int| 0 <= j < c.len() && #[trigger] c[j].0 == Some(prefix + e.0) && c[j].1.len() == e.1
}

proof fn lemma_scan_file_sizes(c: Seq<(Option<Seq<char>>, Seq<u8>)>, prefix: Seq<char>)
    ensures
        forall|k: int| 0 <= k < list_scan(c, prefix).0.len() && (#[trigger] list_scan(c, prefix).0[k]).2
            == FileType::File ==> lists_entry(c, prefix, list_scan(c, prefix).0[k]),
    decreases c.len(),
{
    if c.len() > 0 {
        let d = c.drop_last();
        lemma_scan_file_sizes(d, prefix);
        let acc = list_scan(d, prefix);
        let r = list_scan(c, prefix).0;
        let e = c.last();
        assert forall|k: int| 0 <= k < r.len() && (#[trigger] r[k]).2 == FileType::File implies lists_entry(
            c,
            prefix,
            r[k],
        ) by {
            if k < acc.0.len() && r[k] == acc.0[k] {
                let j = choose|j: int| 0 <= j < d.len() && #[trigger] d[j].0 == Some(prefix + acc.0[k].0) && d[j].1.len()
                    == acc.0[k].1;
                assert(c[j] == d[j]);
            } else {
                match e.0 {
                    None => {},
                    Some(raw) => {
                        let name = strip_end(raw, '/');
                        let rest = name.subrange(prefix.len() as int, name.len() as int);
                        let is_dir = raw.len() > 0 && raw.last() == '/';
                        if !is_dir && is_prefix_of(prefix, name) && !(prefix.len() > 0 && name == strip_end(prefix, '/')) {
                            assert(name == raw);
                            assert(prefix + rest =~= name);
                            assert(c[c.len() - 1] == e);
                        }
                    },
                }
            }
        }
    }
}

/// Every file in the listing of the directory with `prefix`, for any
/// directory, is the archive entry named `prefix` followed by the listed
/// name, and has that entry's data length as its size.
pub proof fn lemma_listed_file_sizes(c: Seq<(Option<Seq<char>>, Seq<u8>)>, prefix: Seq<char>)
    ensures
        forall|k: int| 0 <= k < sorted_by_name(list_scan(c, prefix).0).len()
            && (#[trigger] sorted_by_name(list_scan(c, prefix).0)[k]).2 == FileType::File ==> lists_entry(
            c,
            prefix,
            sorted_by_name(list_scan(c, prefix).0)[k],
        ),
{
    broadcast use vstd::seq_lib::group_to_multiset_ensures;
    let u = list_scan(c, prefix).0;
    let t = sorted_by_name(u);
    lemma_scan_file_sizes(c, prefix);
    lemma_listing_sorted(u);
    assert forall|k: int| 0 <= k < t.len() && (#[trigger] t[k]).2 == FileType::File implies lists_entry(c, prefix, t[k]) by {
        assert(t.to_multiset().count(t[k]) > 0);
        assert(u.contains(t[k]));
        let m = choose|m: int| 0 <= m < u.len() && u[m] == t[k];
        assert(u[m].2 == FileType::File);
    }
}

/// Whether the listed directory `e` lies in the directory with `prefix`: it
/// has size 0, and some archive entry's name (without trailing `/`) is
/// `prefix` followed by the directory's name, alone or followed by `/`.
pub open spec fn lists_directory(c: Seq<(Option<Seq<char>>, Seq<u8>)>, prefix: Seq<char>, e: ListedEntry) -> bool {
    &&& e.1 == 0
    &&& exists|j: int, raw: Seq<char>| #![trigger c[j], raw.len()]
        0 <= j < c.len() && c[j].0 == Some(raw) && is_prefix_of(prefix + e.0, strip_end(raw, '/')) && (strip_end(
            raw,
            '/',
        ).len() == prefix.len() + e.0.len() || strip_end(raw, '/')[(prefix.len() + e.0.len()) as int] == '/')
}

/// `char_index` is the position of the first occurrence.
proof fn lemma_char_index_is_first(s: Seq<char>, c: char)
    ensures
        char_index(s, c) <= s.len(),
        char_index(s, c) < s.len() ==> s[char_index(s, c) as int] == c,
    decreases s.len(),
{
    if s.len() > 0 && s[0] != c {
        lemma_char_index_is_first(s.drop_first(), c);
    }
}

proof fn lemma_scan_directories(c: Seq<(Option<Seq<char>>, Seq<u8>)>, prefix: Seq<char>)
    ensures
        forall|k: int| 0 <= k < list_scan(c, prefix).0.len() && (#[trigger] list_scan(c, prefix).0[k]).2
            == FileType::Directory ==> lists_directory(c, prefix, list_scan(c, prefix).0[k]),
    decreases c.len(),
{
    if c.len() > 0 {
        let d = c.drop_last();
        lemma_scan_directories(d, prefix);
        let acc = list_scan(d, prefix);
        let r = list_scan(c, prefix).0;
        let e = c.last();
        assert(c[c.len() - 1] == e);
        assert forall|k: int| 0 <= k < r.len() && (#[trigger] r[k]).2 == FileType::Directory implies lists_directory(
            c,
            prefix,
            r[k],
        ) by {
            if k < acc.0.len() && r[k] == acc.0[k] {
                let (j, raw) = choose|j: int, raw: Seq<char>| #![trigger d[j], raw.len()]
                    0 <= j < d.len() && d[j].0 == Some(raw) && is_prefix_of(prefix + acc.0[k].0, strip_end(raw, '/')) && (
                    strip_end(raw, '/').len() == prefix.len() + acc.0[k].0.len() || strip_end(raw, '/')[(prefix.len()
                        + acc.0[k].0.len()) as int] == '/');
                assert(c[j] == d[j]);
                assert(raw.len() == raw.len());
            } else {
                match e.0 {
                    None => {},
                    Some(raw) => {
                        let name = strip_end(raw, '/');
                        let rest = name.subrange(prefix.len() as int, name.len() as int);
                        let slash = char_index(rest, '/');
                        lemma_char_index_is_first(rest, '/');
                        if is_prefix_of(prefix, name) && !(prefix.len() > 0 && name == strip_end(prefix, '/')) {
                            let jl = c.len() - 1;
                            assert(c[jl].0 == Some(raw));
                            if slash < rest.len() {
                                let dn = rest.take(slash as int);
                                assert(k == acc.0.len());
                                assert(r == acc.0.push((dn, 0nat, FileType::Directory)));
                                assert(r[k] == (dn, 0nat, FileType::Directory));
                                assert((prefix + dn) =~= name.subrange(0, (prefix.len() + slash) as int));
                                assert(name[(prefix.len() + slash) as int] == rest[slash as int]);
                                assert(is_prefix_of(prefix + dn, name));
                                assert(raw.len() == raw.len());
                                assert(lists_directory(c, prefix, r[k]));
                            } else {
                                assert(k == acc.0.len());
                                assert(r[k] == (rest, 0nat, FileType::Directory));
                                assert(prefix + rest =~= name);
                                assert(name.subrange(0, name.len() as int) =~= name);
                                assert(is_prefix_of(prefix + rest, name));
                                assert(raw.len() == raw.len());
                                assert(lists_directory(c, prefix, r[k]));
                            }
                        }
                    },
                }
            }
        }
    }
}

/// Every directory in the listing of the directory with `prefix` has size 0
/// and lies in that directory: some archive entry's name is `prefix` followed
/// by the directory's name, alone or followed by `/` and more.
pub proof fn lemma_listed_directories(c: Seq<(Option<Seq<char>>, Seq<u8>)>, prefix: Seq<char>)
    ensures
        forall|k: int| 0 <= k < sorted_by_name(list_scan(c, prefix).0).len()
            && (#[trigger] sorted_by_name(list_scan(c, prefix).0)[k]).2 == FileType::Directory ==> lists_directory(
            c,
            prefix,
            sorted_by_name(list_scan(c, prefix).0)[k],
        ),
{
    broadcast use vstd::seq_lib::group_to_multiset_ensures;
    let u = list_scan(c, prefix).0;
    let t = sorted_by_name(u);
    lemma_scan_directories(c, prefix);
    lemma_listing_sorted(u);
    assert forall|k: int| 0 <= k < t.len() && (#[trigger] t[k]).2 == FileType::Directory implies lists_directory(c, prefix, t[k]) by {
        assert(t.to_multiset().count(t[k]) > 0);
        assert(u.contains(t[k]));
        let m = choose|m: int| 0 <= m < u.len() && u[m] == t[k];
        assert(u[m].2 == FileType::Directory);
    }
}

/// Whether an archive entry shows that the directory with `prefix` exists: it
/// names the directory itself, or its name, without trailing `/`, lies below it.
pub open spec fn shows_directory(e: (Option<Seq<char>>, Seq<u8>), prefix: Seq<char>) -> bool {
    match e.0 {
        None => false,
        Some(raw) => {
            let name = strip_end(raw, '/');
            ||| prefix.len() > 0 && name == strip_end(prefix, '/')
            ||| is_prefix_of(prefix, name) && name.len() > prefix.len()
        },
    }
}

/// The directory with `prefix` exists: it is the root, or some entry shows it.
pub open spec fn directory_exists(c: Seq<(Option<Seq<char>>, Seq<u8>)>, prefix: Seq<char>) -> bool {
    prefix.len() == 0 || exists|i: int| 0 <= i < c.len() && shows_directory(#[trigger] c[i], prefix)
}

/// The scan finds the directory exactly when it exists.
pub proof fn lemma_directory_exists(c: Seq<(Option<Seq<char>>, Seq<u8>)>, prefix: Seq<char>)
    ensures
        list_scan(c, prefix).1 == directory_exists(c, prefix),
    decreases c.len(),
{
    if c.len() > 0 {
        let d = c.drop_last();
        lemma_directory_exists(d, prefix);
        let e = c.last();
        assert(e == c[c.len() - 1]);
        assert forall|i: int| 0 <= i < d.len() implies #[trigger] d[i] == c[i] by {}
        if directory_exists(d, prefix) && prefix.len() > 0 {
            let i = choose|i: int| 0 <= i < d.len() && shows_directory(#[trigger] d[i], prefix);
            assert(shows_directory(c[i], prefix));
        }
        if directory_exists(c, prefix) && prefix.len() > 0 && !shows_directory(e, prefix) {
            let i = choose|i: int| 0 <= i < c.len() && shows_directory(#[trigger] c[i], prefix);
            assert(i < c.len() - 1);
            assert(shows_directory(d[i], prefix));
        }
        match e.0 {
            None => {},
            Some(raw) => {
                let name = strip_end(raw, '/');
                if !(prefix.len() > 0 && name == strip_end(prefix, '/')) && is_prefix_of(prefix, name) {
                    assert(name.subrange(prefix.len() as int, name.len() as int).len() == name.len() - prefix.len());
                }
            },
        }
    }
}

/// Sorting keeps the directories of a listing distinct.
pub proof fn lemma_sorted_directories_distinct(s: Seq<ListedEntry>)
    requires
        directories_distinct(s),
    ensures
        directories_distinct(sorted_by_name(s)),
    decreases s.len(),
{
    broadcast use vstd::seq_lib::group_to_multiset_ensures;
    if s.len() > 0 {
        let s0 = s.drop_last();
        let x = s.last();
        assert(directories_distinct(s0)) by {
            assert forall|i: int, j: int|
                0 <= i < j < s0.len() && (#[trigger] s0[i]).2 == FileType::Directory && (#[trigger] s0[j]).2
                    == FileType::Directory implies s0[i].0 != s0[j].0 by {
                assert(s0[i] == s[i] && s0[j] == s[j]);
            }
        }
        lemma_sorted_directories_distinct(s0);
        lemma_listing_sorted(s0);
        let r = sorted_by_name(s0);
        lemma_insert_position(r, x);
        let p = insert_position(r, x);
        let t = r.insert(p, x);
        assert forall|k: int| 0 <= k < r.len() && (#[trigger] r[k]).2 == FileType::Directory
            && x.2 == FileType::Directory implies r[k].0 != x.0 by {
            assert(r.to_multiset().count(r[k]) > 0);
            assert(s0.contains(r[k]));
            let m = choose|m: int| 0 <= m < s0.len() && s0[m] == r[k];
            assert(s[m] == r[k] && s[s.len() - 1] == x);
        }
        assert forall|i: int, j: int|
            0 <= i < j < t.len() && (#[trigger] t[i]).2 == FileType::Directory && (#[trigger] t[j]).2
                == FileType::Directory implies t[i].0 != t[j].0 by {
            if j < p {
                assert(t[i] == r[i] && t[j] == r[j]);
            } else if j == p {
                assert(t[i] == r[i] && t[j] == x);
            } else if i < p {
                assert(t[i] == r[i] && t[j] == r[j - 1]);
            } else if i == p {
                assert(t[i] == x && t[j] == r[j - 1]);
            } else {
                assert(t[i] == r[i - 1] && t[j] == r[j - 1]);
            }
        }
    }
}

/// A listing entry as a value: name, size and type.
pub type ListedEntry = (Seq<char>, nat, FileType);

/// The meaning of a directory entry.
pub open spec fn listed(d: DirectoryEntry) -> ListedEntry {
    (d.name@, d.size as nat, d.file_type)
}

/// The meaning of a listing.
pub open spec fn listing_view(v: Seq<DirectoryEntry>) -> Seq<ListedEntry> {
    v.map_values(|d: DirectoryEntry| listed(d))
}

/// `path` without surrounding whitespace and without leading or trailing `/`:
/// the form of a path inside the archive.
pub open spec fn normalized(path: Seq<char>) -> Seq<char> {
    strip_end(strip_start(trim(path), '/'), '/')
}

/// The prefix that the names of all entries of the directory `path` share:
/// empty for the root, else the normalized path followed by `/`.
pub open spec fn dir_prefix(path: Seq<char>) -> Seq<char> {
    if normalized(path).len() == 0 {
        Seq::empty()
    } else {
        normalized(path).push('/')
    }
}

/// `s` with a directory entry `name` added, unless a directory of that name is listed.
pub open spec fn with_directory(s: Seq<ListedEntry>, name: Seq<char>) -> Seq<ListedEntry> {
    if exists|i: int| 0 <= i < s.len() && (#[trigger] s[i]).2 == FileType::Directory && s[i].0 == name {
        s
    } else {
        s.push((name, 0nat, FileType::Directory))
    }
}

/// What one archive entry adds to the listing of the directory with `prefix`,
/// and whether it shows that the directory exists.
pub open spec fn list_step(acc: (Seq<ListedEntry>, bool), e: (Option<Seq<char>>, Seq<u8>), prefix: Seq<char>) -> (Seq<ListedEntry>, bool) {
    match e.0 {
        None => acc,
        Some(raw) => {
            let is_dir = raw.len() > 0 && raw.last() == '/';
            let name = strip_end(raw, '/');
            if prefix.len() > 0 && name == strip_end(prefix, '/') {
                (acc.0, true)
            } else if !is_prefix_of(prefix, name) {
                acc
            } else {
                let rest = name.subrange(prefix.len() as int, name.len() as int);
                let slash = char_index(rest, '/');
                if rest.len() == 0 {
                    acc
                } else if slash < rest.len() {
                    (with_directory(acc.0, rest.take(slash as int)), true)
                } else if is_dir {
                    (with_directory(acc.0, rest), true)
                } else {
                    (acc.0.push((rest, e.1.len(), FileType::File)), true)
                }
            }
        },
    }
}

/// The unsorted listing of the directory with `prefix` over the entries `c`,
/// in archive order, and whether the directory exists.
pub open spec fn list_scan(c: Seq<(Option<Seq<char>>, Seq<u8>)>, prefix: Seq<char>) -> (Seq<ListedEntry>, bool)
    decreases c.len(),
{
    if c.len() == 0 {
        (Seq::empty(), prefix.len() == 0)
    } else {
        list_step(list_scan(c.drop_last(), prefix), c.last(), prefix)
    }
}

/// Lexicographic order of names, character by character.
pub open spec fn name_le(a: Seq<char>, b: Seq<char>) -> bool
    decreases a.len(),
{
    if a.len() == 0 {
        true
    } else if b.len() == 0 {
        false
    } else if a[0] != b[0] {
        a[0] < b[0]
    } else {
        name_le(a.drop_first(), b.drop_first())
    }
}

/// Where a stable sort by name puts `x` into the sorted `s`: after every
/// entry whose name is not greater.
pub open spec fn insert_position(s: Seq<ListedEntry>, x: ListedEntry) -> int
    decreases s.len(),
{
    if s.len() == 0 {
        0
    } else if name_le(s.last().0, x.0) {
        s.len() as int
    } else {
        insert_position(s.drop_last(), x)
    }
}

/// `s` stably sorted by name.
pub open spec fn sorted_by_name(s: Seq<ListedEntry>) -> Seq<ListedEntry>
    decreases s.len(),
{
    if s.len() == 0 {
        s
    } else {
        let r = sorted_by_name(s.drop_last());
        r.insert(insert_position(r, s.last()), s.last())
    }
}

/// Whether a listing is ordered by name.
pub open spec fn is_sorted_by_name(s: Seq<ListedEntry>) -> bool {
    forall|i: int, j: int| 0 <= i < j < s.len() ==> name_le((#[trigger] s[i]).0, (#[trigger] s[j]).0)
}

/// Every name is ordered before itself.
proof fn lemma_name_le_reflexive(a: Seq<char>)
    ensures
        name_le(a, a),
    decreases a.len(),
{
    if a.len() > 0 {
        lemma_name_le_reflexive(a.drop_first());
    }
}

/// Of two names, one is ordered before the other.
proof fn lemma_name_le_total(a: Seq<char>, b: Seq<char>)
    ensures
        name_le(a, b) || name_le(b, a),
    decreases a.len(),
{
    if a.len() > 0 && b.len() > 0 {
        if a[0] == b[0] {
            lemma_name_le_total(a.drop_first(), b.drop_first());
        }
    }
}

/// The order of names is transitive.
proof fn lemma_name_le_transitive(a: Seq<char>, b: Seq<char>, c: Seq<char>)
    requires
        name_le(a, b),
        name_le(b, c),
    ensures
        name_le(a, c),
    decreases a.len(),
{
    if a.len() > 0 && b.len() > 0 && c.len() > 0 && a[0] == b[0] && b[0] == c[0] {
        lemma_name_le_transitive(a.drop_first(), b.drop_first(), c.drop_first());
    }
}

/// Where `insert_position` puts `x` into a sorted listing: after every entry
/// ordered before it, before every entry ordered after it.
proof fn lemma_insert_position(r: Seq<ListedEntry>, x: ListedEntry)
    requires
        is_sorted_by_name(r),
    ensures
        0 <= insert_position(r, x) <= r.len(),
        forall|i: int| 0 <= i < insert_position(r, x) ==> name_le((#[trigger] r[i]).0, x.0),
        forall|i: int| insert_position(r, x) <= i < r.len() ==> !name_le((#[trigger] r[i]).0, x.0),
    decreases r.len(),
{
    if r.len() > 0 {
        if name_le(r.last().0, x.0) {
            assert forall|i: int| 0 <= i < r.len() implies name_le((#[trigger] r[i]).0, x.0) by {
                if i < r.len() - 1 {
                    lemma_name_le_transitive(r[i].0, r.last().0, x.0);
                }
            }
        } else {
            let d = r.drop_last();
            assert(is_sorted_by_name(d)) by {
                assert forall|i: int, j: int| 0 <= i < j < d.len() implies name_le((#[trigger] d[i]).0, (#[trigger] d[j]).0) by {
                    assert(d[i] == r[i] && d[j] == r[j]);
                }
            }
            lemma_insert_position(d, x);
            assert forall|i: int| 0 <= i < insert_position(r, x) implies name_le((#[trigger] r[i]).0, x.0) by {
                assert(r[i] == d[i]);
            }
            assert forall|i: int| insert_position(r, x) <= i < r.len() implies !name_le((#[trigger] r[i]).0, x.0) by {
                if i < r.len() - 1 {
                    assert(r[i] == d[i]);
                }
            }
        }
    }
}

/// A directory listing is ordered by name and holds exactly the entries it
/// was built from.
pub proof fn lemma_listing_sorted(s: Seq<ListedEntry>)
    ensures
        is_sorted_by_name(sorted_by_name(s)),
        sorted_by_name(s).to_multiset() == s.to_multiset(),
    decreases s.len(),
{
    broadcast use vstd::seq_lib::group_to_multiset_ensures;
    if s.len() > 0 {
        let r = sorted_by_name(s.drop_last());
        let x = s.last();
        lemma_listing_sorted(s.drop_last());
        lemma_insert_position(r, x);
        let p = insert_position(r, x);
        let t = r.insert(p, x);
        assert forall|i: int, j: int| 0 <= i < j < t.len() implies name_le((#[trigger] t[i]).0, (#[trigger] t[j]).0) by {
            if j < p {
                assert(t[i] == r[i] && t[j] == r[j]);
            } else if j == p {
                assert(t[i] == r[i]);
            } else if i < p {
                assert(t[i] == r[i] && t[j] == r[j - 1]);
                lemma_name_le_total(r[j - 1].0, x.0);
                lemma_name_le_transitive(r[i].0, x.0, r[j - 1].0);
            } else if i == p {
                assert(t[j] == r[j - 1]);
                lemma_name_le_total(r[j - 1].0, x.0);
            } else {
                assert(t[i] == r[i - 1] && t[j] == r[j - 1]);
            }
        }
        assert(s.drop_last().push(x) =~= s);
        vstd::seq_lib::to_multiset_insert(r, p, x);
    }
}

/// Character-wise lexicographic comparison of two names.
fn name_less_or_equal(a: &str, b: &str) -> (r: bool)
    ensures
        r == name_le(a@, b@),
{
    let n = a.unicode_len();
    let m = b.unicode_len();
    let mut i: usize = 0;
    proof {
        assert(a@.skip(0) =~= a@);
        assert(b@.skip(0) =~= b@);
    }
    while i < n && i < m && a.get_char(i) == b.get_char(i)
        invariant
            n == a@.len(),
            m == b@.len(),
            i <= n,
            i <= m,
            name_le(a@, b@) == name_le(a@.skip(i as int), b@.skip(i as int)),
        decreases n - i,
    {
        proof {
            assert(a@.skip(i as int).drop_first() =~= a@.skip(i + 1));
            assert(b@.skip(i as int).drop_first() =~= b@.skip(i + 1));
            assert(a@.skip(i as int)[0] == a@[i as int]);
            assert(b@.skip(i as int)[0] == b@[i as int]);
        }
        i = i + 1;
    }
    if i == n {
        true
    } else if i == m {
        false
    } else {
        proof {
            assert(a@.skip(i as int)[0] == a@[i as int]);
            assert(b@.skip(i as int)[0] == b@[i as int]);
        }
        a.get_char(i) < b.get_char(i)
    }
}

/// Sort a listing stably by name.
fn sort_listing(entries: Vec<DirectoryEntry>) -> (r: Vec<DirectoryEntry>)
    ensures
        listing_view(r@) == sorted_by_name(listing_view(entries@)),
{
    let ghost orig = listing_view(entries@);
    let mut rest = entries;
    let mut sorted: Vec<DirectoryEntry> = Vec::new();
    let ghost mut k: int = 0;
    proof {
        assert(orig.take(0) =~= Seq::<ListedEntry>::empty());
        assert(listing_view(sorted@) =~= Seq::<ListedEntry>::empty());
        assert(listing_view(rest@) =~= orig.skip(0));
    }
    while rest.len() > 0
        invariant
            0 <= k <= orig.len(),
            listing_view(rest@) == orig.skip(k),
            listing_view(sorted@) == sorted_by_name(orig.take(k)),
        decreases rest@.len(),
    {
        let ghost old_rest = rest@;
        proof {
            assert(listing_view(old_rest).len() == old_rest.len());
            assert(k < orig.len());
        }
        let x = rest.remove(0);
        let ghost xv = listed(x);
        let ghost sv = listing_view(sorted@);
        proof {
            assert(listing_view(old_rest)[0] == listed(old_rest[0]));
            assert(xv == orig[k]) by {
                assert(orig.skip(k)[0] == orig[k]);
            }
            assert(rest@ =~= old_rest.drop_first());
            assert(listing_view(rest@) =~= orig.skip(k + 1)) by {
                assert forall|i: int| 0 <= i < rest@.len() implies #[trigger] listing_view(rest@)[i] == orig.skip(k + 1)[i] by {
                    assert(listing_view(old_rest)[i + 1] == listed(old_rest[i + 1]));
                    assert(orig.skip(k)[i + 1] == orig[k + 1 + i]);
                }
            }
        }
        let mut pos = sorted.len();
        proof {
            assert(sv.take(pos as int) =~= sv);
        }
        while pos > 0 && !name_less_or_equal(sorted[pos - 1].name.as_str(), x.name.as_str())
            invariant
                pos <= sorted@.len(),
                sv == listing_view(sorted@),
                xv == listed(x),
                insert_position(sv, xv) == insert_position(sv.take(pos as int), xv),
            decreases pos,
        {
            proof {
                assert(sv.take(pos as int).drop_last() =~= sv.take(pos - 1));
                assert(sv.take(pos as int).last() == sv[pos - 1]);
            }
            pos = pos - 1;
        }
        proof {
            if pos > 0 {
                assert(sv.take(pos as int).last() == sv[pos - 1]);
            }
        }
        sorted.insert(pos, x);
        proof {
            assert(orig.take(k + 1).drop_last() =~= orig.take(k));
            assert(orig.take(k + 1).last() == orig[k]);
            assert(listing_view(sorted@) =~= sv.insert(pos as int, xv));
            k = k + 1;
        }
    }
    proof {
        assert(orig.take(k) =~= orig);
    }
    sorted
}

/// Index of the first entry named `path` among the archive's entries, or the
/// number of entries if there is none.
pub open spec fn entry_index(c: Seq<(Option<Seq<char>>, Seq<u8>)>, path: Seq<char>) -> int
    decreases c.len(),
{
    if c.len() == 0 || c[0].0 == Some(path) {
        0
    } else {
        1 + entry_index(c.drop_first(), path)
    }
}

/// Consecutive steps from `start` stay within `usize`, and a wrapping
/// increment moves from one step to the next.
proof fn lemma_wrapped_step_next(start: usize, j: int)
    requires
        0 <= j <= usize::MAX,
    ensures
        0 <= wrapped_step(start, j) <= usize::MAX,
        0 <= wrapped_step(start, j + 1) <= usize::MAX,
        (wrapped_step(start, j) as usize).wrapping_add(1) == wrapped_step(start, j + 1) as usize,
{
}

/// The index of the first entry with a given name lies within the entries.
pub proof fn lemma_entry_index_bounds(c: Seq<(Option<Seq<char>>, Seq<u8>)>, path: Seq<char>)
    ensures
        0 <= entry_index(c, path) <= c.len(),
    decreases c.len(),
{
    if c.len() > 0 && c[0].0 != Some(path) {
        lemma_entry_index_bounds(c.drop_first(), path);
    }
}

/// If the first `n` handle numbers from `start` are all in use, there are at
/// least `n` open files.
proof fn lemma_taken_steps_bounded(s: Seq<(usize, Seq<u8>, usize)>, start: usize, n: int)
    requires
        0 <= n <= usize::MAX + 1,
        forall|i: int| 0 <= i < n ==> #[trigger] lookup_in(s, wrapped_step(start, i) as usize) is Some,
    ensures
        n <= s.len(),
{
    let cand = Seq::new(n as nat, |i: int| wrapped_step(start, i) as usize);
    let handles = s.map_values(|e: (usize, Seq<u8>, usize)| e.0);
    assert(cand.no_duplicates()) by {
        assert forall|a: int, b: int| 0 <= a < cand.len() && 0 <= b < cand.len() && a != b implies cand[a] != cand[b] by {
            assert(cand[a] == wrapped_step(start, a) as usize);
            assert(cand[b] == wrapped_step(start, b) as usize);
        }
    }
    cand.unique_seq_to_set();
    handles.lemma_cardinality_of_set();
    assert(cand.to_set().subset_of(handles.to_set())) by {
        assert forall|x: usize| cand.to_set().contains(x) implies handles.to_set().contains(x) by {
            let i = choose|i: int| 0 <= i < cand.len() && cand[i] == x;
            assert(lookup_in(s, wrapped_step(start, i) as usize) is Some);
            let m = choose|m: int| 0 <= m < s.len() && (#[trigger] s[m]).0 == x;
            assert(handles[m] == x);
        }
    }
    vstd::set_lib::lemma_len_subset(cand.to_set(), handles.to_set());
}

/// How many bytes a read of a buffer of `capacity` bytes takes from a file of
/// `size` bytes at position `pos`.
pub open spec fn read_count(size: int, pos: int, capacity: int) -> int {
    if capacity < size - pos {
        capacity
    } else {
        size - pos
    }
}

/// The reference point of a seek in a file of `size` bytes at position `pos`.
pub open spec fn seek_base(mode: SeekMode, pos: int, size: int) -> int {
    match mode {
        SeekMode::Start => 0,
        SeekMode::Current => pos,
        SeekMode::End => size,
    }
}

/// The position a seek of `offset` bytes from `base` reaches in a file of
/// `size` bytes: never before the start, never past the end.
pub open spec fn seek_target(base: int, offset: int, size: int) -> int {
    if base + offset < 0 {
        0
    } else if base + offset > size {
        size
    } else {
        base + offset
    }
}

/// Updating the open file at position `i` changes only the lookup of its handle.
proof fn lemma_lookup_update(s: Seq<(usize, Seq<u8>, usize)>, i: int, v: (usize, Seq<u8>, usize), h: usize)
    requires
        0 <= i < s.len(),
        s[i].0 == v.0,
        forall|a: int, b: int| 0 <= a < b < s.len() ==> (#[trigger] s[a]).0 != (#[trigger] s[b]).0,
    ensures
        lookup_in(s.update(i, v), h) == if h == v.0 { Some((v.1, v.2)) } else { lookup_in(s, h) },
{
    let t = s.update(i, v);
    if h == v.0 {
        assert(t[i].0 == h);
        let m = choose|m: int| 0 <= m < t.len() && (#[trigger] t[m]).0 == h;
        assert(m == i) by {
            if m < i {
                assert(s[m].0 != s[i].0);
            } else if m > i {
                assert(s[i].0 != s[m].0);
            }
        }
    } else {
        if exists|k: int| 0 <= k < s.len() && (#[trigger] s[k]).0 == h {
            let k = choose|k: int| 0 <= k < s.len() && (#[trigger] s[k]).0 == h;
            assert(t[k] == s[k]);
            let m = choose|m: int| 0 <= m < t.len() && (#[trigger] t[m]).0 == h;
            assert(m != i) by {
                if m == i {
                    assert(t[i] == v);
                }
            }
            assert(t[m] == s[m]);
            assert(m == k) by {
                if m < k {
                    assert(s[m].0 != s[k].0);
                } else if m > k {
                    assert(s[k].0 != s[m].0);
                }
            }
        } else {
            assert forall|m: int| 0 <= m < t.len() implies (#[trigger] t[m]).0 != h by {
                if m != i {
                    assert(t[m] == s[m]);
                }
            }
        }
    }
}

/// Adding an open file with a new handle changes only the lookup of that handle.
proof fn lemma_lookup_push(s: Seq<(usize, Seq<u8>, usize)>, v: (usize, Seq<u8>, usize), h: usize)
    requires
        lookup_in(s, v.0) is None,
        forall|a: int, b: int| 0 <= a < b < s.len() ==> (#[trigger] s[a]).0 != (#[trigger] s[b]).0,
    ensures
        lookup_in(s.push(v), h) == if h == v.0 { Some((v.1, v.2)) } else { lookup_in(s, h) },
{
    let t = s.push(v);
    if h == v.0 {
        assert(t[s.len() as int].0 == h);
        let m = choose|m: int| 0 <= m < t.len() && (#[trigger] t[m]).0 == h;
        assert(m == s.len()) by {
            if m < s.len() {
                assert(t[m] == s[m]);
            }
        }
    } else {
        if exists|k: int| 0 <= k < s.len() && (#[trigger] s[k]).0 == h {
            let k = choose|k: int| 0 <= k < s.len() && (#[trigger] s[k]).0 == h;
            assert(t[k] == s[k]);
            let m = choose|m: int| 0 <= m < t.len() && (#[trigger] t[m]).0 == h;
            assert(m < s.len()) by {
                if m == s.len() {
                    assert(t[m] == v);
                }
            }
            assert(t[m] == s[m]);
            assert(m == k) by {
                if m < k {
                    assert(s[m].0 != s[k].0);
                } else if m > k {
                    assert(s[k].0 != s[m].0);
                }
            }
        } else {
            assert forall|m: int| 0 <= m < t.len() implies (#[trigger] t[m]).0 != h by {
                if m < s.len() {
                    assert(t[m] == s[m]);
                }
            }
        }
    }
}

/// Removing one open file changes no other lookup.
proof fn lemma_lookup_remove(s: Seq<(usize, Seq<u8>, usize)>, i: int, h: usize)
    requires
        0 <= i < s.len(),
        s[i].0 != h,
        forall|a: int, b: int| 0 <= a < b < s.len() ==> (#[trigger] s[a]).0 != (#[trigger] s[b]).0,
    ensures
        lookup_in(s.remove(i), h) == lookup_in(s, h),
{
    let t = s.remove(i);
    if exists|k: int| 0 <= k < s.len() && (#[trigger] s[k]).0 == h {
        let k = choose|k: int| 0 <= k < s.len() && (#[trigger] s[k]).0 == h;
        let k2 = if k < i { k } else { k - 1 };
        assert(t[k2] == s[k]);
        let m = choose|m: int| 0 <= m < t.len() && (#[trigger] t[m]).0 == h;
        let m2 = if m < i { m } else { m + 1 };
        assert(t[m] == s[m2]);
        assert(m2 == k) by {
            if m2 != k {
                if m2 < k {
                    assert(s[m2].0 != s[k].0);
                } else {
                    assert(s[k].0 != s[m2].0);
                }
            }
        }
    } else {
        assert forall|m: int| 0 <= m < t.len() implies (#[trigger] t[m]).0 != h by {
            let m2 = if m < i { m } else { m + 1 };
            assert(t[m] == s[m2]);
        }
    }
}

/// After removing the open file with a handle, that handle is no longer found.
proof fn lemma_lookup_remove_self(s: Seq<(usize, Seq<u8>, usize)>, i: int)
    requires
        0 <= i < s.len(),
        forall|a: int, b: int| 0 <= a < b < s.len() ==> (#[trigger] s[a]).0 != (#[trigger] s[b]).0,
    ensures
        lookup_in(s.remove(i), s[i].0) is None,
{
    let t = s.remove(i);
    assert forall|m: int| 0 <= m < t.len() implies (#[trigger] t[m]).0 != s[i].0 by {
        let m2 = if m < i { m } else { m + 1 };
        assert(t[m] == s[m2]);
        if m2 < i {
            assert(s[m2].0 != s[i].0);
        } else {
            assert(s[i].0 != s[m2].0);
        }
    }
}

} // verus!
