//! The file system commands: which path they work on, how a file is read,
//! and the lines of a hexadecimal dump.
use vstd::prelude::*;
use crate::filesystem::tarfs::{
    archive_contents, entry_index, lemma_entry_index_bounds, listed, metadata_result, DirectoryEntry,
    FileType, FsError, ListedEntry, Metadata, TarFs,
};
use crate::text::{
    decimal, hex_fixed, padded, push_char, push_decimal, push_hex_fixed, push_padded, push_str, strip_start, trim,
    trim_str,
};
use vstd::string::StrSliceExecFns;

verus! {

/// Maximum number of bytes printed by `cat`.
pub const MAX_CAT_BYTES: usize = 64 * 1024;
/// Maximum number of bytes printed by `hexdump`.
pub const MAX_HEXDUMP_BYTES: usize = 512;
/// Number of bytes shown per line of the `hexdump` output.
pub const BYTES_PER_LINE: usize = 16;
/// Column width used to align the entries of the `ls` output.
pub const NAME_WIDTH: usize = 24;

/// The directory `ls` lists: its argument, or the root if there is none.
pub fn ls_path(argument: &str) -> (r: &str)
    ensures
        trim(argument@).len() == 0 ==> r@ == seq!['/'],
        trim(argument@).len() > 0 ==> r@ == trim(argument@),
{
    let t = trim_str(argument);
    proof {
        reveal_strlit("/");
        assert("/"@ =~= seq!['/']);
    }
    if t.unicode_len() == 0 {
        "/"
    } else {
        t
    }
}

/// The path argument of a command; `None` (show the usage) if there is none.
pub fn require_path(argument: &str) -> (r: Option<&str>)
    ensures
        trim(argument@).len() == 0 ==> r is None,
        trim(argument@).len() > 0 ==> (r matches Some(p) && p@ == trim(argument@)),
{
    let t = trim_str(argument);
    if t.unicode_len() == 0 {
        None
    } else {
        Some(t)
    }
}

/// The character shown for a byte: printable ASCII as itself, anything else as a dot.
pub open spec fn shown_char(byte: u8) -> char {
    if 0x20 <= byte && byte <= 0x7e {
        (byte as u32) as char
    } else {
        '.'
    }
}

/// How a byte of a file that is not valid UTF-8 is shown by `cat`: a line
/// feed starts a new line, a tab becomes a space, and every other byte is shown
/// as `shown_char`.
pub open spec fn sanitized_char(byte: u8) -> char {
    if byte == 0x0a {
        '\n'
    } else if byte == 0x09 {
        ' '
    } else {
        shown_char(byte)
    }
}

/// The note `cat` prints before the contents of a file that is not valid UTF-8.
pub const BINARY_NOTE: &'static str = "(binary file, non-printable bytes are shown as '.')";

/// The contents of a file that is not valid UTF-8, as `cat` shows them: one
/// character per byte, see `sanitized_char`.
pub fn sanitized(data: &[u8]) -> (r: String)
    ensures
        r@ == data@.map_values(|b: u8| sanitized_char(b)),
{
    let mut s = String::new();
    let mut i: usize = 0;
    while i < data.len()
        invariant
            i <= data@.len(),
            s@ == data@.take(i as int).map_values(|b: u8| sanitized_char(b)),
        decreases data@.len() - i,
    {
        let byte = data[i];
        let c = if byte == 0x0a {
            '\n'
        } else if byte == 0x09 {
            ' '
        } else {
            printable(byte)
        };
        push_char(&mut s, c);
        proof {
            assert(data@.take(i + 1) =~= data@.take(i as int).push(byte));
            assert(data@.take(i + 1).map_values(|b: u8| sanitized_char(b)) =~= data@.take(i as int).map_values(
                |b: u8| sanitized_char(b),
            ).push(sanitized_char(byte)));
        }
        i = i + 1;
    }
    proof {
        assert(data@.take(i as int) =~= data@);
    }
    s
}

/// The note printed when only the first `shown` of `total` bytes of a file
/// were shown: `-- truncated: showing <shown> of <total> bytes --`, and none
/// when the whole file was shown.
pub fn truncation_note(shown: usize, total: usize) -> (r: Option<String>)
    ensures
        total > shown <==> r is Some,
        r matches Some(t) ==> t@ == "-- truncated: showing "@ + decimal(shown as nat) + " of "@ + decimal(
            total as nat,
        ) + " bytes --"@,
{
    if total > shown {
        let mut s = String::new();
        push_str(&mut s, "-- truncated: showing ");
        push_decimal(&mut s, shown);
        push_str(&mut s, " of ");
        push_decimal(&mut s, total);
        push_str(&mut s, " bytes --");
        Some(s)
    } else {
        None
    }
}

/// The character shown for `byte` in a dump.
pub fn printable(byte: u8) -> (r: char)
    ensures
        r == shown_char(byte),
{
    if 0x20 <= byte && byte <= 0x7e {
        byte as char
    } else {
        '.'
    }
}

/// The bytes of a dump line, each as a space and two hexadecimal digits.
pub open spec fn hex_bytes(bytes: Seq<u8>) -> Seq<char>
    decreases bytes.len(),
{
    if bytes.len() == 0 {
        Seq::empty()
    } else {
        hex_bytes(bytes.drop_last()) + seq![' '] + hex_fixed(bytes.last() as nat, 2)
    }
}

/// One line of a hexadecimal dump: the offset as eight hexadecimal digits, the
/// bytes, padding for a short line, and the bytes as characters between bars.
pub open spec fn hex_line_text(offset: nat, bytes: Seq<u8>) -> Seq<char> {
    hex_fixed(offset, 8) + seq![' '] + hex_bytes(bytes) + Seq::new(
        ((BYTES_PER_LINE - bytes.len()) * 3) as nat,
        |i: int| ' ',
    ) + seq![' ', ' ', '|'] + bytes.map_values(|b: u8| shown_char(b)) + seq!['|']
}

/// The dump line of up to `BYTES_PER_LINE` bytes found at `offset` in a file.
pub fn hex_line(offset: usize, bytes: &[u8]) -> (r: String)
    requires
        bytes@.len() <= BYTES_PER_LINE,
    ensures
        r@ == hex_line_text(offset as nat, bytes@),
{
    let mut s = String::new();
    push_hex_fixed(&mut s, offset, 8);
    push_char(&mut s, ' ');
    let ghost start = s@;
    let mut i: usize = 0;
    proof {
        assert(bytes@.take(0) =~= Seq::<u8>::empty());
        assert(s@ =~= start + hex_bytes(bytes@.take(0)));
    }
    while i < bytes.len()
        invariant
            i <= bytes@.len(),
            s@ == start + hex_bytes(bytes@.take(i as int)),
        decreases bytes@.len() - i,
    {
        push_char(&mut s, ' ');
        push_hex_fixed(&mut s, bytes[i] as usize, 2);
        proof {
            assert(bytes@.take(i + 1).drop_last() =~= bytes@.take(i as int));
            assert(bytes@.take(i + 1).last() == bytes@[i as int]);
            assert(s@ =~= start + hex_bytes(bytes@.take(i + 1)));
        }
        i = i + 1;
    }
    proof {
        assert(bytes@.take(i as int) =~= bytes@);
    }
    let ghost mid = s@;
    let mut k: usize = bytes.len();
    while k < BYTES_PER_LINE
        invariant
            bytes@.len() <= k <= BYTES_PER_LINE,
            s@ == mid + Seq::new(((k - bytes@.len()) * 3) as nat, |j: int| ' '),
        decreases BYTES_PER_LINE - k,
    {
        push_char(&mut s, ' ');
        push_char(&mut s, ' ');
        push_char(&mut s, ' ');
        proof {
            assert(s@ =~= mid + Seq::new(((k + 1 - bytes@.len()) * 3) as nat, |j: int| ' '));
        }
        k = k + 1;
    }
    push_char(&mut s, ' ');
    push_char(&mut s, ' ');
    push_char(&mut s, '|');
    let ghost before_chars = s@;
    let mut j: usize = 0;
    while j < bytes.len()
        invariant
            j <= bytes@.len(),
            s@ == before_chars + bytes@.take(j as int).map_values(|b: u8| shown_char(b)),
        decreases bytes@.len() - j,
    {
        push_char(&mut s, printable(bytes[j]));
        proof {
            assert(bytes@.take(j + 1).map_values(|b: u8| shown_char(b)) =~= bytes@.take(j as int).map_values(
                |b: u8| shown_char(b),
            ).push(shown_char(bytes@[j as int])));
        }
        j = j + 1;
    }
    push_char(&mut s, '|');
    proof {
        assert(bytes@.take(j as int) =~= bytes@);
        assert(s@ =~= hex_line_text(offset as nat, bytes@));
    }
    s
}

/// Why a path does not name a readable file.
#[derive(Clone, Copy, Debug, PartialEq, Eq, Structural)]
pub enum PathError {
    /// The path names a directory.
    Directory,
    /// Nothing exists at the path.
    NotFound,
}

/// The metadata of the regular file at `path`; a directory or a missing
/// path is refused with its own error.
pub fn regular_file(fs: &TarFs, path: &str) -> (r: Result<Metadata, PathError>)
    ensures
        match metadata_result(archive_contents(fs.archive_spec()), path@) {
            Ok(m) => if m.file_type == FileType::File {
                r == Ok::<Metadata, PathError>(m)
            } else {
                r == Err::<Metadata, PathError>(PathError::Directory)
            },
            Err(_) => r == Err::<Metadata, PathError>(PathError::NotFound),
        },
{
    match fs.metadata(path) {
        Ok(m) => if m.file_type == FileType::File {
            Ok(m)
        } else {
            Err(PathError::Directory)
        },
        Err(_) => Err(PathError::NotFound),
    }
}

/// The first `limit` bytes of the file at `path` (all of it if it is
/// shorter); `None` if the file cannot be opened. The file is closed again.
pub fn read_file(fs: &mut TarFs, path: &str, limit: usize) -> (r: Option<Vec<u8>>)
    requires
        old(fs).wf(),
    ensures
        final(fs).wf(),
        final(fs).archive_spec() == old(fs).archive_spec(),
        forall|h| #[trigger] final(fs).lookup(h) == old(fs).lookup(h),
        ({
            let c = archive_contents(old(fs).archive_spec());
            let k = entry_index(c, strip_start(path@, '/'));
            if k == c.len() {
                r is None
            } else {
                r matches Some(d) && d@ == c[k].1.take(if c[k].1.len() < limit { c[k].1.len() as int } else { limit as int })
            }
        }),
{
    let handle = match fs.open(path) {
        Ok(h) => h,
        Err(_) => return None,
    };
    let ghost c = archive_contents(old(fs).archive_spec());
    let ghost k = entry_index(c, strip_start(path@, '/'));
    let ghost file = c[k].1;
    let ghost opened = *fs;
    proof {
        lemma_entry_index_bounds(c, strip_start(path@, '/'));
    }
    let size = match fs.size(handle) {
        Ok(s) => s,
        Err(_) => return None,
    };
    let len = if size < limit { size } else { limit };
    let mut data: Vec<u8> = Vec::new();
    let mut read: usize = 0;
    let mut done = false;
    while read < len && !done
        invariant
            fs.wf(),
            fs.archive_spec() == opened.archive_spec(),
            len <= file.len(),
            size == file.len(),
            read <= len,
            data@.len() == read,
            data@ == file.take(read as int),
            fs.lookup(handle) == Some((file, read)),
            forall|h| h != handle ==> #[trigger] fs.lookup(h) == opened.lookup(h),
            done ==> read == len,
        decreases len - read, if done { 0int } else { 1int },
    {
        let remaining = len - read;
        let mut chunk = vec![0u8; remaining];
        let ghost before = *fs;
        match fs.read(handle, &mut chunk) {
            Ok(count) => {
                if count == 0 {
                    done = true;
                } else {
                    proof {
                        assert(count == remaining);
                        assert forall|m: int| 0 <= m < count implies chunk@[m] == file[read + m] by {
                            assert(chunk@[m] == file.subrange(read as int, read + count)[m]);
                        }
                    }
                    let mut j: usize = 0;
                    while j < count
                        invariant
                            forall|m: int| 0 <= m < count ==> chunk@[m] == file[read + m],
                            len <= file.len(),
                            j <= count,
                            count <= chunk@.len(),
                            read + count <= len,
                            data@.len() == read + j,
                            forall|m: int| 0 <= m < read ==> data@[m] == file[m],
                            forall|m: int| 0 <= m < j ==> data@[read + m] == chunk@[m],
                        decreases count - j,
                    {
                        data.push(chunk[j]);
                        j = j + 1;
                    }
                    proof {
                        assert forall|m: int| 0 <= m < read + count implies data@[m] == file.take(read + count)[m] by {
                            if m >= read {
                                assert(data@[read + (m - read)] == chunk@[m - read]);
                            }
                        }
                        assert(data@ =~= file.take(read + count));
                    }
                    read = read + count;
                }
            },
            Err(e) => {
                if e == FsError::EndOfFile {
                    done = true;
                } else {
                    let _ = fs.close(handle);
                    return None;
                }
            },
        }
    }
    let _ = fs.close(handle);
    proof {
        assert forall|h| #[trigger] fs.lookup(h) == old(fs).lookup(h) by {
        }
    }
    Some(data)
}

/// The line `ls` prints for an entry: the name, aligned to `NAME_WIDTH`
/// columns, then `<dir>` for a directory (whose name gets a trailing `/`, as
/// in a tar archive) or the size in bytes for a file.
pub open spec fn ls_line_text(entry: ListedEntry) -> Seq<char> {
    match entry.2 {
        FileType::Directory => seq![' ', ' '] + padded(entry.0.push('/'), NAME_WIDTH as nat) + " <dir>"@,
        FileType::File => seq![' ', ' '] + padded(entry.0, NAME_WIDTH as nat) + seq![' '] + decimal(entry.1) + " bytes"@,
    }
}

/// The line `ls` prints for a directory entry.
pub fn ls_line(entry: &DirectoryEntry) -> (r: String)
    ensures
        r@ == ls_line_text(listed(*entry)),
{
    let mut line = String::new();
    push_char(&mut line, ' ');
    push_char(&mut line, ' ');
    proof {
        reveal_strlit(" <dir>");
        reveal_strlit(" bytes");
    }
    match entry.file_type {
        FileType::Directory => {
            let mut name = entry.name.clone();
            push_char(&mut name, '/');
            push_padded(&mut line, name.as_str(), NAME_WIDTH);
            push_str(&mut line, " <dir>");
        },
        FileType::File => {
            push_padded(&mut line, entry.name.as_str(), NAME_WIDTH);
            push_char(&mut line, ' ');
            push_decimal(&mut line, entry.size);
            push_str(&mut line, " bytes");
        },
    }
    proof {
        assert(line@ =~= ls_line_text(listed(*entry)));
    }
    line
}

} // verus!
