//! The check an archive must pass before its entries are walked: a whole
//! number of 512-byte blocks, at least three of them, and no header on the
//! walk that the walk cannot get past safely.
//!
//! The walk starts at the first block. A header whose type flag is not that of
//! a regular file (`'0'` or NUL) is passed over. A regular file's header gives
//! its size as octal digits; the next header follows the file's data blocks.
//! A size field that starts with NUL or a space ends the walk; reporting that
//! stop formats the header's numeric fields as text, so these must be text up
//! to their first NUL. A size field that is not plain octal digits, or a file
//! whose end lies beyond what a `usize` can address, is refused. A file whose
//! data reaches into the last two blocks ends the walk.
use vstd::prelude::*;

verus! {

/// Size of a tar block in bytes.
pub const BLOCK_SIZE: usize = 512;
/// The smallest number of blocks an archive can have.
pub const MIN_BLOCKS: usize = 3;

/// Offset and length of the size field in a header.
pub const SIZE_OFFSET: usize = 124;
pub const SIZE_LEN: usize = 12;
/// Offset of the type flag in a header.
pub const TYPE_OFFSET: usize = 156;

/// Whether the bytes of `f` up to its first NUL are all ASCII.
pub open spec fn ascii_field(f: Seq<u8>) -> bool
    decreases f.len(),
{
    if f.len() == 0 {
        true
    } else if f[0] == 0 {
        true
    } else {
        f[0] < 128 && ascii_field(f.drop_first())
    }
}

/// The field of `len` bytes at `offset` in block `b`.
pub open spec fn field(d: Seq<u8>, b: int, offset: int, len: int) -> Seq<u8> {
    d.subrange(b * 512 + offset, b * 512 + offset + len)
}

/// Whether the numeric fields of header block `b` (uid, gid, size, mtime,
/// checksum, device major and minor) are text up to their first NUL.
pub open spec fn numeric_fields_text(d: Seq<u8>, b: int) -> bool {
    &&& ascii_field(field(d, b, 108, 8))
    &&& ascii_field(field(d, b, 116, 8))
    &&& ascii_field(field(d, b, 124, 12))
    &&& ascii_field(field(d, b, 136, 12))
    &&& ascii_field(field(d, b, 148, 8))
    &&& ascii_field(field(d, b, 329, 8))
    &&& ascii_field(field(d, b, 337, 8))
}

/// Whether a byte is an octal digit.
pub open spec fn is_octal(c: u8) -> bool {
    48 <= c <= 55
}

/// The number of leading octal digits of `f`.
pub open spec fn octal_digits(f: Seq<u8>) -> nat
    decreases f.len(),
{
    if f.len() == 0 || !is_octal(f[0]) {
        0
    } else {
        1 + octal_digits(f.drop_first())
    }
}

/// The value of the octal digits `f`.
pub open spec fn octal_value(f: Seq<u8>) -> nat
    decreases f.len(),
{
    if f.len() == 0 {
        0
    } else {
        octal_value(f.drop_last()) * 8 + (f.last() - 48) as nat
    }
}

/// The size in a size field that is plain octal digits, ended by NUL, a space
/// or the end of the field; `None` for any other field.
pub open spec fn plain_size(f: Seq<u8>) -> Option<nat> {
    let n = octal_digits(f);
    if n == 0 || (n < f.len() && f[n as int] != 0 && f[n as int] != 32) {
        None
    } else {
        Some(octal_value(f.take(n as int)))
    }
}

/// The number of blocks that hold `size` bytes.
pub open spec fn data_blocks(size: nat) -> nat {
    (size + 511) / 512
}

/// Whether the walk from block `i` on is safe.
pub open spec fn walk_safe(d: Seq<u8>, i: nat) -> bool
    decreases d.len() / 512 - i,
{
    if i >= d.len() / 512 {
        true
    } else {
        let t = d[(i * 512 + 156) as int];
        if t != 48 && t != 0 {
            walk_safe(d, i + 1)
        } else {
            let f = field(d, i as int, 124, 12);
            if f[0] == 0 {
                numeric_fields_text(d, i as int)
            } else if !ascii_field(f) {
                false
            } else if f[0] == 32 {
                numeric_fields_text(d, i as int)
            } else {
                match plain_size(f) {
                    None => false,
                    Some(size) => {
                        let end = (i + 1) * 512 + size;
                        if end > usize::MAX {
                            false
                        } else if end > d.len() - 1024 {
                            true
                        } else {
                            walk_safe(d, i + 1 + data_blocks(size))
                        }
                    },
                }
            }
        }
    }
}

/// Whether `d` has the shape of an archive: a whole number of blocks, and at
/// least `MIN_BLOCKS` of them.
pub open spec fn archive_shape(d: Seq<u8>) -> bool {
    d.len() > 0 && d.len() % 512 == 0 && d.len() / 512 >= 3
}

/// Whether the entries of `d` can be walked: the shape is right and the walk is safe.
pub open spec fn walkable_archive(d: Seq<u8>) -> bool {
    archive_shape(d) && walk_safe(d, 0)
}

/// Whether the bytes of `d[start..start + len]` up to the first NUL are ASCII.
fn field_is_ascii(d: &[u8], start: usize, len: usize) -> (r: bool)
    requires
        start + len <= d@.len(),
    ensures
        r == ascii_field(d@.subrange(start as int, start + len)),
{
    let dl = d.len();
    let mut k: usize = 0;
    while k < len
        invariant
            dl == d@.len(),
            start + len <= d@.len(),
            k <= len,
            ascii_field(d@.subrange(start as int, start + len)) == ascii_field(d@.subrange(start + k, start + len)),
        decreases len - k,
    {
        let c = d[start + k];
        proof {
            let f = d@.subrange(start + k, start + len);
            assert(f.drop_first() =~= d@.subrange(start + k + 1, start + len));
            assert(f[0] == c);
        }
        if c == 0 {
            return true;
        }
        if c >= 128 {
            return false;
        }
        k = k + 1;
    }
    true
}

/// Whether the numeric fields of the header at block `b` are text.
fn numeric_fields_are_text(d: &[u8], b: usize) -> (r: bool)
    requires
        b < d@.len() / 512,
    ensures
        r == numeric_fields_text(d@, b as int),
{
    let dl = d.len();
    assert(b * 512 + 512 <= dl) by (nonlinear_arith)
        requires
            b < dl / 512,
    ;
    let base = b * 512;
    field_is_ascii(d, base + 108, 8) && field_is_ascii(d, base + 116, 8) && field_is_ascii(d, base + 124, 12)
        && field_is_ascii(d, base + 136, 12) && field_is_ascii(d, base + 148, 8) && field_is_ascii(d, base + 329, 8)
        && field_is_ascii(d, base + 337, 8)
}

/// 8 to the power `n`.
pub open spec fn pow8(n: nat) -> nat
    decreases n,
{
    if n == 0 {
        1
    } else {
        8 * pow8((n - 1) as nat)
    }
}

proof fn lemma_pow8_monotone(a: nat, b: nat)
    requires
        a <= b,
    ensures
        pow8(a) <= pow8(b),
    decreases b,
{
    if a < b {
        lemma_pow8_monotone(a, (b - 1) as nat);
    }
}

/// The leading digits counted by `octal_digits` are octal digits.
proof fn lemma_octal_digits(f: Seq<u8>)
    ensures
        octal_digits(f) <= f.len(),
        forall|j: int| 0 <= j < octal_digits(f) ==> is_octal(#[trigger] f[j]),
    decreases f.len(),
{
    if f.len() > 0 && is_octal(f[0]) {
        let g = f.drop_first();
        lemma_octal_digits(g);
        assert forall|j: int| 0 <= j < octal_digits(f) implies is_octal(#[trigger] f[j]) by {
            if j > 0 {
                assert(f[j] == g[j - 1]);
            }
        }
    }
}

/// The size given by a size field, if it is plain octal digits.
fn read_plain_size(f: &[u8]) -> (r: Option<u64>)
    requires
        f@.len() == 12,
    ensures
        r matches Some(v) ==> plain_size(f@) == Some(v as nat),
        r is None ==> plain_size(f@) is None,
{
    let mut n: usize = 0;
    proof {
        assert(f@.subrange(0, 12) =~= f@);
    }
    while n < 12 && 48 <= f[n] && f[n] <= 55
        invariant
            f@.len() == 12,
            n <= 12,
            octal_digits(f@) == n + octal_digits(f@.subrange(n as int, 12)),
        decreases 12 - n,
    {
        proof {
            assert(f@.subrange(n as int, 12).drop_first() =~= f@.subrange(n + 1, 12));
        }
        n = n + 1;
    }
    proof {
        if n < 12 {
            assert(f@.subrange(n as int, 12)[0] == f@[n as int]);
        }
    }
    if n == 0 || (n < 12 && f[n] != 0 && f[n] != 32) {
        return None;
    }
    let mut v: u64 = 0;
    let mut k: usize = 0;
    proof {
        lemma_octal_digits(f@);
        assert(f@.take(0) =~= Seq::<u8>::empty());
        assert(pow8(12) == 68719476736) by {
            reveal_with_fuel(pow8, 13);
        }
    }
    while k < n
        invariant
            f@.len() == 12,
            n <= 12,
            k <= n,
            octal_digits(f@) == n,
            forall|j: int| 0 <= j < n ==> is_octal(#[trigger] f@[j]),
            v == octal_value(f@.take(k as int)),
            v < pow8(k as nat),
            pow8(12) == 68719476736,
        decreases n - k,
    {
        let digit = (f[k] - 48) as u64;
        proof {
            assert(is_octal(f@[k as int]));
            assert(f@.take(k + 1).drop_last() =~= f@.take(k as int));
            lemma_pow8_monotone((k + 1) as nat, 12);
            assert(v * 8 + digit < 8 * pow8(k as nat)) by (nonlinear_arith)
                requires
                    v < pow8(k as nat),
                    digit < 8,
            ;
        }
        v = v * 8 + digit;
        k = k + 1;
    }
    Some(v)
}

/// Whether `d` is an archive whose entries can be walked safely; see the
/// module documentation for what that asks of the headers.
pub fn is_walkable_archive(d: &[u8]) -> (r: bool)
    ensures
        r == walkable_archive(d@),
{
    if d.len() == 0 || d.len() % 512 != 0 || d.len() / 512 < 3 {
        return false;
    }
    let blocks = d.len() / 512;
    let mut i: usize = 0;
    while i < blocks
        invariant
            archive_shape(d@),
            blocks == d@.len() / 512,
            walk_safe(d@, 0) == walk_safe(d@, i as nat),
        decreases blocks - i,
    {
        assert(i * 512 + 512 <= d.len()) by (nonlinear_arith)
            requires
                i < blocks,
                blocks == d.len() / 512,
        ;
        let base = i * 512;
        let t = d[base + 156];
        if t != 48 && t != 0 {
            i = i + 1;
        } else {
            let first = d[base + 124];
            proof {
                assert(field(d@, i as int, 124, 12)[0] == first);
            }
            if first == 0 {
                return numeric_fields_are_text(d, i);
            }
            if !field_is_ascii(d, base + 124, 12) {
                return false;
            }
            if first == 32 {
                return numeric_fields_are_text(d, i);
            }
            let size = match read_plain_size(vstd::slice::slice_subrange(d, base + 124, base + 136)) {
                Some(v) => v,
                None => {
                    return false;
                },
            };
            let begin = base + 512;
            if size > (usize::MAX - begin) as u64 {
                return false;
            }
            let end = begin + size as usize;
            if end > d.len() - 1024 {
                return true;
            }
            let blocks_of_data = (size as usize + 511) / 512;
            i = i + 1 + blocks_of_data;
        }
    }
    true
}

} // verus!
