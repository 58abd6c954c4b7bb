//! A loader for uncompressed 24-bit and 32-bit BMP images. The pixels are
//! converted to 32-bit ARGB values, the color format of the framebuffer.
//! Both uncompressed methods are read: `BI_RGB` and `BI_BITFIELDS`, the latter
//! in the usual byte layout (blue, green, red, then the fourth byte).
use vstd::prelude::*;
use crate::filesystem::tarfs::{archive_contents, entry_index, lemma_entry_index_bounds, FsError, TarFs};
use crate::text::strip_start;

verus! {

/// Size of the BMP file header in bytes.
pub const FILE_HEADER_SIZE: usize = 14;
/// Size of the BITMAPINFOHEADER in bytes.
pub const INFO_HEADER_SIZE: usize = 40;
/// Bytes per pixel of a 24-bit image.
pub const BYTES_PER_PIXEL_24: usize = 3;
/// Bytes per pixel of a 32-bit image.
pub const BYTES_PER_PIXEL_32: usize = 4;

/// The compression methods a BMP header can name.
#[derive(Clone, Copy, Debug, PartialEq, Eq, Structural)]
pub enum Compression {
    /// Uncompressed RGB, `BI_RGB` (value 0).
    Rgb,
    /// Uncompressed with color masks (value 3).
    BitFields,
}

/// The BMP info header.
#[derive(Clone, Copy, Debug)]
pub struct BitmapInfoHeader {
    /// The size of this header (40 bytes for BITMAPINFOHEADER).
    pub header_size: u32,
    /// The width of the bitmap in pixels.
    pub width: i32,
    /// The height of the bitmap in pixels.
    pub height: i32,
    /// The number of color planes (1).
    pub color_planes: u16,
    /// The number of bits per pixel (24 or 32).
    pub bits_per_pixel: u16,
    /// The compression method.
    pub compression: Compression,
    /// The size of the raw bitmap data.
    pub image_size: u32,
    /// The horizontal resolution in pixels per meter.
    pub x_pixels_per_meter: i32,
    /// The vertical resolution in pixels per meter.
    pub y_pixels_per_meter: i32,
    /// The number of colors in the palette.
    pub colors_used: u32,
    /// The number of important colors.
    pub important_colors: u32,
}

/// The BMP file header.
#[derive(Clone, Copy, Debug)]
pub struct BitmapFileHeader {
    /// The signature 'BM'.
    pub signature: [u8; 2],
    /// The size of the whole file in bytes.
    pub file_size: u32,
    /// Reserved.
    pub reserved: u32,
    /// The offset of the pixel data from the start of the file.
    pub data_offset: u32,
    /// The info header.
    pub info_header: BitmapInfoHeader,
}

/// A bitmap image loaded from a BMP file, with its pixels in ARGB format, top row first.
pub struct Bitmap {
    header: BitmapFileHeader,
    pixel_data: Vec<u32>,
}

/// The little-endian 16-bit value at `o`.
pub open spec fn u16_le(d: Seq<u8>, o: int) -> int {
    d[o] + 256 * d[o + 1]
}

/// The little-endian 32-bit unsigned value at `o`.
pub open spec fn u32_le(d: Seq<u8>, o: int) -> int {
    d[o] + 256 * d[o + 1] + 65536 * d[o + 2] + 16777216 * d[o + 3]
}

/// The little-endian 32-bit two's complement value at `o`.
pub open spec fn i32_le(d: Seq<u8>, o: int) -> int {
    if u32_le(d, o) >= 0x8000_0000 {
        u32_le(d, o) - 0x1_0000_0000
    } else {
        u32_le(d, o)
    }
}

/// A 32-bit ARGB color value.
pub open spec fn argb(r: int, g: int, b: int, a: int) -> int {
    a * 0x100_0000 + r * 0x1_0000 + g * 0x100 + b
}

/// Image width field.
pub open spec fn bmp_width(d: Seq<u8>) -> int { i32_le(d, 18) }
/// Signed image height field; positive means the rows are stored bottom-up.
pub open spec fn bmp_signed_height(d: Seq<u8>) -> int { i32_le(d, 22) }
/// The number of pixel rows.
pub open spec fn bmp_height(d: Seq<u8>) -> int {
    if bmp_signed_height(d) < 0 { -bmp_signed_height(d) } else { bmp_signed_height(d) }
}
/// Bytes per stored pixel: four for a 32-bit image, three otherwise.
pub open spec fn bmp_bpp(d: Seq<u8>) -> int {
    if u16_le(d, 28) == 32 { 4 } else { 3 }
}
/// Bytes per stored row: the pixel bytes rounded up to a multiple of four.
pub open spec fn bmp_stride(d: Seq<u8>) -> int {
    let t = bmp_width(d) * bmp_bpp(d) + 3;
    t - t % 4
}
/// Offset of the pixel data.
pub open spec fn bmp_start(d: Seq<u8>) -> int { u32_le(d, 10) }
/// End of the pixel data.
pub open spec fn bmp_end(d: Seq<u8>) -> int { bmp_start(d) + bmp_stride(d) * bmp_height(d) }

/// Whether `d` is a BMP image that the loader supports: a complete header with
/// the 'BM' signature, an info header of at least 40 bytes, a positive width, a
/// nonzero height other than `i32::MIN`, one color plane, 24 or 32 bits per
/// pixel, an uncompressed method (`BI_RGB`, 0, or `BI_BITFIELDS`, 3), all sizes
/// representable, and pixel data that lies within the file size, which in turn
/// lies within the data.
pub open spec fn bmp_valid(d: Seq<u8>) -> bool {
    &&& d.len() >= FILE_HEADER_SIZE + INFO_HEADER_SIZE
    &&& d[0] == 0x42u8 && d[1] == 0x4du8
    &&& u32_le(d, 14) >= INFO_HEADER_SIZE
    &&& bmp_width(d) > 0
    &&& bmp_signed_height(d) != 0
    &&& u16_le(d, 26) == 1
    &&& (u16_le(d, 28) == 24 || u16_le(d, 28) == 32)
    &&& (u32_le(d, 30) == 0 || u32_le(d, 30) == 3)
    &&& bmp_signed_height(d) != -0x8000_0000
    &&& bmp_width(d) * bmp_bpp(d) + 3 <= usize::MAX
    &&& bmp_stride(d) * bmp_height(d) <= usize::MAX
    &&& bmp_end(d) <= usize::MAX
    &&& bmp_end(d) <= d.len()
    &&& u32_le(d, 2) <= d.len()
    &&& u32_le(d, 2) >= bmp_end(d)
    &&& bmp_width(d) * bmp_height(d) <= usize::MAX
}

/// The stored row that becomes pixel row `y` of the image.
pub open spec fn stored_row(d: Seq<u8>, y: int) -> int {
    if bmp_signed_height(d) > 0 { bmp_height(d) - 1 - y } else { y }
}

/// The ARGB value of pixel (`x`, `y`), counted from the top-left corner: the
/// stored blue, green and red bytes with alpha 0 (the fourth byte of a 32-bit
/// pixel is not used).
pub open spec fn bmp_pixel(d: Seq<u8>, y: int, x: int) -> u32 {
    let i = bmp_start(d) + stored_row(d, y) * bmp_stride(d) + x * bmp_bpp(d);
    argb(d[i + 2] as int, d[i + 1] as int, d[i] as int, 0) as u32
}

/// Pixel row `y` of the image.
pub open spec fn bmp_row(d: Seq<u8>, y: int) -> Seq<u32> {
    Seq::new(bmp_width(d) as nat, |x: int| bmp_pixel(d, y, x))
}

/// The first `n` pixel rows of the image, one after the other.
pub open spec fn bmp_rows(d: Seq<u8>, n: nat) -> Seq<u32>
    decreases n,
{
    if n == 0 {
        Seq::empty()
    } else {
        bmp_rows(d, (n - 1) as nat) + bmp_row(d, n - 1)
    }
}

proof fn lemma_bmp_rows_len(d: Seq<u8>, n: nat)
    requires
        bmp_width(d) >= 0,
    ensures
        bmp_rows(d, n).len() == bmp_width(d) * n,
    decreases n,
{
    if n > 0 {
        lemma_bmp_rows_len(d, (n - 1) as nat);
        assert(bmp_row(d, n - 1).len() == bmp_width(d));
        let w = bmp_width(d);
        assert(w * (n - 1) + w == w * n) by (nonlinear_arith);
        assert(bmp_rows(d, n) == bmp_rows(d, (n - 1) as nat) + bmp_row(d, n - 1));
    } else {
        let w = bmp_width(d);
        assert(w * n == 0) by (nonlinear_arith) requires n == 0;
    }
}

/// Pixel (`x`, `y`) of the image, counted from the top-left corner, is the
/// colour read from the stored pixel data: at the start of the pixel data,
/// plus the stored row times the row stride, plus `x` times the bytes per
/// pixel, with the rows stored bottom-up when the height is positive.
pub proof fn lemma_pixel_at(d: Seq<u8>, y: int, x: int)
    requires
        bmp_valid(d),
        0 <= y < bmp_height(d),
        0 <= x < bmp_width(d),
    ensures
        bmp_rows(d, bmp_height(d) as nat).len() == bmp_width(d) * bmp_height(d),
        bmp_rows(d, bmp_height(d) as nat)[y * bmp_width(d) + x] == bmp_pixel(d, y, x),
{
    lemma_bmp_rows_len(d, bmp_height(d) as nat);
    lemma_bmp_rows_index(d, bmp_height(d) as nat, y, x);
}

proof fn lemma_bmp_rows_index(d: Seq<u8>, n: nat, y: int, x: int)
    requires
        bmp_width(d) > 0,
        0 <= y < n,
        0 <= x < bmp_width(d),
    ensures
        bmp_rows(d, n)[y * bmp_width(d) + x] == bmp_pixel(d, y, x),
    decreases n,
{
    let w = bmp_width(d);
    lemma_bmp_rows_len(d, (n - 1) as nat);
    let prev = bmp_rows(d, (n - 1) as nat);
    assert(bmp_rows(d, n) == prev + bmp_row(d, n - 1));
    if y < n - 1 {
        assert(y * w + x < w * (n - 1)) by (nonlinear_arith)
            requires
                y < n - 1,
                0 <= x < w,
        ;
        assert(0 <= y * w) by (nonlinear_arith)
            requires
                0 <= y,
                0 < w,
        ;
        lemma_bmp_rows_index(d, (n - 1) as nat, y, x);
    } else {
        assert(y * w == w * (n - 1)) by (nonlinear_arith)
            requires
                y == n - 1,
        ;
    }
}

/// Create a 32-bit ARGB color value from red, green, blue and alpha components.
pub fn color(r: u8, g: u8, b: u8, a: u8) -> (c: u32)
    ensures
        c == argb(r as int, g as int, b as int, a as int),
{
    (a as u32) * 0x100_0000 + (r as u32) * 0x1_0000 + (g as u32) * 0x100 + (b as u32)
}

fn u16_at(data: &[u8], offset: usize) -> (r: u16)
    requires
        offset + 2 <= data@.len(),
    ensures
        r == u16_le(data@, offset as int),
{
    data[offset] as u16 + (data[offset + 1] as u16) * 256
}

fn u32_at(data: &[u8], offset: usize) -> (r: u32)
    requires
        offset + 4 <= data@.len(),
    ensures
        r == u32_le(data@, offset as int),
{
    data[offset] as u32 + (data[offset + 1] as u32) * 256 + (data[offset + 2] as u32) * 65536
        + (data[offset + 3] as u32) * 16777216
}

fn i32_at(data: &[u8], offset: usize) -> (r: i32)
    requires
        offset + 4 <= data@.len(),
    ensures
        r == i32_le(data@, offset as int),
{
    let u = u32_at(data, offset);
    if u >= 0x8000_0000 {
        ((u - 0x8000_0000) as i32) - 0x4000_0000 - 0x4000_0000
    } else {
        u as i32
    }
}

impl Bitmap {
    /// Width and height are positive and the pixel data holds one value per pixel.
    #[verifier::type_invariant]
    closed spec fn inv(&self) -> bool {
        &&& self.header.info_header.width > 0
        &&& self.header.info_header.height > 0
        &&& self.pixel_data@.len() == self.header.info_header.width * self.header.info_header.height
    }

    /// The width of the bitmap in pixels.
    pub closed spec fn width_spec(&self) -> int {
        self.header.info_header.width as int
    }

    /// The height of the bitmap in pixels.
    pub closed spec fn height_spec(&self) -> int {
        self.header.info_header.height as int
    }

    /// The pixels, row by row from the top.
    pub closed spec fn pixels(&self) -> Seq<u32> {
        self.pixel_data@
    }

    /// Read a BMP image from the file at `path`: `Ok(Some(..))` for a valid
    /// image, `Ok(None)` for a file that is not a supported BMP image, and the
    /// file system's error if the file cannot be opened or read (an empty file
    /// cannot be read). The file is closed again in every case.
    pub fn read_from_file(fs: &mut TarFs, path: &str) -> (r: Result<Option<Bitmap>, FsError>)
        requires
            old(fs).wf(),
        ensures
            final(fs).wf(),
            final(fs).archive_spec() == old(fs).archive_spec(),
            forall|h| #[trigger] final(fs).lookup(h) == old(fs).lookup(h),
            ({
                let c = archive_contents(old(fs).archive_spec());
                let k = entry_index(c, strip_start(path@, '/'));
                if k == c.len() {
                    r == Err::<Option<Bitmap>, FsError>(FsError::FileNotFound)
                } else if c[k].1.len() == 0 {
                    r == Err::<Option<Bitmap>, FsError>(FsError::EndOfFile)
                } else {
                    &&& r is Ok
                    &&& r->Ok_0 is Some <==> bmp_valid(c[k].1)
                    &&& r->Ok_0 matches Some(b) ==> b.width_spec() == bmp_width(c[k].1) && b.height_spec()
                        == bmp_height(c[k].1) && b.pixels() == bmp_rows(c[k].1, bmp_height(c[k].1) as nat)
                }
            }),
    {
        let file = match fs.open(path) {
            Ok(f) => f,
            Err(e) => return Err(e),
        };
        let size = match fs.size(file) {
            Ok(s) => s,
            Err(e) => return Err(e),
        };
        let ghost c = archive_contents(old(fs).archive_spec());
        let ghost k = entry_index(c, strip_start(path@, '/'));
        let ghost opened = *fs;
        proof {
            lemma_entry_index_bounds(c, strip_start(path@, '/'));
        }
        let mut data = vec![0u8; size];
        let result = fs.read(file, &mut data);
        let ghost after_read = *fs;
        match fs.close(file) {
            Ok(()) => {},
            Err(e) => return Err(e),
        }
        proof {
            assert forall|h| #[trigger] fs.lookup(h) == old(fs).lookup(h) by {
                if h != file {
                    assert(after_read.lookup(h) == opened.lookup(h));
                }
            }
        }
        match result {
            Ok(_) => {},
            Err(e) => return Err(e),
        }
        proof {
            assert(data@ =~= c[k].1.subrange(0, c[k].1.len() as int));
        }
        let bmp = Bitmap::from_bytes(data.as_slice());
        proof {
            assert(data@ =~= c[k].1);
        }
        Ok(bmp)
    }

    /// Parse a bitmap image from the given bytes. Returns `None` if the data is
    /// not a valid or supported BMP image.
    pub fn from_bytes(data: &[u8]) -> (r: Option<Bitmap>)
        ensures
            r is Some <==> bmp_valid(data@),
            r matches Some(b) ==> b.width_spec() == bmp_width(data@) && b.height_spec() == bmp_height(
                data@,
            ) && b.pixels() == bmp_rows(data@, bmp_height(data@) as nat),
    {
        if data.len() < FILE_HEADER_SIZE + INFO_HEADER_SIZE || data[0] != 0x42 || data[1] != 0x4d {
            return None;
        }
        let file_size = u32_at(data, 2);
        let reserved = u32_at(data, 6);
        let data_offset = u32_at(data, 10);
        let header_size = u32_at(data, 14);
        let width = i32_at(data, 18);
        let signed_height = i32_at(data, 22);
        let color_planes = u16_at(data, 26);
        let bits_per_pixel = u16_at(data, 28);
        let compression = u32_at(data, 30);
        let image_size = u32_at(data, 34);
        let x_pixels_per_meter = i32_at(data, 38);
        let y_pixels_per_meter = i32_at(data, 42);
        let colors_used = u32_at(data, 46);
        let important_colors = u32_at(data, 50);

        if header_size < INFO_HEADER_SIZE as u32 || width <= 0 || signed_height == 0
            || color_planes != 1 || (bits_per_pixel != 24 && bits_per_pixel != 32)
            || (compression != 0 && compression != 3) {
            return None;
        }
        let bpp: usize = if bits_per_pixel == 32 { BYTES_PER_PIXEL_32 } else { BYTES_PER_PIXEL_24 };
        if signed_height == i32::MIN {
            return None;
        }
        let height_i32: i32 = if signed_height < 0 { -signed_height } else { signed_height };
        let w = width as usize;
        let h = height_i32 as usize;
        let row_data_size = match w.checked_mul(bpp) {
            Some(v) => v,
            None => { return None; },
        };
        let padded = match row_data_size.checked_add(3) {
            Some(v) => v,
            None => { return None; },
        };
        let row_stride = padded - padded % 4;
        let bitmap_data_size = match row_stride.checked_mul(h) {
            Some(v) => v,
            None => { return None; },
        };
        let data_start = data_offset as usize;
        let data_end = match data_start.checked_add(bitmap_data_size) {
            Some(v) => v,
            None => { return None; },
        };
        if data_end > data.len() || file_size as usize > data.len() || (file_size as usize) < data_end {
            return None;
        }
        let pixel_count = match w.checked_mul(h) {
            Some(v) => v,
            None => { return None; },
        };
        proof {
            assert(w * bpp <= row_stride) by (nonlinear_arith)
                requires row_stride == padded - padded % 4, padded == row_data_size + 3, row_data_size == w * bpp;
        }

        let mut pixel_data: Vec<u32> = Vec::new();
        let mut target_y: usize = 0;
        while target_y < h
            invariant
                bmp_valid(data@),
                w == bmp_width(data@),
                h == bmp_height(data@),
                row_stride == bmp_stride(data@),
                data_start == bmp_start(data@),
                data_end == bmp_end(data@),
                bitmap_data_size == row_stride * h,
                data_end <= data@.len(),
                data@.len() <= usize::MAX,
                bpp == bmp_bpp(data@),
                w * bpp <= row_stride,
                signed_height == bmp_signed_height(data@),
                target_y <= h,
                pixel_data@ == bmp_rows(data@, target_y as nat),
            decreases h - target_y,
        {
            let source_y = if signed_height > 0 { h - 1 - target_y } else { target_y };
            proof {
                assert(source_y * row_stride + row_stride <= row_stride * h) by (nonlinear_arith)
                    requires source_y < h;
            }
            let source_row = data_start + source_y * row_stride;
            let ghost before = pixel_data@;
            let mut x: usize = 0;
            while x < w
                invariant
                    bmp_valid(data@),
                    w == bmp_width(data@),
                    h == bmp_height(data@),
                    row_stride == bmp_stride(data@),
                    data_start == bmp_start(data@),
                    signed_height == bmp_signed_height(data@),
                    source_y == stored_row(data@, target_y as int),
                    source_row == data_start + source_y * row_stride,
                    source_row + row_stride <= data@.len(),
                    data@.len() <= usize::MAX,
                    bpp == bmp_bpp(data@),
                    w * bpp <= row_stride,
                    target_y < h,
                    x <= w,
                    pixel_data@ == before + bmp_row(data@, target_y as int).take(x as int),
                decreases w - x,
            {
                proof {
                    assert(x * bpp + bpp <= w * bpp) by (nonlinear_arith)
                        requires x < w;
                }
                let source = source_row + x * bpp;
                let blue = data[source];
                let green = data[source + 1];
                let red = data[source + 2];
                let ghost prev = pixel_data@;
                pixel_data.push(color(red, green, blue, 0));
                proof {
                    let row = bmp_row(data@, target_y as int);
                    assert(row.take(x + 1) =~= row.take(x as int).push(row[x as int]));
                    assert(pixel_data@ =~= before + row.take(x + 1));
                }
                x = x + 1;
            }
            proof {
                let row = bmp_row(data@, target_y as int);
                assert(row.take(w as int) =~= row);
                assert(bmp_rows(data@, (target_y + 1) as nat) == bmp_rows(data@, target_y as nat) + row);
            }
            target_y = target_y + 1;
        }

        proof {
            lemma_bmp_rows_len(data@, h as nat);
        }
        let header = BitmapFileHeader {
            signature: [0x42, 0x4d],
            file_size,
            reserved,
            data_offset,
            info_header: BitmapInfoHeader {
                header_size,
                width,
                height: height_i32,
                color_planes,
                bits_per_pixel,
                compression: if compression == 3 { Compression::BitFields } else { Compression::Rgb },
                image_size,
                x_pixels_per_meter,
                y_pixels_per_meter,
                colors_used,
                important_colors,
            },
        };
        Some(Bitmap { header, pixel_data })
    }

    /// The width of the bitmap in pixels.
    pub fn width(&self) -> (r: u32)
        ensures
            r == self.width_spec(),
            r > 0,
    {
        proof {
            use_type_invariant(self);
        }
        self.header.info_header.width as u32
    }

    /// The height of the bitmap in pixels.
    pub fn height(&self) -> (r: u32)
        ensures
            r == self.height_spec(),
            r > 0,
    {
        proof {
            use_type_invariant(self);
        }
        self.header.info_header.height as u32
    }

    /// The pixel data, row by row from the top, in ARGB format.
    pub fn pixel_data(&self) -> (r: &[u32])
        ensures
            r@ == self.pixels(),
            r@.len() == self.width_spec() * self.height_spec(),
    {
        proof {
            use_type_invariant(self);
        }
        self.pixel_data.as_slice()
    }
}

} // verus!
