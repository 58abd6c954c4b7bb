use heineos::demo::peanut_gb::{load_cart_ram, SaveLoad};
use heineos::filesystem::archive_check::is_walkable_archive;
use heineos::filesystem::tarfs::{FileHandle, FileType, FsError, Metadata, SeekMode, TarFs};
use heineos::library::bitmap::Bitmap;
use heineos::shell::commands::filesystem::{read_file, regular_file, PathError};

fn header(name: &str, size: usize, typeflag: u8) -> [u8; 512] {
    let mut h = [0u8; 512];
    h[..name.len()].copy_from_slice(name.as_bytes());
    h[100..108].copy_from_slice(b"0000644\0");
    h[108..116].copy_from_slice(b"0000000\0");
    h[116..124].copy_from_slice(b"0000000\0");
    let size_field = format!("{:011o}\0", size);
    h[124..136].copy_from_slice(size_field.as_bytes());
    h[136..148].copy_from_slice(b"00000000000\0");
    h[156] = typeflag;
    h[257..263].copy_from_slice(b"ustar\0");
    h[263..265].copy_from_slice(b"00");
    for b in &mut h[148..156] {
        *b = b' ';
    }
    let sum: u32 = h.iter().map(|b| *b as u32).sum();
    let checksum = format!("{:06o}\0 ", sum);
    h[148..156].copy_from_slice(checksum.as_bytes());
    h
}

fn archive(files: &[(&str, &[u8], u8)]) -> TarFs {
    let mut bytes: Vec<u8> = Vec::new();
    for (name, data, typeflag) in files {
        bytes.extend_from_slice(&header(name, data.len(), *typeflag));
        bytes.extend_from_slice(data);
        while bytes.len() % 512 != 0 {
            bytes.push(0);
        }
    }
    bytes.extend_from_slice(&[0u8; 1024]);
    let leaked: &'static [u8] = Box::leak(bytes.into_boxed_slice());
    TarFs::new(leaked).expect("valid archive")
}

const LICENSE: &[u8] = b"Copyright (c) 2048 authors\nSome text.\n";

fn sample() -> TarFs {
    archive(&[
        ("roms/2048-license.txt", LICENSE, b'0'),
        ("roms/2048.gb", b"GBROM", b'0'),
        ("roms/saves/", b"", b'0'),
        ("docs/guide/intro.txt", b"intro", b'0'),
        ("top.txt", b"hello", b'0'),
        ("empty.txt", b"", b'0'),
    ])
}

#[test]
fn open_missing_file_fails() {
    let mut fs = sample();
    assert_eq!(fs.open("/missing.txt"), Err(FsError::FileNotFound));
    assert_eq!(fs.open("roms"), Err(FsError::FileNotFound));
}

#[test]
fn read_seek_and_close_like_the_demo() {
    let mut fs = sample();
    let handle = fs.open("/roms/2048-license.txt").unwrap();
    let size = fs.size(handle).unwrap();
    assert_eq!(size, LICENSE.len());

    let mut prefix = [0u8; 9];
    assert_eq!(fs.read(handle, &mut prefix), Ok(9));
    assert_eq!(&prefix, b"Copyright");
    assert_eq!(fs.seek(handle, -4, SeekMode::Current), Ok(5));
    assert_eq!(fs.seek(handle, 0, SeekMode::End), Ok(size));
    assert_eq!(fs.read(handle, &mut prefix), Err(FsError::EndOfFile));
    assert_eq!(fs.seek(handle, 0, SeekMode::Start), Ok(0));

    let mut data = vec![0u8; size];
    assert_eq!(fs.read(handle, &mut data), Ok(size));
    assert_eq!(data, LICENSE);
    assert_eq!(fs.close(handle), Ok(()));
    assert_eq!(fs.size(handle), Err(FsError::InvalidHandle));
    assert_eq!(fs.close(handle), Err(FsError::InvalidHandle));
}

#[test]
fn seek_is_clamped_to_the_file() {
    let mut fs = sample();
    let handle = fs.open("top.txt").unwrap();
    assert_eq!(fs.seek(handle, -100, SeekMode::Start), Ok(0));
    assert_eq!(fs.seek(handle, 100, SeekMode::Start), Ok(5));
    assert_eq!(fs.seek(handle, -2, SeekMode::End), Ok(3));
    assert_eq!(fs.seek(handle, isize::MAX, SeekMode::Current), Ok(5));
    assert_eq!(fs.seek(handle, isize::MIN, SeekMode::Current), Ok(0));
    let mut two = [0u8; 2];
    fs.seek(handle, 3, SeekMode::Start).unwrap();
    assert_eq!(fs.read(handle, &mut two), Ok(2));
    assert_eq!(&two, b"lo");
    assert_eq!(fs.seek(FileHandle(999), 0, SeekMode::Start), Err(FsError::InvalidHandle));
}

#[test]
fn short_reads_at_the_end() {
    let mut fs = sample();
    let handle = fs.open("top.txt").unwrap();
    let mut buffer = [b'x'; 8];
    assert_eq!(fs.read(handle, &mut buffer), Ok(5));
    assert_eq!(&buffer, b"helloxxx");
    let empty = fs.open("empty.txt").unwrap();
    assert_eq!(fs.read(empty, &mut buffer), Err(FsError::EndOfFile));
    assert_eq!(fs.read(FileHandle(77), &mut buffer), Err(FsError::InvalidHandle));
}

#[test]
fn handles_are_distinct_and_counted_up() {
    let mut fs = sample();
    let a = fs.open("top.txt").unwrap();
    let b = fs.open("top.txt").unwrap();
    assert_ne!(a, b);
    assert_eq!(a, FileHandle(0));
    assert_eq!(b, FileHandle(1));
    fs.close(a).unwrap();
    let c = fs.open("top.txt").unwrap();
    assert_eq!(c, FileHandle(2));
}

#[test]
fn listing_is_sorted_and_derived_from_names() {
    let fs = sample();
    let root = fs.list("/").unwrap();
    let names: Vec<(&str, usize, FileType)> = root.iter().map(|e| (e.name.as_str(), e.size, e.file_type)).collect();
    assert_eq!(
        names,
        vec![
            ("docs", 0, FileType::Directory),
            ("empty.txt", 0, FileType::File),
            ("roms", 0, FileType::Directory),
            ("top.txt", 5, FileType::File),
        ]
    );
    let roms = fs.list(" /roms/ ").unwrap();
    let names: Vec<(&str, FileType)> = roms.iter().map(|e| (e.name.as_str(), e.file_type)).collect();
    assert_eq!(
        names,
        vec![("2048-license.txt", FileType::File), ("2048.gb", FileType::File), ("saves", FileType::Directory)]
    );
    assert!(fs.list("roms/saves").unwrap().is_empty());
    assert_eq!(fs.list("docs").unwrap().len(), 1);
    assert!(matches!(fs.list("nothing"), Err(FsError::FileNotFound)));
    assert!(fs.list("top.txt").unwrap().is_empty());
}

#[test]
fn metadata_of_files_and_directories() {
    let fs = sample();
    assert_eq!(fs.metadata("/top.txt"), Ok(Metadata { size: 5, file_type: FileType::File }));
    assert_eq!(fs.metadata("roms/saves"), Ok(Metadata { size: 0, file_type: FileType::Directory }));
    assert_eq!(fs.metadata("docs/guide/"), Ok(Metadata { size: 0, file_type: FileType::Directory }));
    assert_eq!(fs.metadata("/"), Ok(Metadata { size: 0, file_type: FileType::Directory }));
    assert_eq!(fs.metadata("doc"), Err(FsError::FileNotFound));
    assert_eq!(regular_file(&fs, "top.txt"), Ok(Metadata { size: 5, file_type: FileType::File }));
    assert_eq!(regular_file(&fs, "roms"), Err(PathError::Directory));
    assert_eq!(regular_file(&fs, "none"), Err(PathError::NotFound));
}

#[test]
fn read_file_takes_at_most_the_limit() {
    let mut fs = sample();
    assert_eq!(read_file(&mut fs, "top.txt", 512), Some(b"hello".to_vec()));
    assert_eq!(read_file(&mut fs, "/roms/2048-license.txt", 9), Some(b"Copyright".to_vec()));
    assert_eq!(read_file(&mut fs, "empty.txt", 512), Some(Vec::new()));
    assert_eq!(read_file(&mut fs, "none", 512), None);
    let handle = fs.open("top.txt").unwrap();
    assert_eq!(handle, FileHandle(3));
}

fn bmp(width: i32, height: i32, rows: &[&[[u8; 3]]]) -> Vec<u8> {
    let stride = ((width as usize) * 3 + 3) / 4 * 4;
    let data_size = stride * rows.len();
    let file_size = 54 + data_size;
    let mut d = Vec::new();
    d.extend_from_slice(b"BM");
    d.extend_from_slice(&(file_size as u32).to_le_bytes());
    d.extend_from_slice(&0u32.to_le_bytes());
    d.extend_from_slice(&54u32.to_le_bytes());
    d.extend_from_slice(&40u32.to_le_bytes());
    d.extend_from_slice(&width.to_le_bytes());
    d.extend_from_slice(&height.to_le_bytes());
    d.extend_from_slice(&1u16.to_le_bytes());
    d.extend_from_slice(&24u16.to_le_bytes());
    d.extend_from_slice(&0u32.to_le_bytes());
    d.extend_from_slice(&(data_size as u32).to_le_bytes());
    d.extend_from_slice(&[0u8; 16]);
    for row in rows {
        let start = d.len();
        for px in row.iter() {
            d.extend_from_slice(px);
        }
        while d.len() - start < stride {
            d.push(0);
        }
    }
    d
}

#[test]
fn bitmap_rows_are_flipped_to_top_first() {
    let bottom_up = bmp(2, 2, &[&[[1, 2, 3], [4, 5, 6]], &[[7, 8, 9], [10, 11, 12]]]);
    let image = Bitmap::from_bytes(&bottom_up).unwrap();
    assert_eq!(image.width(), 2);
    assert_eq!(image.height(), 2);
    assert_eq!(image.pixel_data(), &[0x090807, 0x0c0b0a, 0x030201, 0x060504]);
    let top_down = bmp(2, -2, &[&[[1, 2, 3], [4, 5, 6]], &[[7, 8, 9], [10, 11, 12]]]);
    let image = Bitmap::from_bytes(&top_down).unwrap();
    assert_eq!(image.pixel_data(), &[0x030201, 0x060504, 0x090807, 0x0c0b0a]);
}

fn bmp32(width: i32, height: i32, compression: u32, pixels: &[[u8; 4]]) -> Vec<u8> {
    let data_size = pixels.len() * 4;
    let mut d = Vec::new();
    d.extend_from_slice(b"BM");
    d.extend_from_slice(&((54 + data_size) as u32).to_le_bytes());
    d.extend_from_slice(&0u32.to_le_bytes());
    d.extend_from_slice(&54u32.to_le_bytes());
    d.extend_from_slice(&40u32.to_le_bytes());
    d.extend_from_slice(&width.to_le_bytes());
    d.extend_from_slice(&height.to_le_bytes());
    d.extend_from_slice(&1u16.to_le_bytes());
    d.extend_from_slice(&32u16.to_le_bytes());
    d.extend_from_slice(&compression.to_le_bytes());
    d.extend_from_slice(&(data_size as u32).to_le_bytes());
    d.extend_from_slice(&[0u8; 16]);
    for px in pixels {
        d.extend_from_slice(px);
    }
    d
}

#[test]
fn thirty_two_bit_bitmaps_are_loaded() {
    let plain = bmp32(3, 1, 0, &[[1, 2, 3, 0xff], [4, 5, 6, 0x80], [7, 8, 9, 0]]);
    let image = Bitmap::from_bytes(&plain).unwrap();
    assert_eq!(image.width(), 3);
    assert_eq!(image.height(), 1);
    assert_eq!(image.pixel_data(), &[0x030201, 0x060504, 0x090807]);
    let masked = bmp32(1, 2, 3, &[[1, 2, 3, 4], [5, 6, 7, 8]]);
    let image = Bitmap::from_bytes(&masked).unwrap();
    assert_eq!(image.pixel_data(), &[0x070605, 0x030201]);
    let short = bmp32(2, 1, 0, &[[1, 2, 3, 4]]);
    assert!(Bitmap::from_bytes(&short).is_none());
    let other = bmp32(1, 1, 2, &[[1, 2, 3, 4]]);
    assert!(Bitmap::from_bytes(&other).is_none());
}

#[test]
fn invalid_bitmaps_are_refused() {
    assert!(Bitmap::from_bytes(&[]).is_none());
    assert!(Bitmap::from_bytes(b"not a bitmap").is_none());
    let mut wrong_depth = bmp(1, 1, &[&[[1, 2, 3]]]);
    wrong_depth[28] = 16;
    assert!(Bitmap::from_bytes(&wrong_depth).is_none());
    let mut compressed = bmp(1, 1, &[&[[1, 2, 3]]]);
    compressed[30] = 1;
    assert!(Bitmap::from_bytes(&compressed).is_none());
    let truncated = bmp(2, 2, &[&[[1, 2, 3], [4, 5, 6]], &[[7, 8, 9], [10, 11, 12]]]);
    assert!(Bitmap::from_bytes(&truncated[..truncated.len() - 1]).is_none());
}

#[test]
fn bitmap_from_file() {
    let image = bmp(1, 1, &[&[[0x10, 0x20, 0x30]]]);
    let mut fs = archive(&[("heine.bmp", &image, b'0'), ("bad.bmp", b"xx", b'0'), ("none.bmp", b"", b'0')]);
    let loaded = Bitmap::read_from_file(&mut fs, "/heine.bmp").unwrap().unwrap();
    assert_eq!(loaded.pixel_data(), &[0x302010]);
    assert!(Bitmap::read_from_file(&mut fs, "bad.bmp").unwrap().is_none());
    assert!(matches!(Bitmap::read_from_file(&mut fs, "none.bmp"), Err(FsError::EndOfFile)));
    assert!(matches!(Bitmap::read_from_file(&mut fs, "gone.bmp"), Err(FsError::FileNotFound)));
}

#[test]
fn cartridge_ram_from_save_file() {
    let mut fs = archive(&[("roms/gameboy.sav", b"aaaabbbb", b'0')]);
    assert_eq!(load_cart_ram(&mut fs, "/roms/gameboy.sav", 4), (b"bbbb".to_vec(), SaveLoad::Loaded(2)));
    assert_eq!(load_cart_ram(&mut fs, "/roms/gameboy.sav", 3), (vec![0; 3], SaveLoad::InvalidSize));
    assert_eq!(load_cart_ram(&mut fs, "/roms/gameboy.sav", 0), (Vec::new(), SaveLoad::NoRam));
    assert_eq!(load_cart_ram(&mut fs, "/roms/none.sav", 2), (vec![0; 2], SaveLoad::NoSaveFile));
}

fn raw_archive(first: [u8; 512]) -> &'static [u8] {
    let mut bytes = first.to_vec();
    bytes.extend_from_slice(&[0u8; 1024]);
    Box::leak(bytes.into_boxed_slice())
}

#[test]
fn archives_that_cannot_be_walked_safely_are_refused() {
    assert!(is_walkable_archive(raw_archive(header("a.txt", 0, b'0'))));
    // A size field that is not octal digits.
    let mut odd_size = header("a.txt", 0, b'0');
    odd_size[124..136].copy_from_slice(b"12x45678901\0");
    assert!(!is_walkable_archive(raw_archive(odd_size)));
    assert!(TarFs::new(raw_archive(odd_size)).is_none());
    // A header that ends the walk, with a numeric field that is not text.
    let mut stop = [0u8; 512];
    stop[108] = 0xff;
    assert!(!is_walkable_archive(raw_archive(stop)));
    stop[108] = b'7';
    assert!(is_walkable_archive(raw_archive(stop)));
    // A header of another type is passed over.
    let mut link = header("l", 0, b'2');
    link[124..136].copy_from_slice(b"zzzzzzzzzzz\0");
    assert!(is_walkable_archive(raw_archive(link)));
    // Not a whole number of blocks, or too few.
    assert!(!is_walkable_archive(&[0u8; 1000]));
    assert!(!is_walkable_archive(&[0u8; 1024]));
    assert!(is_walkable_archive(&[0u8; 1536]));
}
