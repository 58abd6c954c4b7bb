//! The Game Boy frontend's own logic: the joypad keys, where a screen line
//! is drawn, and the cartridge RAM loaded from the save file.
use vstd::prelude::*;
use crate::device::key::{KeyEvent, Scancode};
use crate::filesystem::tarfs::{
    archive_contents, entry_index, lemma_entry_index_bounds, FsError, SeekMode, TarFs,
};
use crate::text::strip_start;

verus! {

/// Joypad bit of the A button.
pub const BUTTON_A: u8 = 0x01;
/// Joypad bit of the B button.
pub const BUTTON_B: u8 = 0x02;
/// Joypad bit of the Select button.
pub const BUTTON_SELECT: u8 = 0x04;
/// Joypad bit of the Start button.
pub const BUTTON_START: u8 = 0x08;
/// Joypad bit of the Right button.
pub const BUTTON_RIGHT: u8 = 0x10;
/// Joypad bit of the Left button.
pub const BUTTON_LEFT: u8 = 0x20;
/// Joypad bit of the Up button.
pub const BUTTON_UP: u8 = 0x40;
/// Joypad bit of the Down button.
pub const BUTTON_DOWN: u8 = 0x80;
/// Width of the Game Boy screen in pixels.
pub const GB_SCREEN_WIDTH: usize = 160;
/// Height of the Game Boy screen in pixels.
pub const GB_SCREEN_HEIGHT: usize = 144;
/// Each Game Boy pixel is drawn as a square of this many framebuffer pixels.
pub const SCREEN_SCALE: usize = 2;
/// The target frame rate; the Game Boy runs at 60 frames per second.
pub const TARGET_FRAME_RATE: usize = 60;
/// Milliseconds per frame at the target frame rate.
pub const MS_PER_FRAME: usize = 1000 / TARGET_FRAME_RATE;

/// The joypad button a key stands for.
pub open spec fn button_of(scancode: Scancode) -> Option<u8> {
    match scancode {
        Scancode::X => Some(BUTTON_A),
        Scancode::Y => Some(BUTTON_B),
        Scancode::Space => Some(BUTTON_SELECT),
        Scancode::Enter => Some(BUTTON_START),
        Scancode::Right => Some(BUTTON_RIGHT),
        Scancode::Left => Some(BUTTON_LEFT),
        Scancode::Up => Some(BUTTON_UP),
        Scancode::Down => Some(BUTTON_DOWN),
        _ => None,
    }
}

/// The joypad bit of the button a key stands for, if any.
pub fn joypad_button(scancode: Scancode) -> (r: Option<u8>)
    ensures
        r == button_of(scancode),
{
    match scancode {
        Scancode::X => Some(BUTTON_A),
        Scancode::Y => Some(BUTTON_B),
        Scancode::Space => Some(BUTTON_SELECT),
        Scancode::Enter => Some(BUTTON_START),
        Scancode::Right => Some(BUTTON_RIGHT),
        Scancode::Left => Some(BUTTON_LEFT),
        Scancode::Up => Some(BUTTON_UP),
        Scancode::Down => Some(BUTTON_DOWN),
        _ => None,
    }
}

/// The joypad state after a key event: a pressed button's bit is cleared, a
/// released button's bit is set (a set bit means "not pressed"); other keys
/// leave the state as it is.
pub fn update_joypad(state: u8, event: &KeyEvent) -> (r: u8)
    ensures
        match event.scancode {
            Some(s) => match button_of(s) {
                Some(b) => r == if event.pressed { state & !b } else { state | b },
                None => r == state,
            },
            None => r == state,
        },
{
    match event.scancode() {
        Some(s) => match joypad_button(s) {
            Some(b) => if event.pressed() {
                state & !b
            } else {
                state | b
            },
            None => state,
        },
        None => state,
    }
}

/// The color of a Game Boy pixel: its two low bits select one of four shades.
pub fn palette_color(pixel: u8) -> (r: u32)
    ensures
        (pixel & 3) == 0 ==> r == 0xe0f8d0,
        (pixel & 3) == 1 ==> r == 0x88c070,
        (pixel & 3) == 2 ==> r == 0x346856,
        (pixel & 3) == 3 ==> r == 0x081820,
{
    let shade = pixel & 3;
    if shade == 0 {
        0xe0f8d0
    } else if shade == 1 {
        0x88c070
    } else if shade == 2 {
        0x346856
    } else {
        0x081820
    }
}

/// Where screen line `line` starts on a `width` x `height` framebuffer: the
/// scaled screen is centered. `None` if the line does not exist or the screen
/// does not fit.
pub fn line_origin(width: usize, height: usize, line: usize) -> (r: Option<(usize, usize)>)
    ensures
        line >= GB_SCREEN_HEIGHT || GB_SCREEN_WIDTH * SCREEN_SCALE > width || GB_SCREEN_HEIGHT * SCREEN_SCALE > height
            ==> r is None,
        !(line >= GB_SCREEN_HEIGHT || GB_SCREEN_WIDTH * SCREEN_SCALE > width || GB_SCREEN_HEIGHT * SCREEN_SCALE > height)
            ==> r == Some((((width - GB_SCREEN_WIDTH * SCREEN_SCALE) / 2) as usize, ((height - GB_SCREEN_HEIGHT
            * SCREEN_SCALE) / 2 + line * SCREEN_SCALE) as usize)),
{
    let screen_width = GB_SCREEN_WIDTH * SCREEN_SCALE;
    let screen_height = GB_SCREEN_HEIGHT * SCREEN_SCALE;
    if line >= GB_SCREEN_HEIGHT || screen_width > width || screen_height > height {
        return None;
    }
    Some(((width - screen_width) / 2, (height - screen_height) / 2 + line * SCREEN_SCALE))
}

/// An error the emulator reports while running.
#[derive(Clone, Copy, Debug, PartialEq, Eq, Structural)]
pub enum GbError {
    UnknownError,
    InvalidOpcode,
    InvalidRead,
    InvalidWrite,
}

/// The emulator error with code `code`, if the code is known.
pub fn gb_error(code: i32) -> (r: Option<GbError>)
    ensures
        code == 0 ==> r == Some(GbError::UnknownError),
        code == 1 ==> r == Some(GbError::InvalidOpcode),
        code == 2 ==> r == Some(GbError::InvalidRead),
        code == 3 ==> r == Some(GbError::InvalidWrite),
        !(0 <= code <= 3) ==> r is None,
{
    if code == 0 {
        Some(GbError::UnknownError)
    } else if code == 1 {
        Some(GbError::InvalidOpcode)
    } else if code == 2 {
        Some(GbError::InvalidRead)
    } else if code == 3 {
        Some(GbError::InvalidWrite)
    } else {
        None
    }
}

/// The result of initializing the emulator.
#[derive(Clone, Copy, Debug, PartialEq, Eq, Structural)]
pub enum GbInitError {
    NoError,
    CartridgeUnsupported,
    InvalidChecksum,
    UnknownError,
}

/// The initialization result with code `code`, if the code is known.
pub fn gb_init_error(code: i32) -> (r: Option<GbInitError>)
    ensures
        code == 0 ==> r == Some(GbInitError::NoError),
        code == 1 ==> r == Some(GbInitError::CartridgeUnsupported),
        code == 2 ==> r == Some(GbInitError::InvalidChecksum),
        code == 3 ==> r == Some(GbInitError::UnknownError),
        !(0 <= code <= 3) ==> r is None,
{
    if code == 0 {
        Some(GbInitError::NoError)
    } else if code == 1 {
        Some(GbInitError::CartridgeUnsupported)
    } else if code == 2 {
        Some(GbInitError::InvalidChecksum)
    } else if code == 3 {
        Some(GbInitError::UnknownError)
    } else {
        None
    }
}

/// How the cartridge RAM was filled.
#[derive(Clone, Copy, Debug, PartialEq, Eq, Structural)]
pub enum SaveLoad {
    /// The game uses no cartridge RAM.
    NoRam,
    /// There is no save file; the RAM starts zeroed.
    NoSaveFile,
    /// The save file's size is not a nonzero multiple of the RAM size; it is ignored.
    InvalidSize,
    /// The latest of this many snapshots in the save file was loaded.
    Loaded(usize),
}

/// Whether the cartridge RAM of the current session can be kept: it was
/// filled before and has the size the game asks for.
pub fn reuse_cart_ram(initialized: bool, current_len: usize, save_size: usize) -> (r: bool)
    ensures
        r == (initialized && current_len == save_size),
{
    initialized && current_len == save_size
}

/// Fill `save_size` bytes of cartridge RAM from the save file at `save_path`.
/// The save file holds consecutive snapshots of the RAM; the latest, the last
/// `save_size` bytes, is loaded. Without a save file, or with one whose size
/// is not a nonzero multiple of `save_size`, the RAM stays zeroed.
pub fn load_cart_ram(fs: &mut TarFs, save_path: &str, save_size: usize) -> (r: (Vec<u8>, SaveLoad))
    requires
        old(fs).wf(),
    ensures
        final(fs).wf(),
        final(fs).archive_spec() == old(fs).archive_spec(),
        forall|h| #[trigger] final(fs).lookup(h) == old(fs).lookup(h),
        r.0@.len() == save_size,
        ({
            let c = archive_contents(old(fs).archive_spec());
            let k = entry_index(c, strip_start(save_path@, '/'));
            if save_size == 0 {
                r.1 == SaveLoad::NoRam
            } else if k == c.len() {
                r.1 == SaveLoad::NoSaveFile && r.0@ == Seq::new(save_size as nat, |i: int| 0u8)
            } else if c[k].1.len() == 0 || c[k].1.len() % (save_size as nat) != 0 || c[k].1.len() > isize::MAX {
                r.1 == SaveLoad::InvalidSize && r.0@ == Seq::new(save_size as nat, |i: int| 0u8)
            } else {
                r.1 == SaveLoad::Loaded((c[k].1.len() / (save_size as nat)) as usize)
                    && r.0@ == c[k].1.subrange(c[k].1.len() - save_size, c[k].1.len() as int)
            }
        }),
{
    let mut ram = vec![0u8; save_size];
    proof {
        assert(ram@ =~= Seq::new(save_size as nat, |i: int| 0u8));
    }
    if save_size == 0 {
        return (ram, SaveLoad::NoRam);
    }
    let file = match fs.open(save_path) {
        Ok(f) => f,
        Err(_) => return (ram, SaveLoad::NoSaveFile),
    };
    let ghost c = archive_contents(old(fs).archive_spec());
    let ghost k = entry_index(c, strip_start(save_path@, '/'));
    let ghost data = c[k].1;
    let ghost opened = *fs;
    proof {
        lemma_entry_index_bounds(c, strip_start(save_path@, '/'));
    }
    let file_size = match fs.size(file) {
        Ok(s) => s,
        Err(_) => return (ram, SaveLoad::NoSaveFile),
    };
    if file_size == 0 || file_size % save_size != 0 || file_size > isize::MAX as usize {
        let _ = fs.close(file);
        return (ram, SaveLoad::InvalidSize);
    }
    assert(file_size >= save_size) by (nonlinear_arith)
        requires
            file_size > 0,
            save_size > 0,
            file_size % save_size == 0,
    {
        if file_size < save_size {
            assert(file_size % save_size == file_size);
        }
    }
    let snapshot_offset = file_size - save_size;
    let _ = fs.seek(file, snapshot_offset as isize, SeekMode::Start);
    let ghost after_seek = *fs;
    let _ = fs.read(file, &mut ram);
    let ghost after_read = *fs;
    let _ = fs.close(file);
    proof {
        assert(after_seek.lookup(file) == Some((data, snapshot_offset)));
        assert(ram@ =~= data.subrange(snapshot_offset as int, file_size as int));
        assert forall|h| #[trigger] fs.lookup(h) == old(fs).lookup(h) by {
            if h != file {
                assert(after_read.lookup(h) == after_seek.lookup(h));
                assert(after_seek.lookup(h) == opened.lookup(h));
            }
        }
    }
    (ram, SaveLoad::Loaded(file_size / save_size))
}

} // verus!
