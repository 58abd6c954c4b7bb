//! The decisions of the demos: the demo menu, the counter threads of the
//! thread demo, the bitmap demo and the Game Boy emulator.
pub mod menu;
pub mod lesson5;
pub mod lesson6;
pub mod peanut_gb;
