//! Verified core of two small teaching kernels.
//!
//! * `honeyos` — an indexed-allocation in-memory file system and a VGA
//!   text-mode writer working on a model of the screen buffer.
//! * `xspaceos` — a flat in-memory file system, the PS/2 scancode decoder
//!   and the text editor / menu logic of the interactive shell.
pub mod honeyos;
pub mod xspaceos;
mod text;
