//! A CHIP-8 virtual machine: memory and register model, an interpreter for the
//! full instruction table, and an XOR-drawn monochrome framebuffer.

use vstd::prelude::*;

pub mod cpu;
pub mod display;

verus! {

/// Width of the framebuffer, in pixels.
pub const WIDTH: usize = 64;

/// Height of the framebuffer, in pixels.
pub const HEIGHT: usize = 32;

/// Number of cells of the framebuffer.
pub const N_PIXELS: usize = WIDTH * HEIGHT;

} // verus!
