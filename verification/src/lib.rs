//! Verified core of a small keyboard synthesizer front end: the text formats
//! of its resource files, the key-to-note bindings, the keyboard's note
//! events and the decisions of its main loop.

pub mod text;
pub mod resource;
pub mod number;
pub mod keymap;
pub mod keybind;
pub mod keyboard;
pub mod controls;
pub mod instrument;

use vstd::prelude::*;

verus! {

/// A record of one integer, as the renderer tests its data buffers with.
pub struct DataBufferTest {
    pub x: i32,
}

} // verus!
