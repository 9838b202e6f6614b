//! Interpreter configuration options.
use vstd::prelude::*;

verus! {

/// Options recognized by the interpreter. Loading them from a
/// configuration file is the host's job; the core only carries the
/// resulting plain values.
pub struct Config {
    /// Enables a verbose per-cycle state dump in the driver.
    pub debug: bool,
    /// Enables or disables presentation of rendered frames.
    pub render_screen: bool,
    /// Display tint used for lit framebuffer cells.
    pub initial_color: u32,
    /// Enables or disables invocation of the audio collaborator.
    pub play_sound: bool,
}

impl Config {
    pub fn new(debug: bool, render_screen: bool, initial_color: u32, play_sound: bool) -> (c: Config)
        ensures
            c.debug == debug,
            c.render_screen == render_screen,
            c.initial_color == initial_color,
            c.play_sound == play_sound,
    {
        Config { debug, render_screen, initial_color, play_sound }
    }
}

} // verus!
