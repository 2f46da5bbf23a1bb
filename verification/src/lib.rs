//! Layout of several displays around a first one: reading the display
//! inventory from a textual report, computing the canvas that holds all
//! displays and each display's offset in it, composing the arguments of the
//! configuration command, and deciding what a hotplug watcher has to do
//! after each poll.

pub mod canvas;
pub mod lines;
pub mod monitor;
pub mod number;
pub mod pairing;
pub mod placement;
pub mod rect;
pub mod report;
pub mod text;
pub mod watch;
pub mod xrandr;
