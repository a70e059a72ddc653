//! Verified core of the boresight pass visualizer: the text formats it reads
//! (column lists, TLE files, markers, windows), the playback timeline and its
//! events, the key bindings, and the label placement grid of the ground track.

pub mod text;
pub mod pointing;
pub mod inputs;
pub mod scene;
pub mod timeline;
pub mod keys;
pub mod time;
pub mod orbit;
