//! Audio files: their metadata, embedded lyrics and cover art; the choice
//! of an output configuration; how track channels feed output channels;
//! the sizes that playback works with; and what is written back into a
//! file's tags.

pub mod device;
pub mod file;
pub mod playback;
pub mod stream;
pub mod tag_writer;
