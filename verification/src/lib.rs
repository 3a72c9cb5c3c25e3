use vstd::prelude::*;

pub mod audio;
pub mod config;
pub mod error;
pub mod text;
pub mod lyrics;
pub mod playlist;
pub mod ui;
pub mod utils;

verus! {
}
