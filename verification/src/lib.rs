#![allow(unused_imports)]
use vstd::prelude::*;

pub mod blit_map;
pub mod canvas;
pub mod config;
pub mod frame;
pub mod gesture;
pub mod input;
pub mod layer;
pub mod point;
pub mod prelude;
pub mod streamed_data;
pub mod swipe;
pub mod util;
