//! A verified implementation of Wang et al.'s two-block MD5 collision search.

pub mod block1;
pub mod block2;
pub mod collide;
pub mod md5;
pub mod rng;
pub mod state;
pub mod trace;
