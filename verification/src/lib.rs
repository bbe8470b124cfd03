//! VTCast: transparent avatar capture, side-by-side alpha packing and signaling.

pub mod capture;
pub mod config;
pub mod dda;
pub mod diagnostics;
pub mod encoder;
pub mod gpu;
pub mod gpu_convert;
pub mod mf_encoder;
pub mod nv12;
pub mod nvenc;
pub mod packer;
pub mod pipeline;
pub mod pixels;
pub mod protocol;
pub mod publisher;
pub mod resize;
pub mod room;
pub mod scaling;
pub mod text;
pub mod turn;
pub mod wgc;
pub mod ws;
