//! Peak-waveform rendering and view-window navigation for stereo 16-bit PCM
//! sample data.
//!
//! The crate holds three verified pieces: a sample store that validates
//! decoder output, a waveform rasterizer that reduces a run of signed 16-bit
//! samples to a monochrome pixel buffer by per-column peak aggregation, and a
//! view-window controller that maps scroll input to a valid sub-range of the
//! sample timeline.

pub mod error;
pub mod frame;
pub mod raster;
pub mod store;
pub mod view;
