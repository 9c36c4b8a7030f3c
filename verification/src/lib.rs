//! Peak extraction for pitch detection on one fixed-length signal window.
//!
//! The crate works on the real parts of a quefrency-domain buffer in fixed
//! point: every amplitude is an `i32`, every sub-bin position, interpolated
//! amplitude and frequency is an exact fraction of two integers. The spectral
//! transforms themselves are done by the caller, who stores their result in an
//! [`fft_space::FftSpace`] and hands it to one of the detectors.

pub mod constants;
pub mod fft_space;
pub mod frequency;
pub mod note_renderers;
pub mod peak_iter;
pub mod ratio;
pub mod test_utils;
pub mod utils;
