//! Streaming spectrogram framing, spectral peak search and signal energy,
//! over plain sample and magnitude values.

pub mod peak;
pub mod signal;
pub mod spectrogram;
pub mod stream;
