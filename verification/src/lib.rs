//! Verified core of a music visualiser's audio and shader-conversion layers.

pub mod bands;
pub mod butterchurn;
pub mod capture;
pub mod capture_ring;
pub mod convert;
pub mod features;
pub mod glsl;
pub mod glsl_laws;
pub mod helper;
pub mod history;
pub mod hpss;
pub mod level;
pub mod onset;
pub mod order;
pub mod protocol;
pub mod resample;
pub mod select;
pub mod smoothing;
pub mod spectrogram;
pub mod staging;
pub mod structure;
pub mod tempo;
pub mod text;
pub mod tonal;
pub mod triple_buffer;
pub mod utf8;
pub mod waveform;
