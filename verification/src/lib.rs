//! Hides a raw audio stream inside a four-colour picture.
//!
//! The result is an 8-bit indexed bitmap whose palette repeats the picture's
//! four colours sixty-four times. The low two bits of each pixel index select
//! the colour, so the picture survives; the high six bits carry the audio, so
//! the pixel data doubles as a (6-bit) PCM stream.

pub mod audio;
pub mod colour;
pub mod container;
pub mod error;
pub mod geometry;
pub mod mask;
pub mod paint;
pub mod palette;
pub mod picture;
pub mod pipeline;
