//! Audio-reactive spectrum bars: the verified core that turns decoded audio
//! into a deterministic sequence of rendered frames.
//!
//! The run walks through the audio at the frame rate of the video. For each
//! frame it cuts a window of samples ([`audio`], [`timeline`]), has the
//! caller transform it into a magnitude spectrum ([`spectrum`]), reduces the
//! spectrum to one amplitude per bar ([`mapper`]), draws the bars
//! ([`render`]) and hands the frame on, in the order that [`pipeline`]
//! keeps. [`decode`] holds the decisions of the sample source, [`color`] the
//! textual form of colours, and [`error`] what is said when a run ends early.
//!
//! All quantities are held as integers. Amplitudes are Q16 fixed point
//! (`mapper::UNIT` stands for 1.0), geometry is in whole pixels, and colours
//! are 8-bit RGBA. Floating-point work (the frequency transform itself) is
//! left to the caller, which hands quantised magnitudes to the mapper.

pub mod audio;
pub mod color;
pub mod decode;
pub mod error;
pub mod mapper;
pub mod pipeline;
pub mod render;
pub mod spectrum;
pub mod text;
pub mod timeline;
