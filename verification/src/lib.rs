//! Verified core of a speech-to-text request pipeline: audio-format
//! validation, engine command construction, and the caption-track parser
//! that turns engine output into timestamped transcript segments.

pub mod captions;
pub mod pipeline;
pub mod sizefmt;
pub mod text;
pub mod wav;
