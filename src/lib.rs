//! A pull-based audio sample graph: buffered and noise sources, a dynamic
//! mixer, a queueing sink with pause, stop and volume, and a spatial sink that
//! renders a mono source to stereo from the emitter's place between two ears.

pub mod sample;
pub mod source;
pub mod noise;
pub mod sink;
pub mod error;
pub mod mixer;
pub mod spatial;
pub mod device;
