use vstd::prelude::*;

verus! {

/// What can go wrong when playing audio.
#[derive(Clone, Copy, Debug, PartialEq, Eq, Structural)]
pub enum PlaybackError {
    /// No default output device is available.
    NoDevice,
    /// The requested channels or rate cannot be negotiated with the device.
    UnsupportedFormat,
    /// An open stream failed while playing.
    DeviceLost,
    /// A source added to a mixer has another channel count or sample rate.
    FormatMismatch,
}

} // verus!
