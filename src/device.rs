use vstd::prelude::*;

use crate::error::PlaybackError;

verus! {

/// The one rate the device side is opened at.
pub const DEVICE_RATE: u32 = 44100;

/// Whether a stream of this format can be opened: 16-bit samples at
/// 44,100 Hz, mono or stereo.
pub open spec fn format_supported(channels: u16, sample_rate: u32) -> bool {
    (channels == 1 || channels == 2) && sample_rate == 44100
}

/// Checks a requested stream format before the device is opened.
pub fn negotiate_format(channels: u16, sample_rate: u32) -> (r: Result<(), PlaybackError>)
    ensures
        format_supported(channels, sample_rate) <==> r is Ok,
        !format_supported(channels, sample_rate) ==> r == Err::<(), PlaybackError>(
            PlaybackError::UnsupportedFormat,
        ),
{
    if (channels == 1 || channels == 2) && sample_rate == DEVICE_RATE {
        Ok(())
    } else {
        Err(PlaybackError::UnsupportedFormat)
    }
}

} // verus!
