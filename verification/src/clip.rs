//! The records that the stages hand on.

use crate::error::AlsError;
use vstd::prelude::*;

verus! {

/// What the scan reads at one `AudioClip` element: the start time as written,
/// and the sample path.
#[derive(Clone, Debug, PartialEq, Eq)]
pub struct RawClip {
    /// The `Value` of the element's `CurrentStart`; empty where it has none.
    pub start: String,
    /// The `Value` of the element's sample path; empty where it has none.
    pub path: String,
}

/// A raw record as a mathematical value.
pub struct RawClipModel {
    pub start: Seq<char>,
    pub path: Seq<char>,
}

impl View for RawClip {
    type V = RawClipModel;

    open spec fn view(&self) -> RawClipModel {
        RawClipModel { start: self.start@, path: self.path@ }
    }
}

/// The raw records of a list as mathematical values.
pub open spec fn raw_clips_model(clips: Seq<RawClip>) -> Seq<RawClipModel> {
    clips.map_values(|c: RawClip| c@)
}

/// One placed audio region: where it starts and which sample it plays.
///
/// The start time, in seconds, is held as the bit pattern of an IEEE 754
/// binary64 number: bit 63 is the sign, the other bits are the magnitude.
#[derive(Clone, Debug, PartialEq, Eq)]
pub struct AudioClip {
    pub start: u64,
    pub path: String,
}

/// A clip as a mathematical value.
pub struct AudioClipModel {
    pub start: u64,
    pub path: Seq<char>,
}

impl View for AudioClip {
    type V = AudioClipModel;

    open spec fn view(&self) -> AudioClipModel {
        AudioClipModel { start: self.start, path: self.path@ }
    }
}

/// The clips of a list as mathematical values.
pub open spec fn clips_model(clips: Seq<AudioClip>) -> Seq<AudioClipModel> {
    clips.map_values(|c: AudioClip| c@)
}

/// The sign bit of a binary64 bit pattern.
pub const SIGN_BIT: u64 = 0x8000_0000_0000_0000;

/// The magnitude bits of an infinity; a larger magnitude is not a number.
pub const INFINITY_BITS: u64 = 0x7FF0_0000_0000_0000;

/// The bit pattern without its sign bit.
pub open spec fn magnitude(bits: u64) -> int {
    if bits >= SIGN_BIT {
        bits - SIGN_BIT
    } else {
        bits as int
    }
}

/// Whether a bit pattern is not a number.
pub open spec fn is_nan(bits: u64) -> bool {
    magnitude(bits) > INFINITY_BITS
}

/// The place of a start time in the order of the numbers: of two bit patterns
/// that are numbers, the one with the smaller rank is the smaller number, and
/// equal ranks are equal numbers. Both zeros have rank 0.
pub open spec fn start_rank(bits: u64) -> int {
    if bits >= SIGN_BIT {
        -magnitude(bits)
    } else {
        magnitude(bits)
    }
}

/// The clip that a raw record stands for, once its start time has been read as
/// a number: `start` holds the number's bit pattern, or `None` where the text
/// is not a number.
pub open spec fn clip_of(record: RawClipModel, start: Option<u64>) -> Result<
    AudioClipModel,
    AlsError,
> {
    match start {
        Some(bits) => Ok(AudioClipModel { start: bits, path: record.path }),
        None => Err(AlsError::InvalidStart),
    }
}

impl AudioClip {
    /// Makes the clip of a raw record whose start time was read as `start`.
    pub fn from_raw(record: RawClip, start: Option<u64>) -> (r: Result<AudioClip, AlsError>)
        ensures
            match clip_of(record@, start) {
                Ok(clip) => r matches Ok(c) && c@ == clip,
                Err(e) => r matches Err(x) && x == e,
            },
    {
        match start {
            Some(bits) => Ok(AudioClip { start: bits, path: record.path }),
            None => Err(AlsError::InvalidStart),
        }
    }

    /// Whether the start time is not a number.
    pub fn start_is_nan(&self) -> (r: bool)
        ensures
            r == is_nan(self.start),
    {
        if self.start >= SIGN_BIT {
            self.start - SIGN_BIT > INFINITY_BITS
        } else {
            self.start > INFINITY_BITS
        }
    }

    /// The rank of the start time.
    pub fn start_rank(&self) -> (r: i64)
        ensures
            r == start_rank(self.start),
    {
        if self.start >= SIGN_BIT {
            -((self.start - SIGN_BIT) as i64)
        } else {
            self.start as i64
        }
    }
}

} // verus!
