//! How often a sequence plays, and how large it is shown.
use vstd::prelude::*;

use crate::boxes::ClapBox;

verus! {

/// All-ones, which is reserved to mean a duration that is not known in advance.
/// Combined with an edit list that repeats, it is the way a sequence says that
/// it plays forever: the repeat flag alone gets counted against a finite
/// duration and comes out as exactly one play.
pub const INDEFINITE_DURATION: u64 = 0xffff_ffff_ffff_ffff;

/// How long the sequence is presented for, which is how often it plays.
#[derive(Clone, Copy, Debug, PartialEq, Eq)]
pub enum Presentation {
    /// One play. No edit list; the track lasts exactly as long as its media.
    Once,
    /// Several plays, stated as a track duration that many times the media's.
    Repeats(u64),
    /// Forever, stated by leaving the duration indefinite.
    Forever,
}

/// How `loop_count` plays of `media_duration` are presented. No plays means
/// forever, and so does a count so large that the duration cannot be stated.
pub open spec fn presentation(loop_count: u32, media_duration: u64) -> Presentation {
    if loop_count == 0 || loop_count * media_duration > u64::MAX && loop_count != 1 {
        Presentation::Forever
    } else if loop_count == 1 {
        Presentation::Once
    } else {
        Presentation::Repeats((loop_count * media_duration) as u64)
    }
}

/// The duration that is stated for the movie and the track.
pub open spec fn presented_duration(presented: Presentation, media_duration: u64) -> u64 {
    match presented {
        Presentation::Once => media_duration,
        Presentation::Repeats(total) => total,
        Presentation::Forever => INDEFINITE_DURATION,
    }
}

impl Presentation {
    /// How `loop_count` plays of the media are presented. Zero means forever.
    pub fn of(loop_count: u32, media_duration: u64) -> (presented: Self)
        ensures
            presented == presentation(loop_count, media_duration),
    {
        if loop_count == 0 {
            Presentation::Forever
        } else if loop_count == 1 {
            Presentation::Once
        } else {
            assert(loop_count * media_duration == media_duration * loop_count) by (nonlinear_arith);
            match media_duration.checked_mul(loop_count as u64) {
                // A count so large the duration overflows is indistinguishable
                // from forever at any rate a reader would play it.
                Some(total) => Presentation::Repeats(total),
                None => Presentation::Forever,
            }
        }
    }

    /// Whether an edit list is written at all.
    pub fn repeats(self) -> (b: bool)
        ensures
            b == (self != Presentation::Once),
    {
        match self {
            Presentation::Once => false,
            _ => true,
        }
    }

    /// The duration to state for the movie and the track.
    pub fn duration(self, media_duration: u64) -> (duration: u64)
        ensures
            duration == presented_duration(self, media_duration),
    {
        match self {
            Presentation::Once => media_duration,
            Presentation::Repeats(total) => total,
            Presentation::Forever => INDEFINITE_DURATION,
        }
    }
}

// ─── Size ────────────────────────────────────────────────────────────

/// The pixels of a side that lie wholly inside the aperture, at least one and
/// no more than there are. An aperture without a denominator crops nothing.
pub open spec fn cropped(n: u32, d: u32, coded: u32) -> u32 {
    if d == 0 {
        coded
    } else if n / d < 1 {
        1
    } else if n / d > coded {
        coded
    } else {
        n / d
    }
}

/// The width to show.
pub open spec fn shown_width(width: u32, clap: Option<ClapBox>) -> u32 {
    match clap {
        Some(clap) => cropped(clap.width_n, clap.width_d, width),
        None => width,
    }
}

/// The height to show.
pub open spec fn shown_height(height: u32, clap: Option<ClapBox>) -> u32 {
    match clap {
        Some(clap) => cropped(clap.height_n, clap.height_d, height),
        None => height,
    }
}

/// Whether there is a pixel for the aperture to keep on each side that it crops.
pub open spec fn can_crop(width: u32, height: u32, clap: Option<ClapBox>) -> bool {
    clap is Some ==> {
        &&& clap->0.width_d != 0 ==> width >= 1
        &&& clap->0.height_d != 0 ==> height >= 1
    }
}

fn resolve(n: u32, d: u32, coded: u32) -> (side: u32)
    requires
        d != 0 ==> coded >= 1,
    ensures
        side == cropped(n, d, coded),
{
    if d == 0 {
        return coded;
    }
    let side: u32 = n / d;
    if side < 1 {
        1
    } else if side > coded {
        coded
    } else {
        side
    }
}

/// The size to show, given the coded size and any clean aperture.
///
/// The aperture's width and height are rationals, and a crop that is not a
/// whole number of pixels is not something a track header can state, so it
/// rounds down to the pixels wholly inside.
pub fn display_size(width: u32, height: u32, clap: Option<&ClapBox>) -> (size: (u32, u32))
    requires
        can_crop(width, height, crate::meta::value_of(clap)),
    ensures
        size.0 == shown_width(width, crate::meta::value_of(clap)),
        size.1 == shown_height(height, crate::meta::value_of(clap)),
{
    match clap {
        None => (width, height),
        Some(clap) => (
            resolve(clap.width_n, clap.width_d, width),
            resolve(clap.height_n, clap.height_d, height),
        ),
    }
}

/// `value` in 16.16 fixed point, or the largest such number.
pub open spec fn fixed_16_16(value: u32) -> u32 {
    if value < 0x1_0000 {
        (value * 0x1_0000) as u32
    } else {
        u32::MAX
    }
}

/// Convert a dimension to 16.16 fixed point, saturating.
///
/// The track header's fields cannot state more than 65535 pixels, so a larger
/// dimension is clamped rather than written modulo 65536.
pub fn fixed_16_16_saturating(value: u32) -> (fixed: u32)
    ensures
        fixed == fixed_16_16(value),
{
    let widened: u64 = value as u64 * 0x1_0000;
    if widened > u32::MAX as u64 {
        u32::MAX
    } else {
        widened as u32
    }
}

} // verus!
