//! Streaming engine that estimates the rotational speed of a periodically
//! brightness-modulated object from the event stream of a neuromorphic camera.
//!
//! The engine keeps one decaying-activity timeline per downsampled spatial
//! cell, confirms polarity flips with a local sign-consensus scan, advances a
//! fixed-period sample clock, and at every tick selects the most active cells
//! and builds their time-domain indicator signals.  The floating-point parts
//! of the pipeline (the exponential activity recurrence and the Fourier
//! transform of the indicator signals) cannot be expressed here; the driver
//! crate performs them on the plain values that this library hands out.

use vstd::prelude::*;

pub mod consensus;
pub mod engine;
pub mod ranking;
pub mod schema;
pub mod timeline;

verus! {

/// Horizontal sensor resolution in pixels.
pub const WIDTH: u16 = 1280;

/// Vertical sensor resolution in pixels.
pub const HEIGHT: u16 = 720;

/// Both pixel coordinates are divided by this factor to obtain a cell index.
pub const SPATIAL_DOWNSAMPLING: u16 = 4;

/// Radius of the square neighborhood scanned by the sign-consensus detector.
pub const SIGN_CHECK_RADIUS: u16 = 1;

/// Time constant of the exponential activity decay, in microseconds.  The
/// floating-point recurrence itself runs in the driver crate; the constant is
/// part of the engine's published parameters.
pub const ACTIVITY_TAU: u64 = 20000;

/// Capacity of each cell's ring buffer of flip timestamps.
pub const TIMELINE_LENGTH: usize = 256;

/// Sentinel stored in ring-buffer slots that no flip has reached yet.
pub const UNSET_TIMESTAMP: u64 = u64::MAX;

/// Sampling period of the virtual tick clock, in microseconds: the rounded
/// reciprocal of the 10 Hz sampling frequency.
pub const SAMPLING_PERIOD: u64 = 100000;

/// Number of cells whose timelines contribute to each tick's spectrum.
pub const MOST_ACTIVE_TIMELINES_COUNT: usize = 40;

/// Width of the downsampled cell grid.
pub const DOWNSAMPLED_WIDTH: u16 = WIDTH / SPATIAL_DOWNSAMPLING;

/// Height of the downsampled cell grid.
pub const DOWNSAMPLED_HEIGHT: u16 = HEIGHT / SPATIAL_DOWNSAMPLING;

/// Number of samples of the indicator signal handed to the Fourier transform.
pub const FFT_SAMPLES: usize = 1000;

/// Sample period of the indicator signal, in microseconds: the reciprocal of
/// the 1000 Hz indicator rate.
pub const FFT_PERIOD: u64 = 1000;

/// One canonical sensor event: a microsecond timestamp, a pixel coordinate
/// and a brightness-change polarity (`true` when brightness increased).
#[derive(Clone, Copy, Debug, PartialEq, Eq, Structural)]
pub struct Event {
    pub t: u64,
    pub x: u16,
    pub y: u16,
    pub on: bool,
}

/// The locally agreed polarity of a cell's neighborhood, or `Unknown` when no
/// consensus has been (or can be) established.
#[derive(Clone, Copy, Debug, PartialEq, Eq, Structural)]
pub enum Sign {
    Unknown,
    Negative,
    Positive,
}

/// The last event seen at a cell: its timestamp with the polarity carried as
/// the sign.  A magnitude of zero is indistinguishable from `Unset`, exactly
/// as a signed timestamp of zero means "never touched".
#[derive(Clone, Copy, Debug, PartialEq, Eq, Structural)]
pub enum SignedTimestamp {
    Unset,
    Negative(u64),
    Positive(u64),
}

/// The polarity class a neighbor contributes to the consensus scan: `Unknown`
/// when the cell was never touched or its stored magnitude is zero.
pub open spec fn spec_stamp_sign(s: SignedTimestamp) -> Sign {
    match s {
        SignedTimestamp::Unset => Sign::Unknown,
        SignedTimestamp::Negative(t) => if t == 0 { Sign::Unknown } else { Sign::Negative },
        SignedTimestamp::Positive(t) => if t == 0 { Sign::Unknown } else { Sign::Positive },
    }
}

/// Executable form of [`spec_stamp_sign`].
pub fn stamp_sign(s: SignedTimestamp) -> (r: Sign)
    ensures
        r == spec_stamp_sign(s),
{
    match s {
        SignedTimestamp::Unset => Sign::Unknown,
        SignedTimestamp::Negative(t) => if t == 0 { Sign::Unknown } else { Sign::Negative },
        SignedTimestamp::Positive(t) => if t == 0 { Sign::Unknown } else { Sign::Positive },
    }
}

} // verus!
