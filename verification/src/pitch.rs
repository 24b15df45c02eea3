//! Pitches as small integers: `value % 12` is the pitch class, `value / 12`
//! the octave.
use vstd::prelude::*;

verus! {

/// Number of consecutive frets a hand position spans.
pub const FRET_RANGE: u8 = 5;

/// Marks the absence of a pitch class that may be left out of a chord.
pub const NO_OMISSION: u8 = 255;

/// Pitch class (0 to 11) sounded by a string tuned to `open` and pressed at `fret`.
pub open spec fn sounding_class(open: u8, fret: u8) -> u8 {
    ((open as int + fret as int) % 12) as u8
}

/// Absolute pitch of a string tuned to `open` and pressed at `fret`.
pub open spec fn sounding_pitch(open: u8, fret: u8) -> int {
    open as int + fret as int
}

/// Computes the pitch class of a string pressed at a fret, in arithmetic wide
/// enough for any open pitch and any fret.
pub fn pitch_class_at(open: u8, fret: u8) -> (class: u8)
    ensures
        class == sounding_class(open, fret),
        class < 12,
{
    let total: u16 = open as u16 + fret as u16;
    (total % 12) as u8
}

/// Tells whether two pitches name the same note, in whatever octaves.
pub fn same_note(n1: u8, n2: u8) -> (same: bool)
    ensures
        same == (n1 % 12 == n2 % 12),
{
    n1 % 12 == n2 % 12
}

/// The pitch of the C that starts the octave of `n`.
pub fn octave_part(n: u8) -> (base: u8)
    ensures
        base as int == (n as int / 12) * 12,
        base <= n,
        n - base < 12,
{
    (n / 12) * 12
}

/// Combines a pitch class and an octave into one pitch value.
pub fn note_to_full_pitch(pitch_class: u8, octave: u8) -> (pitch: u8)
    requires
        pitch_class < 12,
        octave <= 15,
    ensures
        pitch as int == pitch_class as int + 12 * octave as int,
        pitch % 12 == pitch_class,
        pitch / 12 == octave,
        pitch <= 191,
{
    pitch_class + octave * 12
}

} // verus!
