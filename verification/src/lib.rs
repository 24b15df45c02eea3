//! Chord fingerings for fretted instruments.
//!
//! Given a tuning and the notes of a chord, the library enumerates every way
//! to press a five-fret window of the neck that sounds the chord, measures
//! how awkward each shape is to hold, and renders the shapes that a hand
//! can play.
//!
//! [`search::search_chord`] is the whole search: it finds the playable
//! shapes of a chord with the measures of their difficulty, has the caller
//! weigh each shape from its measures, sorts the shapes by their score, the
//! lower the easier, and renders them without the texts that repeat their
//! neighbour. [`search::build_chord_rank`] stops at the sorted shapes. The
//! steps are there one by one as [`rank::find_candidates`],
//! [`search::weigh_candidates`], [`listing::rank_chords`] and
//! [`listing::render_ranked`].
//!
//! The library works on pitch classes and integers. Reading note and chord
//! names, and weighing difficulty in real numbers, is left to its caller.
pub mod chord;
pub mod error;
pub mod fingering;
pub mod hash;
pub mod laws;
pub mod listing;
pub mod pitch;
pub mod position;
pub mod rank;
pub mod render;
pub mod search;
pub mod shape;
pub mod tuning;
pub mod validity;
