//! From a chord to the shapes that a hand can play, each with the measures
//! of its difficulty.
use crate::chord::names_bass;
use crate::chord::omittable;
use crate::chord::pitch_classes;
use crate::chord::power_name;
use crate::chord::is_5_chord;
use crate::chord::ChordNote;
use crate::chord::ResolvedChord;
use crate::fingering::fingerings;
use crate::fingering::Fingering;
use crate::fingering::FoundChord;
use crate::fingering::Tuning;
use crate::position::distinct_strings;
use crate::position::keep_anchored;
use crate::position::layout;
use crate::position::lemma_position;
use crate::position::on_strings;
use crate::position::position_fingerings;
use crate::position::sweep_fingerings;
use crate::position::with_anchor;
use crate::error::SearchError;
use crate::position::FIRST_POSITION;
use crate::position::LAST_POSITION;
use crate::shape::measures_of;
use crate::shape::playable;
use crate::shape::Complexity;
use crate::shape::FormattedChord;
use crate::shape::Shape;
use crate::validity::valid_fingering;
use vstd::prelude::*;

verus! {

/// The shift that asks for a search along the neck.
pub const ALL_POSITIONS: u8 = 255;

/// A shape that a hand can play, with the measures of its difficulty.
#[derive(Debug, PartialEq, Eq)]
pub struct Candidate {
    pub complexity: Complexity,
    pub chord: FormattedChord,
}

/// The shapes of a sequence of candidates.
pub open spec fn candidate_shapes(candidates: Seq<Candidate>) -> Seq<Shape> {
    Seq::new(candidates.len(), |i: int| candidates[i].chord@)
}

/// The position at which a search for the shift `shift` holds the hand:
/// the shift itself, and the first position for the shift 0.
pub open spec fn search_position(shift: u8) -> u8 {
    if shift == 0 {
        FIRST_POSITION
    } else {
        shift
    }
}

/// The fingerings that a query asks for: those of a search along the neck,
/// or those at one position that are anchored at the shift asked for.
pub open spec fn query_fingerings(
    tuning: Seq<u8>,
    chord: Seq<u8>,
    optional: u8,
    shift: u8,
    true_bass: bool,
) -> Seq<Fingering> {
    if shift == ALL_POSITIONS {
        sweep_fingerings(tuning, chord, optional, true_bass, LAST_POSITION as int)
    } else {
        position_fingerings(tuning, chord, search_position(shift), optional, true_bass).filter(
            with_anchor(shift),
        )
    }
}

/// The shape of a fingering on `strings` strings.
pub open spec fn shape_of(f: Fingering, strings: int) -> Shape {
    Shape { v: layout(f.hold, strings), no_fifth: f.no_fifth }
}

/// The shapes of the first `n` fingerings that a hand can play, in order.
pub open spec fn playable_shapes(found: Seq<Fingering>, strings: int, n: int) -> Seq<Shape>
    decreases n,
{
    if n <= 0 {
        Seq::empty()
    } else {
        let before = playable_shapes(found, strings, n - 1);
        let shape = shape_of(found[n - 1], strings);
        if playable(shape.v) {
            before.push(shape)
        } else {
            before
        }
    }
}

/// The pitch classes that a search for the chord `name` has to find.
pub open spec fn chord_classes(name: Seq<char>, notes: Seq<ChordNote>) -> Seq<u8> {
    pitch_classes(notes, power_name(name) is Some, notes.len() as int)
}

/// The playable shapes of the chord `name`, whose notes are `notes`, in the
/// order of the search. A name with a slash asks for its bass.
pub open spec fn chord_shapes(
    tuning: Seq<u8>,
    name: Seq<char>,
    notes: Seq<ChordNote>,
    slash: bool,
    shift: u8,
    true_bass: bool,
) -> Seq<Shape> {
    let found = query_fingerings(
        tuning,
        chord_classes(name, notes),
        omittable(notes, slash),
        shift,
        true_bass || name.contains('/'),
    );
    playable_shapes(found, tuning.len() as int, found.len() as int)
}

/// The candidates are the playable shapes of the query with their measures.
pub open spec fn candidates_of(
    candidates: Seq<Candidate>,
    tuning: Seq<u8>,
    name: Seq<char>,
    notes: Seq<ChordNote>,
    slash: bool,
    shift: u8,
    true_bass: bool,
) -> bool {
    &&& candidate_shapes(candidates) == chord_shapes(tuning, name, notes, slash, shift, true_bass)
    &&& forall|i: int|
        0 <= i < candidates.len() ==> (#[trigger] candidates[i]).complexity@ == measures_of(
            candidates[i].chord.v@,
        )
}

/// A fingering of a chord names strings of the tuning, each once.
pub proof fn lemma_valid_layable(
    tuning: Seq<u8>,
    chord: Seq<u8>,
    shift: u8,
    optional: u8,
    f: Fingering,
)
    requires
        valid_fingering(tuning, chord, shift, optional, f),
    ensures
        on_strings(f.hold, tuning.len() as int),
        distinct_strings(f.hold),
{
}

/// A shape is among the playable shapes exactly if it is playable and the
/// shape of one of the fingerings.
pub proof fn lemma_playable_shapes(found: Seq<Fingering>, strings: int, n: int, shape: Shape)
    requires
        0 <= n <= found.len(),
    ensures
        playable_shapes(found, strings, n).contains(shape) <==> playable(shape.v) && exists|i: int|
            0 <= i < n && shape_of(#[trigger] found[i], strings) == shape,
    decreases n,
{
    if n > 0 {
        lemma_playable_shapes(found, strings, n - 1, shape);
        let before = playable_shapes(found, strings, n - 1);
        let all = playable_shapes(found, strings, n);
        let last = shape_of(found[n - 1], strings);
        if all.contains(shape) {
            let j = choose|j: int| 0 <= j < all.len() && all[j] == shape;
            if j < before.len() {
                assert(before[j] == shape);
                assert(before.contains(shape));
                let i = choose|i: int| 0 <= i < n - 1 && shape_of(#[trigger] found[i], strings) == shape;
                assert(0 <= i < n && shape_of(found[i], strings) == shape);
            } else {
                assert(shape_of(found[n - 1], strings) == shape);
            }
        }
        if playable(shape.v) && exists|i: int|
            0 <= i < n && shape_of(#[trigger] found[i], strings) == shape {
            let i = choose|i: int| 0 <= i < n && shape_of(#[trigger] found[i], strings) == shape;
            if i < n - 1 {
                assert(before.contains(shape));
                let j = choose|j: int| 0 <= j < before.len() && before[j] == shape;
                assert(all[j] == shape);
            } else {
                assert(all[all.len() - 1] == shape);
            }
        }
    }
}

/// Lays out the fingerings and keeps the shapes that a hand can play.
pub fn playable_candidates(found: &Vec<FoundChord>, strings: usize) -> (candidates: Vec<Candidate>)
    requires
        forall|i: int|
            0 <= i < found@.len() ==> on_strings((#[trigger] found@[i])@.hold, strings as int)
                && distinct_strings(found@[i]@.hold),
    ensures
        candidate_shapes(candidates@) == playable_shapes(
            fingerings(found@),
            strings as int,
            found@.len() as int,
        ),
        forall|i: int|
            0 <= i < candidates@.len() ==> (#[trigger] candidates@[i]).complexity@ == measures_of(
                candidates@[i].chord.v@,
            ),
{
    let mut candidates: Vec<Candidate> = Vec::new();
    let mut i: usize = 0;
    proof {
        assert(candidate_shapes(candidates@) =~= playable_shapes(
            fingerings(found@),
            strings as int,
            0,
        ));
    }
    while i < found.len()
        invariant
            i <= found.len(),
            forall|i: int|
                0 <= i < found@.len() ==> on_strings((#[trigger] found@[i])@.hold, strings as int)
                    && distinct_strings(found@[i]@.hold),
            candidate_shapes(candidates@) == playable_shapes(
                fingerings(found@),
                strings as int,
                i as int,
            ),
            forall|i: int|
                0 <= i < candidates@.len() ==> (#[trigger] candidates@[i]).complexity@
                    == measures_of(candidates@[i].chord.v@),
        decreases found.len() - i,
    {
        let ghost before = candidate_shapes(candidates@);
        let chord = found[i].format(strings);
        proof {
            assert(chord@ == shape_of(fingerings(found@)[i as int], strings as int));
        }
        match chord.evaluate_complexity() {
            Some(complexity) => {
                candidates.push(Candidate { complexity, chord });
                proof {
                    assert(candidate_shapes(candidates@) =~= before.push(
                        shape_of(fingerings(found@)[i as int], strings as int),
                    ));
                }
            },
            None => {},
        }
        i = i + 1;
    }
    candidates
}

/// Finds the playable shapes of a chord on a tuning, each with the
/// measures of its difficulty, in the order of the search.
///
/// `name` is the chord name and `resolved` what it stands for, `None` where
/// it was not understood; for the name of a power chord, what the name
/// without its `5` stands for. `shift` asks for the shapes anchored at that
/// fret, or with [`ALL_POSITIONS`] for a search along the neck.
///
/// Fails with `UnknownChordName` exactly where `resolved` is `None`, and
/// with `EmptyChord` exactly where the chord leaves no pitch class to find.
pub fn find_candidates(
    tuning: &Tuning,
    name: &str,
    resolved: &Option<ResolvedChord>,
    shift: u8,
    true_bass: bool,
) -> (r: Result<Vec<Candidate>, SearchError>)
    ensures
        resolved is None ==> (r matches Err(e) && e == SearchError::UnknownChordName),
        resolved matches Some(chord) ==> {
            if chord_classes(name@, chord.notes@).len() == 0 {
                (r matches Err(e) && e == SearchError::EmptyChord)
            } else {
                r matches Ok(candidates) && candidates_of(
                    candidates@,
                    tuning@,
                    name@,
                    chord.notes@,
                    chord.slash,
                    shift,
                    true_bass,
                )
            }
        },
{
    let chord = match resolved {
        Some(chord) => chord,
        None => {
            return Err(SearchError::UnknownChordName);
        },
    };
    // A slash in the name asks for its bass, whatever the caller asked.
    let bass = names_bass(name) || true_bass;
    let power = is_5_chord(name).is_some();
    let fifth = chord.omittable_fifth();
    let classes = chord.classes(power);
    let strings = tuning.strings();
    if classes.len() == 0 {
        return Err(SearchError::EmptyChord);
    }
    let found = if shift == ALL_POSITIONS {
        match tuning.find_chord(classes.as_slice(), fifth, bass) {
            Ok(found) => {
                proof {
                    assert forall|i: int| 0 <= i < found@.len() implies on_strings(
                        (#[trigger] found@[i])@.hold,
                        strings as int,
                    ) && distinct_strings(found@[i]@.hold) by {
                        let f = fingerings(found@)[i];
                        assert(fingerings(found@).contains(f));
                        let at = choose|at: u8|
                            FIRST_POSITION <= at <= LAST_POSITION && #[trigger] position_fingerings(
                                tuning@,
                                classes@,
                                at,
                                fifth,
                                bass,
                            ).contains(f);
                        lemma_position(tuning@, classes@, at, fifth, bass);
                        lemma_valid_layable(tuning@, classes@, at, fifth, f);
                    }
                }
                found
            },
            Err(e) => {
                return Err(e);
            },
        }
    } else {
        // Searching from the nut is searching from the first fret.
        let position = if shift == 0 {
            FIRST_POSITION
        } else {
            shift
        };
        match tuning.find_chord_with_shift(classes.as_slice(), position, fifth, bass) {
            Ok(all) => {
                let found = keep_anchored(&all, shift);
                proof {
                    assert forall|i: int| 0 <= i < found@.len() implies on_strings(
                        (#[trigger] found@[i])@.hold,
                        strings as int,
                    ) && distinct_strings(found@[i]@.hold) by {
                        let f = fingerings(found@)[i];
                        assert(fingerings(found@).contains(f));
                        fingerings(all@).lemma_filter_contains_rev(with_anchor(shift), f);
                        lemma_valid_layable(tuning@, classes@, position, fifth, f);
                    }
                }
                found
            },
            Err(e) => {
                return Err(e);
            },
        }
    };
    Ok(playable_candidates(&found, strings))
}

} // verus!
