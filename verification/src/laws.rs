//! What holds of a whole search: which shapes it shows, and that it shows
//! the same shapes however often it is asked.
use crate::chord::omittable;
use crate::chord::ChordNote;
use crate::fingering::Fingering;
use crate::position::anchored_at;
use crate::position::has_bass;
use crate::position::lemma_position;
use crate::position::lemma_sweep;
use crate::position::position_fingerings;
use crate::position::with_anchor;
use crate::position::FIRST_POSITION;
use crate::position::LAST_POSITION;
use crate::rank::candidate_shapes;
use crate::rank::candidates_of;
use crate::rank::chord_classes;
use crate::rank::chord_shapes;
use crate::rank::lemma_playable_shapes;
use crate::rank::query_fingerings;
use crate::rank::search_position;
use crate::rank::shape_of;
use crate::rank::Candidate;
use crate::rank::ALL_POSITIONS;
use crate::listing::deduped;
use crate::listing::labels;
use crate::listing::lemma_deduped;
use crate::listing::no_repeats;
use crate::listing::sorted_by_score;
use crate::listing::Ranked;
use crate::shape::measures_of;
use crate::shape::playable;
use crate::shape::Measures;
use crate::shape::Shape;
use crate::validity::valid_fingering;
use vstd::prelude::*;

verus! {

/// The fingering is one that a query asks for: a fingering of the chord at
/// a position of the search along the neck, or at the position of the
/// shift and anchored there; with `true_bass`, one with the bass of the
/// chord.
pub open spec fn asked_for(
    tuning: Seq<u8>,
    chord: Seq<u8>,
    optional: u8,
    shift: u8,
    true_bass: bool,
    f: Fingering,
) -> bool {
    &&& true_bass ==> has_bass(tuning, chord[0], f)
    &&& if shift == ALL_POSITIONS {
        exists|at: u8|
            FIRST_POSITION <= at <= LAST_POSITION && #[trigger] valid_fingering(
                tuning,
                chord,
                at,
                optional,
                f,
            )
    } else {
        valid_fingering(tuning, chord, search_position(shift), optional, f) && anchored_at(shift, f)
    }
}

/// A query finds the fingerings that it asks for, and no other.
pub proof fn lemma_query_fingerings(
    tuning: Seq<u8>,
    chord: Seq<u8>,
    optional: u8,
    shift: u8,
    true_bass: bool,
    f: Fingering,
)
    requires
        chord.len() > 0,
        tuning.len() <= usize::MAX,
    ensures
        query_fingerings(tuning, chord, optional, shift, true_bass).contains(f) <==> asked_for(
            tuning,
            chord,
            optional,
            shift,
            true_bass,
            f,
        ),
{
    let found = query_fingerings(tuning, chord, optional, shift, true_bass);
    if shift == ALL_POSITIONS {
        lemma_sweep(tuning, chord, optional, true_bass, LAST_POSITION as int);
        if found.contains(f) {
            let at = choose|at: u8|
                FIRST_POSITION <= at <= LAST_POSITION && #[trigger] position_fingerings(
                    tuning,
                    chord,
                    at,
                    optional,
                    true_bass,
                ).contains(f);
            lemma_position(tuning, chord, at, optional, true_bass);
            assert(valid_fingering(tuning, chord, at, optional, f));
        }
        if asked_for(tuning, chord, optional, shift, true_bass, f) {
            let at = choose|at: u8|
                FIRST_POSITION <= at <= LAST_POSITION && #[trigger] valid_fingering(
                    tuning,
                    chord,
                    at,
                    optional,
                    f,
                );
            lemma_position(tuning, chord, at, optional, true_bass);
            assert(position_fingerings(tuning, chord, at, optional, true_bass).contains(f));
        }
    } else {
        let position = search_position(shift);
        let all = position_fingerings(tuning, chord, position, optional, true_bass);
        lemma_position(tuning, chord, position, optional, true_bass);
        if found.contains(f) {
            let j = choose|j: int| 0 <= j < found.len() && found[j] == f;
            all.lemma_filter_pred(with_anchor(shift), j);
            all.lemma_filter_contains_rev(with_anchor(shift), f);
        }
        if asked_for(tuning, chord, optional, shift, true_bass, f) {
            assert(all.contains(f));
            let i = choose|i: int| 0 <= i < all.len() && all[i] == f;
            assert(with_anchor(shift)(all[i]));
            all.lemma_filter_contains(with_anchor(shift), i);
        }
    }
}

/// A search shows a shape exactly if a hand can play it and it is the
/// shape of a fingering that the query asks for.
pub proof fn lemma_chord_shapes(
    tuning: Seq<u8>,
    name: Seq<char>,
    notes: Seq<ChordNote>,
    slash: bool,
    shift: u8,
    true_bass: bool,
    shape: Shape,
)
    requires
        chord_classes(name, notes).len() > 0,
        tuning.len() <= usize::MAX,
    ensures
        chord_shapes(tuning, name, notes, slash, shift, true_bass).contains(shape) <==> playable(
            shape.v,
        ) && exists|f: Fingering|
            #[trigger] shape_of(f, tuning.len() as int) == shape && asked_for(
                tuning,
                chord_classes(name, notes),
                omittable(notes, slash),
                shift,
                true_bass || name.contains('/'),
                f,
            ),
{
    let chord = chord_classes(name, notes);
    let optional = omittable(notes, slash);
    let bass = true_bass || name.contains('/');
    let found = query_fingerings(tuning, chord, optional, shift, bass);
    let strings = tuning.len() as int;
    lemma_playable_shapes(found, strings, found.len() as int, shape);
    if chord_shapes(tuning, name, notes, slash, shift, true_bass).contains(shape) {
        let i = choose|i: int| 0 <= i < found.len() && shape_of(#[trigger] found[i], strings) == shape;
        assert(found.contains(found[i]));
        lemma_query_fingerings(tuning, chord, optional, shift, bass, found[i]);
        assert(shape_of(found[i], strings) == shape && asked_for(
            tuning,
            chord,
            optional,
            shift,
            bass,
            found[i],
        ));
    }
    if playable(shape.v) && exists|f: Fingering|
        #[trigger] shape_of(f, strings) == shape && asked_for(
            tuning,
            chord,
            optional,
            shift,
            bass,
            f,
        ) {
        let f = choose|f: Fingering|
            #[trigger] shape_of(f, strings) == shape && asked_for(
                tuning,
                chord,
                optional,
                shift,
                bass,
                f,
            );
        lemma_query_fingerings(tuning, chord, optional, shift, bass, f);
        let i = choose|i: int| 0 <= i < found.len() && found[i] == f;
        assert(shape_of(found[i], strings) == shape);
    }
}

/// The candidates are those of the shapes, each weighed by `weigh` from its
/// measures.
pub open spec fn weighed(
    candidates: Seq<Candidate>,
    weigh: spec_fn(Measures) -> u32,
    ranked: Seq<Ranked>,
) -> bool {
    &&& ranked.len() == candidates.len()
    &&& forall|i: int|
        0 <= i < candidates.len() ==> (#[trigger] ranked[i]).shape == candidates[i].chord@
            && ranked[i].score == weigh(candidates[i].complexity@)
}

/// The texts that a search shows for ranked shapes.
pub open spec fn shown(ranked: Seq<Ranked>) -> Seq<Seq<char>> {
    deduped(labels(sorted_by_score(ranked)), ranked.len() as int)
}

/// Asked twice for the same chord on the same tuning, a search whose
/// scores depend on the measures of a shape alone shows the same texts in
/// the same order, and no text twice in a row.
pub proof fn lemma_search_repeatable(
    tuning: Seq<u8>,
    name: Seq<char>,
    notes: Seq<ChordNote>,
    slash: bool,
    shift: u8,
    true_bass: bool,
    weigh: spec_fn(Measures) -> u32,
    first: Seq<Candidate>,
    second: Seq<Candidate>,
    first_ranked: Seq<Ranked>,
    second_ranked: Seq<Ranked>,
)
    requires
        candidates_of(first, tuning, name, notes, slash, shift, true_bass),
        candidates_of(second, tuning, name, notes, slash, shift, true_bass),
        weighed(first, weigh, first_ranked),
        weighed(second, weigh, second_ranked),
    ensures
        first_ranked == second_ranked,
        shown(first_ranked) == shown(second_ranked),
        no_repeats(shown(first_ranked)),
{
    assert(first.len() == candidate_shapes(first).len());
    assert(second.len() == candidate_shapes(second).len());
    assert forall|i: int| 0 <= i < first.len() implies first_ranked[i] == second_ranked[i] by {
        assert(candidate_shapes(first)[i] == first[i].chord@);
        assert(candidate_shapes(second)[i] == second[i].chord@);
        assert(first[i].complexity@ == second[i].complexity@);
    }
    assert(first_ranked =~= second_ranked);
    crate::listing::lemma_sorted_by_score(first_ranked, 0);
    lemma_deduped(labels(sorted_by_score(first_ranked)), first_ranked.len() as int);
}

/// Shapes with the same slots have the same measures, whatever else
/// differs between them.
pub proof fn lemma_measures_of_slots(a: Shape, b: Shape)
    requires
        a.v == b.v,
    ensures
        measures_of(a.v) == measures_of(b.v),
        playable(a.v) == playable(b.v),
{
}

} // verus!
