//! The whole search: from a chord to the ranked shapes and to the texts
//! that are shown, with the difficulty weighed by the caller.
use crate::chord::ChordNote;
use crate::chord::ResolvedChord;
use crate::fingering::Tuning;
use crate::listing::deduped;
use crate::listing::labels;
use crate::listing::no_repeats;
use crate::listing::rank_chords;
use crate::listing::ranked_views;
use crate::listing::render_ranked;
use crate::listing::rising;
use crate::listing::sorted_by_score;
use crate::listing::texts;
use crate::listing::Ranked;
use crate::listing::RankedChord;
use crate::error::SearchError;
use crate::rank::candidate_shapes;
use crate::rank::candidates_of;
use crate::rank::chord_shapes;
use crate::rank::chord_classes;
use crate::rank::find_candidates;
use crate::rank::Candidate;
use crate::shape::measures_of;
use crate::shape::Complexity;
use crate::shape::Measures;
use crate::shape::Shape;
use vstd::prelude::*;

verus! {

/// Each shape of `ranked` is that of the candidate in its place, with a
/// score that `weigh` gave for the measures of the candidate.
pub open spec fn weighed_by<F: Fn(&Complexity) -> u32>(
    candidates: Seq<Candidate>,
    weigh: F,
    ranked: Seq<Ranked>,
) -> bool {
    &&& ranked.len() == candidates.len()
    &&& forall|i: int|
        0 <= i < candidates.len() ==> (#[trigger] ranked[i]).shape == candidates[i].chord@
            && call_ensures(weigh, (&candidates[i].complexity,), ranked[i].score)
}

/// `ranked` holds the playable shapes of the chord, each with a score that
/// `weigh` gave for its measures, by rising score; shapes of equal score
/// stand in the order of the search.
pub open spec fn ranks_of<F: Fn(&Complexity) -> u32>(
    ranked: Seq<Ranked>,
    weigh: F,
    tuning: Seq<u8>,
    name: Seq<char>,
    notes: Seq<ChordNote>,
    slash: bool,
    shift: u8,
    true_bass: bool,
) -> bool {
    exists|candidates: Seq<Candidate>, scored: Seq<Ranked>|
        candidates_of(candidates, tuning, name, notes, slash, shift, true_bass)
            && #[trigger] weighed_by(candidates, weigh, scored) && ranked == sorted_by_score(
            scored,
        )
}

/// `weigh` is a function of the measures: whatever has the same measures
/// gets the same score from it, every time.
pub open spec fn weighs_measures<F: Fn(&Complexity) -> u32>(weigh: F) -> bool {
    forall|a: Complexity, b: Complexity, x: u32, y: u32|
        a@ == b@ && #[trigger] call_ensures(weigh, (&a,), x) && #[trigger] call_ensures(
            weigh,
            (&b,),
            y,
        ) ==> x == y
}

/// `weigh` gives the score `score` to the measures `m`.
pub open spec fn gives<F: Fn(&Complexity) -> u32>(weigh: F, m: Measures, score: u32) -> bool {
    exists|c: Complexity| c@ == m && #[trigger] call_ensures(weigh, (&c,), score)
}

/// The score that `weigh` gives to the measures `m`.
pub open spec fn score_of<F: Fn(&Complexity) -> u32>(weigh: F, m: Measures) -> u32 {
    choose|score: u32| gives(weigh, m, score)
}

/// The shapes, each with the score that `weigh` gives to its measures.
pub open spec fn scored_shapes<F: Fn(&Complexity) -> u32>(shapes: Seq<Shape>, weigh: F) -> Seq<
    Ranked,
> {
    Seq::new(
        shapes.len(),
        |i: int| Ranked { score: score_of(weigh, measures_of(shapes[i].v)), shape: shapes[i] },
    )
}

/// The texts that a search for the chord shows where `weigh` is a function
/// of the measures: they depend on the notes of the tuning, on the chord,
/// on the shift, on the bass asked for and on `weigh`, and on nothing else.
pub open spec fn search_texts<F: Fn(&Complexity) -> u32>(
    weigh: F,
    tuning: Seq<u8>,
    name: Seq<char>,
    notes: Seq<ChordNote>,
    slash: bool,
    shift: u8,
    true_bass: bool,
) -> Seq<Seq<char>> {
    let ranked = chord_rank(weigh, tuning, name, notes, slash, shift, true_bass);
    deduped(labels(ranked), ranked.len() as int)
}

/// The ranked shapes of the chord where `weigh` is a function of the
/// measures.
pub open spec fn chord_rank<F: Fn(&Complexity) -> u32>(
    weigh: F,
    tuning: Seq<u8>,
    name: Seq<char>,
    notes: Seq<ChordNote>,
    slash: bool,
    shift: u8,
    true_bass: bool,
) -> Seq<Ranked> {
    sorted_by_score(
        scored_shapes(chord_shapes(tuning, name, notes, slash, shift, true_bass), weigh),
    )
}

/// Candidates of a chord that a function of the measures has weighed have
/// the scores of that function.
pub proof fn lemma_weighed_by_measures<F: Fn(&Complexity) -> u32>(
    candidates: Seq<Candidate>,
    weigh: F,
    scored: Seq<Ranked>,
    tuning: Seq<u8>,
    name: Seq<char>,
    notes: Seq<ChordNote>,
    slash: bool,
    shift: u8,
    true_bass: bool,
)
    requires
        weighs_measures(weigh),
        candidates_of(candidates, tuning, name, notes, slash, shift, true_bass),
        weighed_by(candidates, weigh, scored),
    ensures
        scored == scored_shapes(
            chord_shapes(tuning, name, notes, slash, shift, true_bass),
            weigh,
        ),
{
    let shapes = chord_shapes(tuning, name, notes, slash, shift, true_bass);
    let expected = scored_shapes(shapes, weigh);
    assert(candidate_shapes(candidates).len() == candidates.len());
    assert forall|i: int| 0 <= i < scored.len() implies scored[i] == expected[i] by {
        let c = candidates[i].complexity;
        let m = measures_of(shapes[i].v);
        assert(candidate_shapes(candidates)[i] == candidates[i].chord@);
        assert(scored[i].shape == shapes[i]);
        assert(c@ == m);
        assert(call_ensures(weigh, (&c,), scored[i].score));
        assert(gives(weigh, m, scored[i].score));
        let chosen = score_of(weigh, m);
        assert(gives(weigh, m, chosen));
        let other = choose|other: Complexity|
            other@ == m && #[trigger] call_ensures(weigh, (&other,), chosen);
        assert(chosen == scored[i].score);
    }
    assert(scored =~= expected);
}

/// Gives each candidate the score that `weigh` finds for its measures.
pub fn weigh_candidates<F: Fn(&Complexity) -> u32>(candidates: &Vec<Candidate>, weigh: &F) -> (ranked:
    Vec<RankedChord>)
    requires
        forall|i: int|
            0 <= i < candidates@.len() ==> call_requires(
                *weigh,
                (&(#[trigger] candidates@[i]).complexity,),
            ),
    ensures
        weighed_by(candidates@, *weigh, ranked_views(ranked@)),
{
    let mut ranked: Vec<RankedChord> = Vec::new();
    let mut i: usize = 0;
    while i < candidates.len()
        invariant
            i <= candidates.len(),
            ranked@.len() == i,
            forall|i: int|
                0 <= i < candidates@.len() ==> call_requires(
                    *weigh,
                    (&(#[trigger] candidates@[i]).complexity,),
                ),
            forall|j: int|
                0 <= j < i ==> (#[trigger] ranked@[j]).chord@ == candidates@[j].chord@
                    && call_ensures(*weigh, (&candidates@[j].complexity,), ranked@[j].score),
        decreases candidates.len() - i,
    {
        let score = weigh(&candidates[i].complexity);
        ranked.push(RankedChord { score, chord: candidates[i].chord.duplicate() });
        i = i + 1;
    }
    proof {
        let views = ranked_views(ranked@);
        assert forall|j: int| 0 <= j < candidates@.len() implies (#[trigger] views[j]).shape
            == candidates@[j].chord@ && call_ensures(
            *weigh,
            (&candidates@[j].complexity,),
            views[j].score,
        ) by {
            assert(views[j] == ranked@[j]@);
        }
    }
    ranked
}

/// Finds the playable shapes of a chord on a tuning and ranks them from
/// the easiest to the hardest.
///
/// `name` is the chord name and `resolved` what it stands for, `None` where
/// it was not understood; for the name of a power chord, what the name
/// without its `5` stands for. `shift` asks for the shapes anchored at that
/// fret, or with the shift for all positions for a search along the neck.
/// `weigh` gives the score of a shape from its measures: the lower, the
/// easier.
///
/// Fails with `UnknownChordName` exactly where `resolved` is `None`, and
/// with `EmptyChord` exactly where the chord leaves no pitch class to find.
/// Where `weigh` is a function of the measures, the result is a function
/// of the arguments: asked again, the same shapes come in the same order.
pub fn build_chord_rank<F: Fn(&Complexity) -> u32>(
    tuning: &Tuning,
    name: &str,
    resolved: &Option<ResolvedChord>,
    shift: u8,
    true_bass: bool,
    weigh: &F,
) -> (r: Result<Vec<RankedChord>, SearchError>)
    requires
        forall|c: Complexity| call_requires(*weigh, (&c,)),
    ensures
        resolved is None ==> (r matches Err(e) && e == SearchError::UnknownChordName),
        resolved matches Some(chord) ==> {
            if chord_classes(name@, chord.notes@).len() == 0 {
                (r matches Err(e) && e == SearchError::EmptyChord)
            } else {
                r matches Ok(ranked) && rising(ranked_views(ranked@)) && ranks_of(
                    ranked_views(ranked@),
                    *weigh,
                    tuning@,
                    name@,
                    chord.notes@,
                    chord.slash,
                    shift,
                    true_bass,
                ) && (weighs_measures(*weigh) ==> ranked_views(ranked@) == chord_rank(
                    *weigh,
                    tuning@,
                    name@,
                    chord.notes@,
                    chord.slash,
                    shift,
                    true_bass,
                ))
            }
        },
{
    let candidates = match find_candidates(tuning, name, resolved, shift, true_bass) {
        Ok(candidates) => candidates,
        Err(e) => {
            return Err(e);
        },
    };
    let scored = weigh_candidates(&candidates, weigh);
    let ranked = rank_chords(&scored);
    proof {
        assert(weighed_by(candidates@, *weigh, ranked_views(scored@)));
        if weighs_measures(*weigh) {
            lemma_weighed_by_measures(
                candidates@,
                *weigh,
                ranked_views(scored@),
                tuning@,
                name@,
                resolved.unwrap().notes@,
                resolved.unwrap().slash,
                shift,
                true_bass,
            );
        }
    }
    Ok(ranked)
}

/// Finds the texts of the playable shapes of a chord on a tuning, from the
/// easiest to the hardest; a text is followed by `?` where the fifth was
/// left out, and left out itself where it repeats the text before it.
///
/// The arguments and the failures are those of [`build_chord_rank`]. No two
/// neighbours of the result are equal. Where `weigh` is a function of the
/// measures, the result is a function of the arguments: asked again, for a
/// tuning of the same notes, the same texts come in the same order.
pub fn search_chord<F: Fn(&Complexity) -> u32>(
    tuning: &Tuning,
    name: &str,
    resolved: &Option<ResolvedChord>,
    shift: u8,
    true_bass: bool,
    weigh: &F,
) -> (r: Result<Vec<String>, SearchError>)
    requires
        forall|c: Complexity| call_requires(*weigh, (&c,)),
    ensures
        resolved is None ==> (r matches Err(e) && e == SearchError::UnknownChordName),
        resolved matches Some(chord) ==> {
            if chord_classes(name@, chord.notes@).len() == 0 {
                (r matches Err(e) && e == SearchError::EmptyChord)
            } else {
                r matches Ok(strings) && no_repeats(texts(strings@)) && exists|ranked: Seq<Ranked>|
                    #[trigger] ranks_of(
                        ranked,
                        *weigh,
                        tuning@,
                        name@,
                        chord.notes@,
                        chord.slash,
                        shift,
                        true_bass,
                    ) && texts(strings@) == deduped(labels(ranked), ranked.len() as int)
                    && (weighs_measures(*weigh) ==> texts(strings@) == search_texts(
                    *weigh,
                    tuning@,
                    name@,
                    chord.notes@,
                    chord.slash,
                    shift,
                    true_bass,
                ))
            }
        },
{
    match build_chord_rank(tuning, name, resolved, shift, true_bass, weigh) {
        Ok(ranked) => {
            let strings = render_ranked(&ranked);
            proof {
                let views = ranked_views(ranked@);
                assert(ranks_of(
                    views,
                    *weigh,
                    tuning@,
                    name@,
                    resolved.unwrap().notes@,
                    resolved.unwrap().slash,
                    shift,
                    true_bass,
                ) && texts(strings@) == deduped(labels(views), views.len() as int));
            }
            Ok(strings)
        },
        Err(e) => Err(e),
    }
}

} // verus!
