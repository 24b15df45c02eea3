use fretboard::chord::ChordNote;
use fretboard::chord::Interval;
use fretboard::chord::ResolvedChord;
use fretboard::fingering::FoundChord;
use fretboard::fingering::Tuning;
use fretboard::error::SearchError;
use fretboard::rank::find_candidates;
use fretboard::rank::playable_candidates;
use fretboard::rank::Candidate;
use fretboard::rank::ALL_POSITIONS;
use fretboard::listing::rank_chords;
use fretboard::listing::render_ranked;
use fretboard::search::build_chord_rank;
use fretboard::search::search_chord;
use fretboard::search::weigh_candidates;
use fretboard::listing::RankedChord;
use fretboard::shape::Complexity;
use fretboard::shape::FormattedChord;

fn guitar() -> Tuning {
    Tuning::new(vec![16, 21, 26, 31, 35, 40])
}

fn note(pitch: u8, interval: Interval) -> ChordNote {
    ChordNote { pitch, interval: Some(interval) }
}

fn a_minor() -> Option<ResolvedChord> {
    Some(ResolvedChord {
        notes: vec![
            note(9, Interval::Other),
            note(0, Interval::MinorThird),
            note(4, Interval::PerfectFifth),
        ],
        slash: false,
    })
}

fn ranked(score: u32, v: Vec<Option<u8>>, no_fifth: bool) -> RankedChord {
    RankedChord { score, chord: FormattedChord { v, no_fifth } }
}

/// The difficulty of a shape from its measures, as an application weighs it.
fn weigh(c: &Complexity) -> f32 {
    let upper = c.leading_mutes as f32;
    let under = c.trailing_mutes as f32;
    let quality = (upper * 0.3 + under * 2.).min(upper * 2. + under * 0.3)
        + c.inner_mutes as f32 * 3.0
        + (c.mutes as f32).powf(2.) * 0.1;
    let mut amp_fine = f32::from(c.span) * 0.23;
    if c.barre > 0 {
        amp_fine *= 1.5;
    }
    let mut adjacent = 0.0f32;
    for &(distance, skipped) in &c.stretches {
        adjacent += (distance as f32 + skipped as f32).powf(1.5) * 0.2;
    }
    let barre_fine = match c.barre {
        0 => 0.0,
        1 => 0.5,
        n => 0.3 + 0.03 * f32::from(n),
    };
    let open_fine = if c.barre > 0 && c.last_open > 0 { 0.2 + c.last_open as f32 * 0.02 } else { 0.0 };
    let distance_fine = f32::from(c.highest_fret).powf(1.5) * 0.09;
    let hold_fine = if c.barre == 0 {
        (c.fingers.saturating_sub(1) as f32).powf(1.5) * 0.2
    } else {
        (c.fingers as f32).powf(1.5) * 0.15
    };
    let tie = c.tie_break as f32 / u64::MAX as f32 * 1e-5;
    quality + barre_fine + open_fine + hold_fine + amp_fine + distance_fine + adjacent + tie
}

fn key(c: &Complexity) -> u32 {
    weigh(c).to_bits()
}

fn search(
    tuning: &Tuning,
    name: &str,
    resolved: &Option<ResolvedChord>,
    shift: u8,
    true_bass: bool,
) -> Result<Vec<String>, SearchError> {
    search_chord(tuning, name, resolved, shift, true_bass, &key)
}

#[test]
fn sorting_is_by_score_and_keeps_ties_in_order() {
    let chords = vec![
        ranked(5, vec![Some(1)], false),
        ranked(3, vec![Some(2)], false),
        ranked(5, vec![Some(3)], false),
        ranked(0, vec![Some(4)], true),
        ranked(3, vec![Some(5)], false),
        ranked(5, vec![Some(6)], false),
    ];
    let sorted = rank_chords(&chords);
    let order: Vec<(u32, Option<u8>)> = sorted.iter().map(|r| (r.score, r.chord.v[0])).collect();
    assert_eq!(
        order,
        vec![
            (0, Some(4)),
            (3, Some(2)),
            (3, Some(5)),
            (5, Some(1)),
            (5, Some(3)),
            (5, Some(6)),
        ]
    );
    assert!(sorted[0].chord.no_fifth);
    assert!(rank_chords(&vec![]).is_empty());
}

#[test]
fn sorting_handles_the_largest_score() {
    let chords = vec![ranked(u32::MAX, vec![None], false), ranked(0, vec![Some(0)], false)];
    let sorted = rank_chords(&chords);
    assert_eq!(sorted[0].score, 0);
    assert_eq!(sorted[1].score, u32::MAX);
}

#[test]
fn texts_that_repeat_their_neighbour_are_dropped() {
    let chords = vec![
        ranked(1, vec![None, Some(3)], false),
        ranked(2, vec![None, Some(3)], false),
        ranked(3, vec![None, Some(3)], true),
        ranked(4, vec![None, Some(3)], false),
        ranked(5, vec![None, Some(3)], false),
        ranked(6, vec![Some(10), None], false),
    ];
    // A repeat further on stays: only neighbours are compared.
    assert_eq!(render_ranked(&chords), vec!["x3", "x3?", "x3", "10, x"]);
    assert!(render_ranked(&vec![]).is_empty());
}

#[test]
fn an_unknown_chord_name_is_an_error() {
    let r = find_candidates(&guitar(), "Xyz", &None, ALL_POSITIONS, true);
    assert!(matches!(r, Err(SearchError::UnknownChordName)));
}

#[test]
fn a_chord_without_notes_is_an_error() {
    let none = Some(ResolvedChord { notes: vec![], slash: false });
    let r = find_candidates(&guitar(), "C", &none, ALL_POSITIONS, false);
    assert!(matches!(r, Err(SearchError::EmptyChord)));
    // A power chord of thirds only has nothing left to find.
    let thirds = Some(ResolvedChord { notes: vec![note(4, Interval::MajorThird)], slash: false });
    let r = find_candidates(&guitar(), "C5", &thirds, 1, false);
    assert!(matches!(r, Err(SearchError::EmptyChord)));
}

#[test]
fn candidates_are_playable_and_measured() {
    let candidates = find_candidates(&guitar(), "Am", &a_minor(), ALL_POSITIONS, true).unwrap();
    assert!(!candidates.is_empty());
    for Candidate { complexity, chord } in &candidates {
        assert_eq!(chord.v.len(), 6);
        let again = chord.evaluate_complexity().unwrap();
        assert_eq!(again.tie_break, complexity.tie_break);
        assert_eq!(again.stretches, complexity.stretches);
        assert_eq!(again.fingers, complexity.fingers);
        assert!(complexity.fingers <= 4);
    }
    assert!(candidates
        .iter()
        .any(|c| c.chord.v == vec![None, Some(0), Some(2), Some(2), Some(1), Some(0)]));
}

#[test]
fn open_a_minor_is_the_easiest() {
    let found = search(&guitar(), "Am", &a_minor(), ALL_POSITIONS, true).unwrap();
    assert!(found.contains(&"x02210".to_string()));
    let place = found.iter().position(|s| s == "x02210").unwrap();
    assert!(place < 3, "x02210 stands at {place}");
}

#[test]
fn search_twice_gives_the_same_list() {
    let first = search(&guitar(), "Am", &a_minor(), ALL_POSITIONS, true).unwrap();
    let second = search(&guitar(), "Am", &a_minor(), ALL_POSITIONS, true).unwrap();
    assert_eq!(first, second);
    for pair in first.windows(2) {
        assert_ne!(pair[0], pair[1]);
    }
}

#[test]
fn a_power_chord_is_searched_without_its_third() {
    let tuning = guitar();
    let candidates = find_candidates(&tuning, "A5", &a_minor(), ALL_POSITIONS, true).unwrap();
    assert!(!candidates.is_empty());
    for c in &candidates {
        for (string, slot) in c.chord.v.iter().enumerate() {
            if let Some(fret) = slot {
                let class = (tuning.notes[string] as u16 + *fret as u16) % 12;
                assert!(class == 9 || class == 4, "class {class} in a power chord");
            }
        }
    }
    assert!(candidates
        .iter()
        .any(|c| c.chord.v == vec![None, Some(0), Some(2), Some(2), None, Some(0)]));
}

#[test]
fn a_slash_in_the_name_asks_for_the_bass() {
    let tuning = guitar();
    // C over E: the resolver lists the bass first.
    let chord = Some(ResolvedChord {
        notes: vec![
            ChordNote { pitch: 4, interval: None },
            note(0, Interval::Other),
            note(4, Interval::MajorThird),
            note(7, Interval::PerfectFifth),
        ],
        slash: true,
    });
    let candidates = find_candidates(&tuning, "C/E", &chord, ALL_POSITIONS, false).unwrap();
    assert!(!candidates.is_empty());
    for c in &candidates {
        let lowest = c
            .chord
            .v
            .iter()
            .enumerate()
            .filter_map(|(s, slot)| slot.map(|f| tuning.notes[s] as u16 + f as u16))
            .min()
            .unwrap();
        assert_eq!(lowest % 12, 4);
        assert!(!c.chord.no_fifth);
    }
    // Without the slash the caller decides.
    let free = find_candidates(&tuning, "C", &chord, ALL_POSITIONS, false).unwrap();
    assert!(free.len() > candidates.len());
}

#[test]
fn a_chord_that_the_strings_cannot_cover_has_no_shape() {
    let tuning = Tuning::new(vec![16]);
    let found = search(&tuning, "Am", &a_minor(), ALL_POSITIONS, false).unwrap();
    assert!(found.is_empty());
}

#[test]
fn an_unreachable_shift_has_no_shape() {
    let tuning = Tuning::new(vec![16]);
    let e = Some(ResolvedChord { notes: vec![note(4, Interval::Other)], slash: false });
    // The open string sounds E at every position, anchored at none above the nut.
    assert!(search(&tuning, "E", &e, 3, true).unwrap().is_empty());
    assert_eq!(search(&tuning, "E", &e, ALL_POSITIONS, true).unwrap(), vec!["0"]);
    assert_eq!(search(&tuning, "E", &e, 0, true).unwrap(), vec!["0"]);
}

#[test]
fn a_fixed_shift_anchors_the_shapes() {
    let found = find_candidates(&guitar(), "Am", &a_minor(), 5, true).unwrap();
    assert!(!found.is_empty());
    for c in &found {
        let lowest = c.chord.v.iter().filter_map(|s| *s).filter(|f| *f > 0).min();
        assert_eq!(lowest, Some(5));
    }
    assert!(found
        .iter()
        .any(|c| c.chord.v == vec![Some(5), Some(7), Some(7), Some(5), Some(5), Some(5)]));
}

#[test]
fn the_widest_fixed_shift() {
    let tuning = Tuning::new(vec![0]);
    let chord = Some(ResolvedChord { notes: vec![note(3, Interval::Other)], slash: false });
    // Fret 255 sounds the class 3, far out of reach.
    assert!(find_candidates(&tuning, "Eb", &chord, 251, false).unwrap().is_empty());
}

#[test]
fn every_shift_is_answered() {
    let tuning = Tuning::new(vec![0, 7]);
    let chord = Some(ResolvedChord {
        notes: vec![note(0, Interval::Other), note(7, Interval::PerfectFifth)],
        slash: false,
    });
    // Fret 252 sounds the open pitch class of either string; with both
    // strings pressed there nothing sounds within reach.
    let far = find_candidates(&tuning, "C5", &chord, 252, false).unwrap();
    let shapes: Vec<String> = far.iter().map(|c| c.chord.to_string()).collect();
    assert_eq!(shapes, vec!["252, 0", "0, 252"]);
    for shift in [253u8, 254] {
        assert!(find_candidates(&tuning, "C5", &chord, shift, false).unwrap().is_empty());
    }
    // Anchored at the nut: both strings open.
    let open = find_candidates(&tuning, "C5", &chord, 0, false).unwrap();
    assert_eq!(open.len(), 1);
    assert_eq!(open[0].chord.v, vec![Some(0), Some(0)]);
}

#[test]
fn the_omitted_fifth_is_marked() {
    let seventh = Some(ResolvedChord {
        notes: vec![
            note(9, Interval::Other),
            note(1, Interval::MajorThird),
            note(4, Interval::PerfectFifth),
            note(7, Interval::Other),
        ],
        slash: false,
    });
    let found = search(&guitar(), "A7", &seventh, ALL_POSITIONS, true).unwrap();
    assert!(found.iter().any(|s| s.ends_with('?')));
    assert!(found.iter().any(|s| !s.ends_with('?')));
    assert!(found.contains(&"x02020".to_string()));
}

#[test]
fn playable_candidates_drop_what_no_hand_holds() {
    let found = vec![
        FoundChord { hold: vec![(0, 1), (1, 2), (2, 3), (3, 4), (4, 5)], no_fifth: false },
        FoundChord { hold: vec![(1, 3)], no_fifth: true },
        FoundChord { hold: vec![], no_fifth: false },
        FoundChord { hold: vec![(0, 12), (4, 15)], no_fifth: false },
    ];
    let kept = playable_candidates(&found, 5);
    assert_eq!(kept.len(), 1);
    assert_eq!(kept[0].chord.v, vec![None, Some(3), None, None, None]);
    assert!(kept[0].chord.no_fifth);
    assert_eq!(kept[0].complexity.leading_mutes, 1);
    assert_eq!(kept[0].complexity.trailing_mutes, 3);
}

#[test]
fn candidates_are_weighed_in_their_order() {
    let candidates = find_candidates(&guitar(), "Am", &a_minor(), 1, true).unwrap();
    let by_fingers = |c: &Complexity| c.fingers as u32;
    let ranked = weigh_candidates(&candidates, &by_fingers);
    assert_eq!(ranked.len(), candidates.len());
    for (r, c) in ranked.iter().zip(&candidates) {
        assert_eq!(r.chord, c.chord);
        assert_eq!(r.score, c.complexity.fingers as u32);
    }
}

#[test]
fn the_rank_rises_and_holds_every_candidate() {
    let candidates = find_candidates(&guitar(), "Am", &a_minor(), ALL_POSITIONS, true).unwrap();
    let ranked = build_chord_rank(&guitar(), "Am", &a_minor(), ALL_POSITIONS, true, &key).unwrap();
    assert_eq!(ranked.len(), candidates.len());
    for pair in ranked.windows(2) {
        assert!(pair[0].score <= pair[1].score);
    }
    for c in &candidates {
        let score = key(&c.complexity);
        assert!(ranked.iter().any(|r| r.score == score && r.chord == c.chord));
    }
    assert_eq!(ranked[0].chord.to_string(), "x02210");
}

#[test]
fn the_rank_keeps_the_order_of_the_search_among_equals() {
    let candidates = find_candidates(&guitar(), "Am", &a_minor(), ALL_POSITIONS, true).unwrap();
    let flat = |_: &Complexity| 7u32;
    let ranked = build_chord_rank(&guitar(), "Am", &a_minor(), ALL_POSITIONS, true, &flat).unwrap();
    let shapes: Vec<&FormattedChord> = ranked.iter().map(|r| &r.chord).collect();
    let searched: Vec<&FormattedChord> = candidates.iter().map(|c| &c.chord).collect();
    assert_eq!(shapes, searched);
}

#[test]
fn the_search_fails_as_the_rank_does() {
    assert!(matches!(
        search_chord(&guitar(), "Xyz", &None, ALL_POSITIONS, true, &key),
        Err(SearchError::UnknownChordName)
    ));
    assert!(matches!(
        build_chord_rank(&guitar(), "Xyz", &None, 3, false, &key),
        Err(SearchError::UnknownChordName)
    ));
    let none = Some(ResolvedChord { notes: vec![], slash: false });
    assert!(matches!(
        search_chord(&guitar(), "C", &none, ALL_POSITIONS, true, &key),
        Err(SearchError::EmptyChord)
    ));
}

#[test]
fn tunings_of_the_same_notes_give_the_same_list() {
    let first = Tuning::new(vec![16, 21, 26, 31, 35, 40]);
    let mut notes = Vec::with_capacity(32);
    notes.extend_from_slice(&[16, 21, 26, 31, 35, 40]);
    let second = Tuning::new(notes);
    for shift in [ALL_POSITIONS, 0, 2, 5] {
        for bass in [false, true] {
            let a = search_chord(&first, "Am", &a_minor(), shift, bass, &key);
            let b = search_chord(&second, "Am", &a_minor(), shift, bass, &key);
            assert_eq!(a, b);
        }
    }
    let a = search_chord(&first, "Xyz", &None, 1, true, &key);
    let b = search_chord(&second, "Xyz", &None, 1, true, &key);
    assert_eq!(a, b);
}
