use fretboard::fingering::contains_class;
use fretboard::fingering::extend_all;
use fretboard::fingering::is_only_optional;
use fretboard::fingering::remove_class;
use fretboard::fingering::FoundChord;
use fretboard::fingering::Tuning;
use fretboard::pitch::note_to_full_pitch;
use fretboard::pitch::octave_part;
use fretboard::pitch::pitch_class_at;
use fretboard::pitch::same_note;
use fretboard::pitch::NO_OMISSION;
use fretboard::position::check_matches_shift;
use fretboard::position::keep_anchored;
use fretboard::position::keep_bass;
use fretboard::error::SearchError;

fn guitar() -> Tuning {
    Tuning::new(vec![16, 21, 26, 31, 35, 40])
}

fn class_of(tuning: &Tuning, string: usize, fret: u8) -> u8 {
    ((tuning.notes[string] as u16 + fret as u16) % 12) as u8
}

fn holds(found: &[FoundChord], hold: &[(usize, u8)], no_fifth: bool) -> usize {
    found.iter().filter(|c| c.hold == hold && c.no_fifth == no_fifth).count()
}

#[test]
fn pitch_class_wraps_at_the_octave() {
    assert_eq!(pitch_class_at(16, 0), 4);
    assert_eq!(pitch_class_at(16, 8), 0);
    assert_eq!(pitch_class_at(255, 255), 6);
    assert!(same_note(16, 40));
    assert!(!same_note(16, 21));
    assert_eq!(octave_part(40), 36);
    assert_eq!(octave_part(11), 0);
}

#[test]
fn full_pitch_of_a_note_in_its_octave() {
    assert_eq!(note_to_full_pitch(4, 1), 16);
    assert_eq!(note_to_full_pitch(0, 0), 0);
    assert_eq!(note_to_full_pitch(11, 15), 191);
}

#[test]
fn class_helpers() {
    assert!(contains_class(&[9, 0, 4], 0));
    assert!(!contains_class(&[9, 0, 4], 7));
    assert!(!contains_class(&[], 7));
    assert_eq!(remove_class(&[9, 0, 4, 0], 0), vec![9, 4]);
    assert_eq!(remove_class(&[9, 0, 4], 7), vec![9, 0, 4]);
    assert!(is_only_optional(&[7], 7));
    assert!(is_only_optional(&[7, 7], 7));
    assert!(!is_only_optional(&[7, 4], 7));
    assert!(!is_only_optional(&[], 7));
}

#[test]
fn extend_all_puts_the_string_first() {
    let found = vec![
        FoundChord { hold: vec![(2, 3)], no_fifth: false },
        FoundChord { hold: vec![], no_fifth: true },
    ];
    let longer = extend_all(found, (1, 5));
    assert_eq!(longer.len(), 2);
    assert_eq!(longer[0].hold, vec![(1, 5), (2, 3)]);
    assert!(!longer[0].no_fifth);
    assert_eq!(longer[1].hold, vec![(1, 5)]);
    assert!(longer[1].no_fifth);
}

#[test]
fn one_string_one_class() {
    let tuning = Tuning::new(vec![16]);
    let found = tuning.find_chord_from_string(&[4], &[4], 0, 1, NO_OMISSION);
    // Fret 12 is out of the window at the first position: the open string only.
    assert_eq!(found.len(), 1);
    assert_eq!(found[0].hold, vec![(0, 0)]);
    assert!(!found[0].no_fifth);
}

#[test]
fn search_order_is_by_string_then_fret() {
    let tuning = Tuning::new(vec![0, 0]);
    // Class 2 at fret 2 of either string, and doubled on both.
    let found = tuning.find_chord_from_string(&[2], &[2], 0, 1, NO_OMISSION);
    let holds: Vec<Vec<(usize, u8)>> = found.iter().map(|c| c.hold.clone()).collect();
    assert_eq!(holds, vec![vec![(0, 2)], vec![(0, 2), (1, 2)], vec![(1, 2)]]);
}

#[test]
fn completion_comes_first_and_flags_the_omission() {
    let tuning = Tuning::new(vec![0]);
    let found = tuning.find_chord_from_string(&[7, 2], &[7], 0, 1, 7);
    // Only the omittable class is left: the empty completion, flagged; then
    // the string at fret 2, which doubles a class and still lacks the fifth.
    assert_eq!(found.len(), 2);
    assert!(found[0].hold.is_empty());
    assert!(found[0].no_fifth);
    assert_eq!(found[1].hold, vec![(0, 2)]);
    assert!(found[1].no_fifth);
}

#[test]
fn a_minor_at_the_first_position() {
    let tuning = guitar();
    let chord = [9u8, 0, 4];
    let found = tuning.find_chord_with_shift(&chord, 1, NO_OMISSION, false).unwrap();
    assert!(!found.is_empty());
    assert_eq!(holds(&found, &[(1, 0), (2, 2), (3, 2), (4, 1), (5, 0)], false), 1);
    assert_eq!(holds(&found, &[(0, 0), (1, 0), (2, 2), (3, 2), (4, 1), (5, 0)], false), 1);
    for c in &found {
        assert!(!c.no_fifth);
        // Strings rise strictly, so none is named twice.
        for pair in c.hold.windows(2) {
            assert!(pair[0].0 < pair[1].0);
        }
        for &(string, fret) in &c.hold {
            assert!(string < 6);
            assert!(fret == 0 || (1..6).contains(&fret));
            assert!(chord.contains(&class_of(&tuning, string, fret)));
        }
        for class in chord {
            assert!(c.hold.iter().any(|&(s, f)| class_of(&tuning, s, f) == class));
        }
    }
}

#[test]
fn no_fingering_is_found_twice_above_the_nut() {
    let tuning = guitar();
    let found = tuning.find_chord_with_shift(&[9, 0, 4], 1, NO_OMISSION, false).unwrap();
    for (i, a) in found.iter().enumerate() {
        for b in &found[i + 1..] {
            assert!(a.hold != b.hold || a.no_fifth != b.no_fifth);
        }
    }
}

#[test]
fn the_fifth_may_be_left_out() {
    let tuning = guitar();
    // A7: A C# E G, with E omittable.
    let chord = [9u8, 1, 4, 7];
    let found = tuning.find_chord_with_shift(&chord, 1, 4, false).unwrap();
    assert!(found.iter().any(|c| c.no_fifth));
    assert!(found.iter().any(|c| !c.no_fifth));
    for c in &found {
        let sounds = |class: u8| c.hold.iter().any(|&(s, f)| class_of(&tuning, s, f) == class);
        assert!(sounds(9) && sounds(1) && sounds(7));
        assert_eq!(c.no_fifth, !sounds(4));
    }
}

#[test]
fn true_bass_keeps_the_root_lowest() {
    let tuning = guitar();
    let chord = [9u8, 0, 4];
    let all = tuning.find_chord_with_shift(&chord, 1, NO_OMISSION, false).unwrap();
    let rooted = tuning.find_chord_with_shift(&chord, 1, NO_OMISSION, true).unwrap();
    assert!(rooted.len() < all.len());
    assert_eq!(holds(&rooted, &[(1, 0), (2, 2), (3, 2), (4, 1), (5, 0)], false), 1);
    // With the low E string open the bass is E, not A.
    assert_eq!(holds(&rooted, &[(0, 0), (1, 0), (2, 2), (3, 2), (4, 1), (5, 0)], false), 0);
    for c in &rooted {
        assert_eq!(c.find_bas_note(&tuning), 9);
    }
    let kept = keep_bass(&all, &tuning, 9);
    assert_eq!(kept.len(), rooted.len());
}

#[test]
fn bass_note_is_the_lowest_pitch() {
    let tuning = guitar();
    let c = FoundChord { hold: vec![(1, 3), (2, 2), (3, 0)], no_fifth: false };
    // 24, 28, 31: the lowest is C.
    assert_eq!(c.find_bas_note(&tuning), 0);
    let high = FoundChord { hold: vec![(0, 10), (5, 0)], no_fifth: false };
    // 26 and 40: the lowest is D.
    assert_eq!(high.find_bas_note(&tuning), 2);
}

#[test]
fn empty_chord_is_refused() {
    let tuning = guitar();
    assert!(matches!(
        tuning.find_chord_with_shift(&[], 1, NO_OMISSION, false),
        Err(SearchError::EmptyChord)
    ));
    assert!(matches!(tuning.find_chord(&[], NO_OMISSION, true), Err(SearchError::EmptyChord)));
}

#[test]
fn sweep_joins_the_positions_in_order() {
    let tuning = guitar();
    let chord = [9u8, 0, 4];
    let swept = tuning.find_chord(&chord, NO_OMISSION, true).unwrap();
    let mut joined = Vec::new();
    for shift in 1..=10u8 {
        joined.extend(tuning.find_chord_with_shift(&chord, shift, NO_OMISSION, true).unwrap());
    }
    assert_eq!(swept.len(), joined.len());
    for (a, b) in swept.iter().zip(&joined) {
        assert_eq!(a.hold, b.hold);
        assert_eq!(a.no_fifth, b.no_fifth);
    }
}

#[test]
fn widest_shift_that_fits_a_fret() {
    let tuning = Tuning::new(vec![0]);
    // Frets 251 to 255 sound the classes 11, 0, 1, 2, 3.
    let found = tuning.find_chord_with_shift(&[3], 251, NO_OMISSION, false).unwrap();
    assert_eq!(found.len(), 1);
    assert_eq!(found[0].hold, vec![(0, 255)]);
}

#[test]
fn frets_beyond_the_last_fret_number_are_not_tried() {
    let tuning = Tuning::new(vec![0]);
    // At 253 the window holds the frets 253, 254 and 255: classes 1, 2, 3.
    let found = tuning.find_chord_with_shift(&[3], 253, NO_OMISSION, false).unwrap();
    assert_eq!(found.len(), 1);
    assert_eq!(found[0].hold, vec![(0, 255)]);
    // Fret 256 would sound the class 4.
    assert!(tuning.find_chord_with_shift(&[4], 253, NO_OMISSION, false).unwrap().is_empty());
    let open = tuning.find_chord_with_shift(&[0], 254, NO_OMISSION, false).unwrap();
    assert_eq!(open.len(), 1);
    assert_eq!(open[0].hold, vec![(0, 0)]);
}

#[test]
fn at_the_nut_the_open_string_is_tried_twice() {
    let tuning = Tuning::new(vec![0]);
    let found = tuning.find_chord_with_shift(&[0], 0, NO_OMISSION, false).unwrap();
    assert_eq!(found.len(), 2);
    assert_eq!(found[0].hold, vec![(0, 0)]);
    assert_eq!(found[1].hold, vec![(0, 0)]);
}

#[test]
fn anchor_is_the_lowest_pressed_fret() {
    let c = FoundChord { hold: vec![(0, 0), (1, 3), (2, 2)], no_fifth: false };
    assert!(check_matches_shift(&c, 2));
    assert!(!check_matches_shift(&c, 3));
    assert!(!check_matches_shift(&c, 0));
    let open = FoundChord { hold: vec![(0, 0), (4, 0)], no_fifth: false };
    assert!(check_matches_shift(&open, 0));
    assert!(!check_matches_shift(&open, 1));
    let none = FoundChord { hold: vec![], no_fifth: true };
    assert!(check_matches_shift(&none, 0));
    let kept = keep_anchored(&vec![c, open, none], 0);
    assert_eq!(kept.len(), 2);
    assert_eq!(kept[0].hold, vec![(0, 0), (4, 0)]);
    assert!(kept[1].no_fifth);
}

#[test]
fn tuning_counts_its_strings() {
    assert_eq!(guitar().strings(), 6);
    assert_eq!(Tuning::new(vec![7]).strings(), 1);
}
