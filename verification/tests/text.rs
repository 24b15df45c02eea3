use fretboard::chord::is_5_chord;
use fretboard::chord::is_third;
use fretboard::chord::names_bass;
use fretboard::chord::ChordNote;
use fretboard::chord::Interval;
use fretboard::chord::ResolvedChord;
use fretboard::fingering::Tuning;
use fretboard::pitch::NO_OMISSION;
use fretboard::error::SearchError;
use fretboard::shape::FormattedChord;
use fretboard::tuning::split_tuning;

fn shape(v: Vec<Option<u8>>, no_fifth: bool) -> FormattedChord {
    FormattedChord { v, no_fifth }
}

fn note(pitch: u8, interval: Interval) -> ChordNote {
    ChordNote { pitch, interval: Some(interval) }
}

#[test]
fn single_digits_render_without_separators() {
    let f = shape(vec![None, Some(0), Some(2), Some(2), Some(1), Some(0)], false);
    assert_eq!(f.to_string(), "x02210");
    assert_eq!(f.to_string().chars().count(), 6);
    assert_eq!(shape(vec![Some(9), None], false).to_string(), "9x");
    assert_eq!(shape(vec![], false).to_string(), "");
}

#[test]
fn a_fret_of_two_digits_makes_a_list() {
    let f = shape(vec![None, Some(10), Some(12), Some(9), None, Some(0)], false);
    let text = f.to_string();
    assert_eq!(text, "x, 10, 12, 9, x, 0");
    assert_eq!(text.split(", ").count(), 6);
    assert_eq!(shape(vec![Some(10)], false).to_string(), "10");
    assert_eq!(shape(vec![Some(255), Some(100), Some(99)], false).to_string(), "255, 100, 99");
    assert_eq!(shape(vec![Some(107), None], false).to_string(), "107, x");
}

#[test]
fn label_marks_the_omitted_fifth() {
    assert_eq!(shape(vec![None, Some(3), Some(2)], true).to_label(), "x32?");
    assert_eq!(shape(vec![None, Some(3), Some(2)], false).to_label(), "x32");
    assert_eq!(shape(vec![Some(10), None], true).to_label(), "10, x?");
}

#[test]
fn power_chord_names_lose_their_five() {
    assert_eq!(is_5_chord("C5"), Some("C".to_string()));
    assert_eq!(is_5_chord("C#5"), Some("C#".to_string()));
    assert_eq!(is_5_chord("A5/E"), Some("A/E".to_string()));
    assert_eq!(is_5_chord("Bb5!"), Some("Bb!".to_string()));
    assert_eq!(is_5_chord("55"), Some("5".to_string()));
    assert_eq!(is_5_chord("C55"), Some("C5".to_string()));
    assert_eq!(is_5_chord("♭5"), Some("♭".to_string()));
}

#[test]
fn other_names_are_no_power_chords() {
    assert_eq!(is_5_chord("Am"), None);
    assert_eq!(is_5_chord("A"), None);
    assert_eq!(is_5_chord(""), None);
    assert_eq!(is_5_chord("5"), None);
    assert_eq!(is_5_chord("Cmaj5"), None);
    assert_eq!(is_5_chord("C7b5"), None);
}

#[test]
fn a_slash_names_the_bass() {
    assert!(names_bass("C/E"));
    assert!(names_bass("/"));
    assert!(!names_bass("Cmaj7"));
    assert!(!names_bass(""));
}

#[test]
fn thirds_of_every_kind() {
    assert!(is_third(Interval::MajorThird));
    assert!(is_third(Interval::MinorThird));
    assert!(is_third(Interval::AugmentedThird));
    assert!(is_third(Interval::DiminishedThird));
    assert!(is_third(Interval::TwoPerfectOctavesAndMajorThird));
    assert!(is_third(Interval::ThreePerfectOctavesAndMajorThird));
    assert!(!is_third(Interval::PerfectFifth));
    assert!(!is_third(Interval::Other));
}

#[test]
fn only_a_chord_beyond_a_triad_may_lose_its_fifth() {
    let triad = ResolvedChord {
        notes: vec![
            note(0, Interval::Other),
            note(4, Interval::MajorThird),
            note(7, Interval::PerfectFifth),
        ],
        slash: false,
    };
    assert_eq!(triad.omittable_fifth(), NO_OMISSION);
    let seventh = ResolvedChord {
        notes: vec![
            note(0, Interval::Other),
            note(4, Interval::MajorThird),
            note(7, Interval::PerfectFifth),
            note(10, Interval::Other),
        ],
        slash: false,
    };
    assert_eq!(seventh.omittable_fifth(), 7);
    // With a bass of its own the same four notes are a triad over a bass.
    let over_bass = ResolvedChord {
        notes: vec![
            ChordNote { pitch: 4, interval: None },
            note(0, Interval::Other),
            note(4, Interval::MajorThird),
            note(7, Interval::PerfectFifth),
        ],
        slash: true,
    };
    assert_eq!(over_bass.omittable_fifth(), NO_OMISSION);
    let no_fifth = ResolvedChord {
        notes: vec![
            note(0, Interval::Other),
            note(4, Interval::MajorThird),
            note(6, Interval::Other),
            note(10, Interval::Other),
        ],
        slash: false,
    };
    assert_eq!(no_fifth.omittable_fifth(), NO_OMISSION);
    assert_eq!(ResolvedChord { notes: vec![], slash: true }.omittable_fifth(), NO_OMISSION);
}

#[test]
fn a_power_chord_has_no_third() {
    let chord = ResolvedChord {
        notes: vec![
            note(9, Interval::Other),
            note(0, Interval::MinorThird),
            note(4, Interval::PerfectFifth),
        ],
        slash: false,
    };
    assert_eq!(chord.classes(false), vec![9, 0, 4]);
    assert_eq!(chord.classes(true), vec![9, 4]);
    let no_interval = ResolvedChord {
        notes: vec![ChordNote { pitch: 3, interval: None }, note(7, Interval::MajorThird)],
        slash: true,
    };
    assert_eq!(no_interval.classes(true), vec![3]);
}

#[test]
fn a_tuning_text_splits_into_notes() {
    let notes = split_tuning("E1 A1 D2 G2 B2 E3").unwrap();
    let names: Vec<&str> = notes.iter().map(|n| n.name.as_str()).collect();
    let octaves: Vec<u8> = notes.iter().map(|n| n.octave).collect();
    assert_eq!(names, vec!["E", "A", "D", "G", "B", "E"]);
    assert_eq!(octaves, vec![1, 1, 2, 2, 2, 3]);
    let sharp = split_tuning("F#0 B♭9").unwrap();
    assert_eq!(sharp[0].name, "F#");
    assert_eq!(sharp[0].octave, 0);
    assert_eq!(sharp[1].name, "B♭");
    assert_eq!(sharp[1].octave, 9);
    // A digit alone is a token with an empty name.
    let bare = split_tuning("4").unwrap();
    assert_eq!(bare.len(), 1);
    assert_eq!(bare[0].name, "");
    assert_eq!(bare[0].octave, 4);
}

#[test]
fn a_text_with_a_token_that_is_no_note_is_no_tuning() {
    assert!(split_tuning("").is_none());
    assert!(split_tuning("E").is_none());
    assert!(split_tuning("E1  A1").is_none());
    assert!(split_tuning("E1 A1 ").is_none());
    assert!(split_tuning(" E1").is_none());
    assert!(split_tuning("E1 Ax").is_none());
    assert!(split_tuning("E1 A٣").is_none());
}

#[test]
fn a_tuning_from_text_and_pitch_classes() {
    let classes = [Some(4u8), Some(9), Some(2), Some(7), Some(11), Some(4)];
    let tuning = Tuning::from_str("E1 A1 D2 G2 B2 E3", &classes).unwrap();
    assert_eq!(tuning.notes, vec![16, 21, 26, 31, 35, 40]);
    let high = Tuning::from_str("B9", &[Some(11)]).unwrap();
    assert_eq!(high.notes, vec![119]);
}

#[test]
fn a_tuning_needs_every_note_read() {
    assert!(Tuning::from_str("E1 H1", &[Some(4), None]).is_none());
    assert!(Tuning::from_str("E1 A1", &[Some(4)]).is_none());
    assert!(Tuning::from_str("E1", &[Some(4), Some(9)]).is_none());
    assert!(Tuning::from_str("E1", &[Some(12)]).is_none());
    assert!(Tuning::from_str("E", &[Some(4)]).is_none());
    assert!(matches!(
        Tuning::try_from_str("E1 H1", &[Some(4), None]),
        Err(SearchError::InvalidTuningFormat)
    ));
    assert_eq!(Tuning::try_from_str("D2", &[Some(2)]).unwrap().notes, vec![26]);
}

#[test]
fn messages_for_the_user() {
    assert_eq!(
        SearchError::InvalidTuningFormat.message("Am"),
        "Bad tonality string; ensure format is `A1 B2 C3`"
    );
    assert_eq!(SearchError::UnknownChordName.message("Xyz"), "Xyz is not a correct chord");
    assert_eq!(SearchError::EmptyChord.message("C"), "C has no notes");
}

#[test]
fn a_fingering_renders_as_its_layout() {
    let c = fretboard::fingering::FoundChord { hold: vec![(1, 3), (2, 2), (4, 1)], no_fifth: true };
    assert_eq!(c.to_string(6), "x32x1x");
    assert_eq!(c.to_string(5), "x32x1");
}
