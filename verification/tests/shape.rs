use fretboard::fingering::FoundChord;
use fretboard::hash::calculate_hash;
use fretboard::shape::FormattedChord;
use std::collections::hash_map::DefaultHasher;
use std::hash::Hash;
use std::hash::Hasher;

fn shape(v: Vec<Option<u8>>) -> FormattedChord {
    FormattedChord { v, no_fifth: false }
}

#[test]
fn layout_puts_each_fret_on_its_string() {
    let c = FoundChord { hold: vec![(1, 0), (2, 2), (3, 2), (4, 1), (5, 0)], no_fifth: false };
    let f = c.format(6);
    assert_eq!(f.v, vec![None, Some(0), Some(2), Some(2), Some(1), Some(0)]);
    assert!(!f.no_fifth);
    assert_eq!(f.strings(), 6);
}

#[test]
fn layout_of_no_string_is_all_muted() {
    let c = FoundChord { hold: vec![], no_fifth: true };
    let f = c.format(3);
    assert_eq!(f.v, vec![None, None, None]);
    assert!(f.no_fifth);
    assert_eq!(FoundChord { hold: vec![], no_fifth: false }.format(0).v, vec![]);
}

#[test]
fn layout_takes_strings_in_any_order() {
    let c = FoundChord { hold: vec![(3, 7), (0, 5)], no_fifth: false };
    assert_eq!(c.format(4).v, vec![Some(5), None, None, Some(7)]);
}

#[test]
fn measures_of_open_a_minor() {
    let f = shape(vec![None, Some(0), Some(2), Some(2), Some(1), Some(0)]);
    let c = f.evaluate_complexity().unwrap();
    assert_eq!(c.mutes, 1);
    assert_eq!(c.leading_mutes, 1);
    assert_eq!(c.trailing_mutes, 0);
    assert_eq!(c.inner_mutes, 0);
    assert_eq!(c.lowest_fret, 1);
    assert_eq!(c.highest_fret, 2);
    assert_eq!(c.span, 0);
    assert_eq!(c.barre, 0);
    assert_eq!(c.fingers, 3);
    assert_eq!(c.last_open, 6);
    assert_eq!(c.stretches, vec![(0, 0), (1, 0)]);
    assert_eq!(c.tie_break, calculate_hash(&f.v));
}

#[test]
fn measures_of_a_barre() {
    let f = shape(vec![Some(1), Some(3), Some(3), Some(2), Some(1), Some(1)]);
    let c = f.evaluate_complexity().unwrap();
    assert_eq!(c.mutes, 0);
    assert_eq!(c.lowest_fret, 1);
    assert_eq!(c.highest_fret, 3);
    assert_eq!(c.span, 0);
    assert_eq!(c.barre, 1);
    assert_eq!(c.fingers, 3);
    assert_eq!(c.last_open, 0);
    assert_eq!(c.stretches, vec![(2, 0), (0, 0), (1, 0), (1, 0), (0, 0)]);
}

#[test]
fn barre_needs_four_pressed_strings() {
    let f = shape(vec![Some(0), Some(0), Some(3), Some(3)]);
    let c = f.evaluate_complexity().unwrap();
    assert_eq!(c.barre, 0);
    assert_eq!(c.fingers, 2);
    assert_eq!(c.last_open, 2);
}

#[test]
fn barre_needs_two_strings_at_the_lowest_fret() {
    let f = shape(vec![Some(1), Some(2), Some(3), Some(4)]);
    let c = f.evaluate_complexity().unwrap();
    assert_eq!(c.barre, 0);
    assert_eq!(c.fingers, 4);
    assert_eq!(c.span, 1);
}

#[test]
fn no_barre_with_an_open_string_behind_it() {
    // The lowest fret comes first, an open string after it.
    let f = shape(vec![Some(2), Some(0), Some(2), Some(2), Some(3)]);
    let c = f.evaluate_complexity().unwrap();
    assert_eq!(c.last_open, 2);
    assert_eq!(c.barre, 0);
    assert_eq!(c.fingers, 4);
}

#[test]
fn barre_above_open_strings() {
    let f = shape(vec![Some(0), Some(2), Some(2), Some(2), Some(4)]);
    let c = f.evaluate_complexity().unwrap();
    assert_eq!(c.last_open, 1);
    assert_eq!(c.barre, 2);
    assert_eq!(c.fingers, 1);
    assert_eq!(c.span, 0);
}

#[test]
fn span_beyond_the_free_frets() {
    let f = shape(vec![Some(1), None, Some(6)]);
    let c = f.evaluate_complexity().unwrap();
    assert_eq!(c.lowest_fret, 1);
    assert_eq!(c.highest_fret, 6);
    assert_eq!(c.span, 3);
    assert_eq!(c.inner_mutes, 1);
    assert_eq!(c.stretches, vec![(5, 1)]);
}

#[test]
fn stretch_counts_muted_strings_between_not_open_ones() {
    let f = shape(vec![Some(3), None, Some(0), None, Some(5), Some(4)]);
    let c = f.evaluate_complexity().unwrap();
    assert_eq!(c.stretches, vec![(2, 2), (1, 0)]);
    assert_eq!(c.mutes, 2);
    assert_eq!(c.inner_mutes, 2);
    assert_eq!(c.leading_mutes, 0);
    assert_eq!(c.trailing_mutes, 0);
}

#[test]
fn mutes_at_both_ends() {
    let f = shape(vec![None, None, Some(2), None, Some(3), None]);
    let c = f.evaluate_complexity().unwrap();
    assert_eq!(c.mutes, 4);
    assert_eq!(c.leading_mutes, 2);
    assert_eq!(c.trailing_mutes, 1);
    assert_eq!(c.inner_mutes, 1);
}

#[test]
fn too_many_fingers_cannot_be_played() {
    assert!(shape(vec![Some(1), Some(2), Some(3), Some(4), Some(5)]).evaluate_complexity().is_none());
    assert!(shape(vec![Some(1), Some(2), Some(3), Some(4)]).evaluate_complexity().is_some());
    // A barre leaves three fingers: four more strings are too many.
    assert!(shape(vec![Some(1), Some(1), Some(2), Some(3), Some(4), Some(5)])
        .evaluate_complexity()
        .is_none());
    assert!(shape(vec![Some(1), Some(1), Some(2), Some(3), Some(4)]).evaluate_complexity().is_some());
}

#[test]
fn beyond_the_twelfth_fret_cannot_be_played() {
    assert!(shape(vec![Some(12), Some(13), None]).evaluate_complexity().is_none());
    assert!(shape(vec![Some(11), Some(13), None]).evaluate_complexity().is_some());
    // An open string sounds below the twelfth fret.
    assert!(shape(vec![Some(0), Some(12)]).evaluate_complexity().is_some());
}

#[test]
fn a_shape_without_a_sounding_string_cannot_be_played() {
    assert!(shape(vec![None, None, None]).evaluate_complexity().is_none());
    assert!(shape(vec![]).evaluate_complexity().is_none());
}

#[test]
fn open_strings_need_no_finger() {
    let c = shape(vec![Some(0), Some(0)]).evaluate_complexity().unwrap();
    assert_eq!(c.fingers, 0);
    assert_eq!(c.lowest_fret, 0);
    assert_eq!(c.highest_fret, 0);
    assert_eq!(c.last_open, 2);
    assert!(c.stretches.is_empty());
}

#[test]
fn hash_is_that_of_the_standard_hasher() {
    let v = vec![None, Some(0), Some(2), Some(2), Some(1), Some(0)];
    let mut s = DefaultHasher::new();
    v.hash(&mut s);
    assert_eq!(calculate_hash(&v), s.finish());
}

#[test]
fn hash_depends_on_the_slots_only() {
    let a = vec![Some(1), None, Some(3)];
    let b = vec![Some(1), None, Some(3)];
    let c = vec![Some(1), None, Some(4)];
    assert_eq!(calculate_hash(&a), calculate_hash(&b));
    assert_ne!(calculate_hash(&a), calculate_hash(&c));
    assert_ne!(calculate_hash(&a), calculate_hash(&vec![]));
}

#[test]
fn equal_shapes_have_equal_measures() {
    let a = shape(vec![None, Some(3), Some(2), Some(0), Some(1), Some(0)]);
    let b = FormattedChord { v: a.v.clone(), no_fifth: true };
    let ca = a.evaluate_complexity().unwrap();
    let cb = b.evaluate_complexity().unwrap();
    assert_eq!(ca.tie_break, cb.tie_break);
    assert_eq!(ca.stretches, cb.stretches);
    assert_eq!(ca.fingers, cb.fingers);
    assert_eq!(ca.mutes, cb.mutes);
}
