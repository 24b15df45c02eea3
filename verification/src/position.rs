//! Searching at one position of the hand or along the neck, the bass note
//! of a fingering, and its layout string by string.
use crate::error::SearchError;
use crate::fingering::enumerate_from;
use crate::fingering::fingerings;
use crate::fingering::lemma_fingerings_concat;
use crate::fingering::Fingering;
use crate::fingering::FoundChord;
use crate::fingering::Tuning;
use crate::pitch::sounding_pitch;
use crate::shape::FormattedChord;
use crate::validity::lemma_concat_contains;
use crate::validity::lemma_search_complete;
use crate::validity::lemma_search_distinct;
use crate::validity::lemma_search_sound;
use crate::validity::valid_fingering;
use vstd::prelude::*;

verus! {

/// First position of the hand that a search along the neck tries.
pub const FIRST_POSITION: u8 = 1;

/// Last position of the hand that a search along the neck tries.
pub const LAST_POSITION: u8 = 10;

/// Lowest pitch that the first `n` strings of a fingering sound.
pub open spec fn lowest_pitch(tuning: Seq<u8>, hold: Seq<(usize, u8)>, n: int) -> int
    decreases n,
{
    let last = sounding_pitch(tuning[hold[n - 1].0 as int], hold[n - 1].1);
    if n <= 1 {
        sounding_pitch(tuning[hold[0].0 as int], hold[0].1)
    } else if last < lowest_pitch(tuning, hold, n - 1) {
        last
    } else {
        lowest_pitch(tuning, hold, n - 1)
    }
}

/// Pitch class of the lowest pitch that the fingering sounds.
pub open spec fn bass_class(tuning: Seq<u8>, hold: Seq<(usize, u8)>) -> u8 {
    (lowest_pitch(tuning, hold, hold.len() as int) % 12) as u8
}

/// The fingering sounds a string, and its lowest pitch has the class `root`.
pub open spec fn has_bass(tuning: Seq<u8>, root: u8, f: Fingering) -> bool {
    f.hold.len() > 0 && bass_class(tuning, f.hold) == root
}

/// The test for the bass `root` on the tuning.
pub open spec fn with_bass(tuning: Seq<u8>, root: u8) -> spec_fn(Fingering) -> bool {
    |f: Fingering| has_bass(tuning, root, f)
}

/// Every string of the fingering is one of `strings`.
pub open spec fn on_strings(hold: Seq<(usize, u8)>, strings: int) -> bool {
    forall|i: int| 0 <= i < hold.len() ==> (#[trigger] hold[i]).0 < strings
}

/// No two entries of the fingering name the same string.
pub open spec fn distinct_strings(hold: Seq<(usize, u8)>) -> bool {
    forall|i: int, j: int|
        0 <= i < j < hold.len() ==> (#[trigger] hold[i]).0 != (#[trigger] hold[j]).0
}

/// The lowest pitch of a fingering is sounded by one of its strings and no
/// string sounds lower.
pub proof fn lemma_lowest_pitch(tuning: Seq<u8>, hold: Seq<(usize, u8)>, n: int)
    requires
        1 <= n <= hold.len(),
    ensures
        forall|i: int|
            0 <= i < n ==> lowest_pitch(tuning, hold, n) <= sounding_pitch(
                tuning[(#[trigger] hold[i]).0 as int],
                hold[i].1,
            ),
        exists|i: int|
            0 <= i < n && lowest_pitch(tuning, hold, n) == sounding_pitch(
                tuning[(#[trigger] hold[i]).0 as int],
                hold[i].1,
            ),
        0 <= lowest_pitch(tuning, hold, n) <= 510,
    decreases n,
{
    if n > 1 {
        lemma_lowest_pitch(tuning, hold, n - 1);
        let i = choose|i: int|
            0 <= i < n - 1 && lowest_pitch(tuning, hold, n - 1) == sounding_pitch(
                tuning[(#[trigger] hold[i]).0 as int],
                hold[i].1,
            );
        let last = sounding_pitch(tuning[hold[n - 1].0 as int], hold[n - 1].1);
        if last < lowest_pitch(tuning, hold, n - 1) {
            assert(lowest_pitch(tuning, hold, n) == sounding_pitch(
                tuning[hold[n - 1].0 as int],
                hold[n - 1].1,
            ));
        } else {
            assert(lowest_pitch(tuning, hold, n) == sounding_pitch(
                tuning[hold[i].0 as int],
                hold[i].1,
            ));
        }
    } else {
        assert(lowest_pitch(tuning, hold, n) == sounding_pitch(
            tuning[hold[0].0 as int],
            hold[0].1,
        ));
    }
}

/// Lowest fret pressed among the first `n` strings of a fingering, 0 if
/// all of them are open.
pub open spec fn lowest_pressed(hold: Seq<(usize, u8)>, n: int) -> u8
    decreases n,
{
    if n <= 0 {
        0
    } else {
        let low = lowest_pressed(hold, n - 1);
        let fret = hold[n - 1].1;
        if fret > 0 && (low == 0 || fret < low) {
            fret
        } else {
            low
        }
    }
}

/// The fingering is anchored at `shift`: that is its lowest pressed fret.
pub open spec fn anchored_at(shift: u8, f: Fingering) -> bool {
    lowest_pressed(f.hold, f.hold.len() as int) == shift
}

/// The test for the anchor `shift`.
pub open spec fn with_anchor(shift: u8) -> spec_fn(Fingering) -> bool {
    |f: Fingering| anchored_at(shift, f)
}

/// The slot of `string` after the first `n` entries of a fingering were
/// laid out: the fret of the last of them that names the string.
pub open spec fn slot_of(hold: Seq<(usize, u8)>, n: int, string: int) -> Option<u8>
    decreases n,
{
    if n <= 0 {
        None
    } else if hold[n - 1].0 == string {
        Some(hold[n - 1].1)
    } else {
        slot_of(hold, n - 1, string)
    }
}

/// The fingering laid out on `strings` strings.
pub open spec fn layout(hold: Seq<(usize, u8)>, strings: int) -> Seq<Option<u8>> {
    Seq::new(strings as nat, |s: int| slot_of(hold, hold.len() as int, s))
}

/// In the layout of a fingering without a repeated string, each of its
/// strings holds its fret and every other string is muted.
pub proof fn lemma_layout(hold: Seq<(usize, u8)>, n: int)
    requires
        0 <= n <= hold.len(),
        distinct_strings(hold),
    ensures
        forall|i: int| 0 <= i < n ==> slot_of(hold, n, (#[trigger] hold[i]).0 as int) == Some(hold[i].1),
        forall|s: int|
            (forall|i: int| 0 <= i < n ==> (#[trigger] hold[i]).0 != s) ==> (#[trigger] slot_of(
                hold,
                n,
                s,
            )) is None,
    decreases n,
{
    if n > 0 {
        lemma_layout(hold, n - 1);
        assert forall|i: int| 0 <= i < n implies slot_of(hold, n, (#[trigger] hold[i]).0 as int)
            == Some(hold[i].1) by {
            if i < n - 1 {
                assert(hold[i].0 != hold[n - 1].0);
            }
        }
        assert forall|s: int| (forall|i: int| 0 <= i < n ==> (#[trigger] hold[i]).0 != s) implies (
        #[trigger] slot_of(hold, n, s)) is None by {
            assert(hold[n - 1].0 != s);
            assert(forall|i: int| 0 <= i < n - 1 ==> (#[trigger] hold[i]).0 != s);
            assert(slot_of(hold, n - 1, s) is None);
        }
    }
}

/// The fingerings of the chord with the hand at `shift`, in the order of
/// the search; with `true_bass`, those whose lowest pitch is the first
/// pitch class of the chord.
pub open spec fn position_fingerings(
    tuning: Seq<u8>,
    chord: Seq<u8>,
    shift: u8,
    optional: u8,
    true_bass: bool,
) -> Seq<Fingering> {
    let all = enumerate_from(tuning, chord, chord, 0, shift, optional);
    if true_bass {
        all.filter(with_bass(tuning, chord[0]))
    } else {
        all
    }
}

/// The fingerings of the chord at the positions from the first up to
/// `last`, position by position.
pub open spec fn sweep_fingerings(
    tuning: Seq<u8>,
    chord: Seq<u8>,
    optional: u8,
    true_bass: bool,
    last: int,
) -> Seq<Fingering>
    decreases last,
{
    if last < FIRST_POSITION {
        Seq::empty()
    } else {
        sweep_fingerings(tuning, chord, optional, true_bass, last - 1) + position_fingerings(
            tuning,
            chord,
            last as u8,
            optional,
            true_bass,
        )
    }
}

/// The fingerings at one position are those, and all those, that are
/// fingerings of the chord there and, with `true_bass`, have its bass.
pub proof fn lemma_position(
    tuning: Seq<u8>,
    chord: Seq<u8>,
    shift: u8,
    optional: u8,
    true_bass: bool,
)
    requires
        chord.len() > 0,
        tuning.len() <= usize::MAX,
    ensures
        forall|f: Fingering|
            #[trigger] position_fingerings(tuning, chord, shift, optional, true_bass).contains(f)
                <==> valid_fingering(tuning, chord, shift, optional, f) && (true_bass ==> has_bass(
                tuning,
                chord[0],
                f,
            )),
{
    let all = enumerate_from(tuning, chord, chord, 0, shift, optional);
    let pred = with_bass(tuning, chord[0]);
    let here = position_fingerings(tuning, chord, shift, optional, true_bass);
    lemma_search_sound(tuning, chord, chord, 0, shift, optional);
    assert forall|f: Fingering| #[trigger]
        here.contains(f) <==> valid_fingering(tuning, chord, shift, optional, f) && (true_bass
            ==> has_bass(tuning, chord[0], f)) by {
        if valid_fingering(tuning, chord, shift, optional, f) {
            lemma_search_complete(tuning, chord, chord, 0, shift, optional, f);
            let i = choose|i: int| 0 <= i < all.len() && all[i] == f;
            if true_bass && has_bass(tuning, chord[0], f) {
                assert(pred(all[i]));
                all.lemma_filter_contains(pred, i);
            }
        }
        if here.contains(f) {
            let j = choose|j: int| 0 <= j < here.len() && here[j] == f;
            if true_bass {
                all.lemma_filter_pred(pred, j);
                all.lemma_filter_contains_rev(pred, f);
            }
            let i = choose|i: int| 0 <= i < all.len() && all[i] == f;
            assert(valid_fingering(tuning, chord, shift, optional, all[i]));
        }
    }
}

/// What is kept of a sequence without a repeat has no repeat.
pub proof fn lemma_filter_distinct(all: Seq<Fingering>, pred: spec_fn(Fingering) -> bool)
    requires
        all.no_duplicates(),
    ensures
        all.filter(pred).no_duplicates(),
    decreases all.len(),
{
    reveal(Seq::filter);
    if all.len() > 0 {
        let front = all.drop_last();
        let kept = front.filter(pred);
        assert forall|i: int, j: int| 0 <= i < front.len() && 0 <= j < front.len() && i
            != j implies front[i] != front[j] by {
            assert(all[i] != all[j]);
        }
        lemma_filter_distinct(front, pred);
        if pred(all.last()) {
            assert forall|i: int, j: int| 0 <= i < kept.len() + 1 && 0 <= j < kept.len() + 1 && i
                != j implies kept.push(all.last())[i] != kept.push(all.last())[j] by {
                if i < kept.len() && j < kept.len() {
                    assert(kept[i] != kept[j]);
                } else {
                    let inner = if i < kept.len() {
                        i
                    } else {
                        j
                    };
                    if kept[inner] == all.last() {
                        assert(kept.contains(all.last()));
                        front.lemma_filter_contains_rev(pred, all.last());
                        let at = choose|at: int| 0 <= at < front.len() && front[at] == all.last();
                        assert(all[at] == all[all.len() - 1]);
                    }
                }
            }
        }
    }
}

/// Above the nut no fingering is found twice at one position of the hand.
pub proof fn lemma_position_distinct(
    tuning: Seq<u8>,
    chord: Seq<u8>,
    shift: u8,
    optional: u8,
    true_bass: bool,
)
    requires
        1 <= shift,
        tuning.len() <= usize::MAX,
    ensures
        position_fingerings(tuning, chord, shift, optional, true_bass).no_duplicates(),
{
    let all = enumerate_from(tuning, chord, chord, 0, shift, optional);
    lemma_search_distinct(tuning, chord, chord, 0, shift, optional);
    lemma_filter_distinct(all, with_bass(tuning, chord[0]));
}

/// A search along the neck gives the fingerings, and all the fingerings,
/// that are fingerings of the chord at one of its positions and, with
/// `true_bass`, have its bass.
pub proof fn lemma_sweep(
    tuning: Seq<u8>,
    chord: Seq<u8>,
    optional: u8,
    true_bass: bool,
    last: int,
)
    requires
        tuning.len() <= usize::MAX,
        last <= LAST_POSITION,
    ensures
        forall|f: Fingering|
            #[trigger] sweep_fingerings(tuning, chord, optional, true_bass, last).contains(f)
                <==> exists|shift: u8|
                FIRST_POSITION <= shift <= last && #[trigger] position_fingerings(
                    tuning,
                    chord,
                    shift,
                    optional,
                    true_bass,
                ).contains(f),
    decreases last,
{
    let whole = sweep_fingerings(tuning, chord, optional, true_bass, last);
    if last >= FIRST_POSITION {
        let before = sweep_fingerings(tuning, chord, optional, true_bass, last - 1);
        let here = position_fingerings(tuning, chord, last as u8, optional, true_bass);
        lemma_sweep(tuning, chord, optional, true_bass, last - 1);
        assert forall|f: Fingering| #[trigger]
            whole.contains(f) <==> exists|shift: u8|
                FIRST_POSITION <= shift <= last && #[trigger] position_fingerings(
                    tuning,
                    chord,
                    shift,
                    optional,
                    true_bass,
                ).contains(f) by {
            lemma_concat_contains(before, here, f);
            if before.contains(f) {
                let shift = choose|shift: u8|
                    FIRST_POSITION <= shift <= last - 1 && #[trigger] position_fingerings(
                        tuning,
                        chord,
                        shift,
                        optional,
                        true_bass,
                    ).contains(f);
                assert(FIRST_POSITION <= shift <= last);
            }
            if here.contains(f) {
                assert(FIRST_POSITION <= last as u8 <= last);
            }
            if exists|shift: u8|
                FIRST_POSITION <= shift <= last && #[trigger] position_fingerings(
                    tuning,
                    chord,
                    shift,
                    optional,
                    true_bass,
                ).contains(f) {
                let shift = choose|shift: u8|
                    FIRST_POSITION <= shift <= last && #[trigger] position_fingerings(
                        tuning,
                        chord,
                        shift,
                        optional,
                        true_bass,
                    ).contains(f);
                if shift < last {
                    assert(FIRST_POSITION <= shift <= last - 1);
                    assert(before.contains(f));
                } else {
                    assert(shift == last as u8);
                }
            }
        }
    } else {
        assert forall|f: Fingering| !(#[trigger] whole.contains(f)) by {}
    }
}

impl FoundChord {
    /// A copy of the fingering.
    pub fn duplicate(&self) -> (copy: FoundChord)
        ensures
            copy@ == self@,
    {
        let mut hold: Vec<(usize, u8)> = Vec::new();
        let mut i: usize = 0;
        while i < self.hold.len()
            invariant
                i <= self.hold.len(),
                hold@ == self.hold@.take(i as int),
            decreases self.hold.len() - i,
        {
            hold.push(self.hold[i]);
            proof {
                assert(self.hold@.take(i + 1) =~= self.hold@.take(i as int).push(
                    self.hold@[i as int],
                ));
            }
            i = i + 1;
        }
        proof {
            assert(self.hold@.take(i as int) =~= self.hold@);
        }
        FoundChord { hold, no_fifth: self.no_fifth }
    }

    /// Lays the fingering out on `strings` strings: the fret of each string
    /// that it names, and a mute for every other.
    pub fn format(&self, strings: usize) -> (shape: FormattedChord)
        requires
            on_strings(self@.hold, strings as int),
            distinct_strings(self@.hold),
        ensures
            shape.v@ == layout(self@.hold, strings as int),
            shape.no_fifth == self.no_fifth,
            shape.v@.len() == strings,
            forall|i: int|
                0 <= i < self@.hold.len() ==> shape.v@[(#[trigger] self@.hold[i]).0 as int]
                    == Some(self@.hold[i].1),
            forall|s: int|
                0 <= s < strings && (forall|i: int|
                    0 <= i < self@.hold.len() ==> (#[trigger] self@.hold[i]).0 != s)
                    ==> (#[trigger] shape.v@[s]) is None,
    {
        let mut v: Vec<Option<u8>> = Vec::new();
        let mut s: usize = 0;
        while s < strings
            invariant
                s <= strings,
                v@.len() == s,
                forall|j: int| 0 <= j < s ==> (#[trigger] v@[j]) is None,
            decreases strings - s,
        {
            v.push(None);
            s = s + 1;
        }
        let mut i: usize = 0;
        while i < self.hold.len()
            invariant
                i <= self.hold.len(),
                v@.len() == strings,
                on_strings(self@.hold, strings as int),
                forall|j: int| 0 <= j < strings ==> #[trigger] v@[j] == slot_of(self@.hold, i as int, j),
            decreases self.hold.len() - i,
        {
            let (string, fret) = self.hold[i];
            assert(self@.hold[i as int].0 < strings);
            v.set(string, Some(fret));
            i = i + 1;
        }
        proof {
            assert(v@ =~= layout(self@.hold, strings as int));
            lemma_layout(self@.hold, self@.hold.len() as int);
        }
        FormattedChord { v, no_fifth: self.no_fifth }
    }

    /// The pitch class of the lowest pitch that the fingering sounds.
    pub fn find_bas_note(&self, t: &Tuning) -> (class: u8)
        requires
            self@.hold.len() > 0,
            on_strings(self@.hold, t@.len() as int),
        ensures
            class == bass_class(t@, self@.hold),
            class < 12,
    {
        let (string, fret) = self.hold[0];
        assert(self@.hold[0].0 < t@.len());
        let mut lowest: u16 = t.notes[string] as u16 + fret as u16;
        let mut i: usize = 1;
        while i < self.hold.len()
            invariant
                1 <= i <= self.hold.len(),
                on_strings(self@.hold, t@.len() as int),
                lowest == lowest_pitch(t@, self@.hold, i as int),
            decreases self.hold.len() - i,
        {
            let (string, fret) = self.hold[i];
            assert(self@.hold[i as int].0 < t@.len());
            let pitch: u16 = t.notes[string] as u16 + fret as u16;
            if pitch < lowest {
                lowest = pitch;
            }
            i = i + 1;
        }
        (lowest % 12) as u8
    }
}

/// Tells whether the lowest pressed fret of the fingering is `shift`; a
/// fingering of open strings only has the lowest pressed fret 0.
pub fn check_matches_shift(chord: &FoundChord, shift: u8) -> (anchored: bool)
    ensures
        anchored == anchored_at(shift, chord@),
{
    let mut low: u8 = 0;
    let mut i: usize = 0;
    while i < chord.hold.len()
        invariant
            i <= chord.hold.len(),
            low == lowest_pressed(chord@.hold, i as int),
        decreases chord.hold.len() - i,
    {
        let fret = chord.hold[i].1;
        if fret > 0 && (low == 0 || fret < low) {
            low = fret;
        }
        i = i + 1;
    }
    shift == low
}

/// Keeps the fingerings whose lowest pitch has the class `root`.
pub fn keep_bass(found: &Vec<FoundChord>, t: &Tuning, root: u8) -> (kept: Vec<FoundChord>)
    requires
        forall|i: int| 0 <= i < found@.len() ==> on_strings((#[trigger] found@[i])@.hold, t@.len() as int),
    ensures
        fingerings(kept@) == fingerings(found@).filter(with_bass(t@, root)),
{
    let ghost pred = with_bass(t@, root);
    let mut kept: Vec<FoundChord> = Vec::new();
    let mut i: usize = 0;
    proof {
        reveal(Seq::filter);
        assert(fingerings(found@).take(0) =~= Seq::<Fingering>::empty());
    }
    while i < found.len()
        invariant
            i <= found.len(),
            pred == with_bass(t@, root),
            forall|i: int|
                0 <= i < found@.len() ==> on_strings((#[trigger] found@[i])@.hold, t@.len() as int),
            fingerings(kept@) == fingerings(found@).take(i as int).filter(pred),
        decreases found.len() - i,
    {
        let ghost before = fingerings(kept@);
        let ghost next = fingerings(found@).take(i + 1);
        proof {
            reveal(Seq::filter);
            assert(next.drop_last() =~= fingerings(found@).take(i as int));
            assert(next.last() == found@[i as int]@);
        }
        let candidate = &found[i];
        if candidate.hold.len() > 0 && candidate.find_bas_note(t) == root {
            kept.push(candidate.duplicate());
            proof {
                assert(fingerings(kept@) =~= before.push(found@[i as int]@));
            }
        }
        i = i + 1;
    }
    proof {
        assert(fingerings(found@).take(i as int) =~= fingerings(found@));
    }
    kept
}

/// Keeps the fingerings anchored at `shift`.
pub fn keep_anchored(found: &Vec<FoundChord>, shift: u8) -> (kept: Vec<FoundChord>)
    ensures
        fingerings(kept@) == fingerings(found@).filter(with_anchor(shift)),
{
    let ghost pred = with_anchor(shift);
    let mut kept: Vec<FoundChord> = Vec::new();
    let mut i: usize = 0;
    proof {
        reveal(Seq::filter);
        assert(fingerings(found@).take(0) =~= Seq::<Fingering>::empty());
    }
    while i < found.len()
        invariant
            i <= found.len(),
            pred == with_anchor(shift),
            fingerings(kept@) == fingerings(found@).take(i as int).filter(pred),
        decreases found.len() - i,
    {
        let ghost before = fingerings(kept@);
        let ghost next = fingerings(found@).take(i + 1);
        proof {
            reveal(Seq::filter);
            assert(next.drop_last() =~= fingerings(found@).take(i as int));
            assert(next.last() == found@[i as int]@);
        }
        if check_matches_shift(&found[i], shift) {
            kept.push(found[i].duplicate());
            proof {
                assert(fingerings(kept@) =~= before.push(found@[i as int]@));
            }
        }
        i = i + 1;
    }
    proof {
        assert(fingerings(found@).take(i as int) =~= fingerings(found@));
    }
    kept
}

impl Tuning {
    /// Finds the fingerings of the chord with the hand at `shift`.
    ///
    /// Fails on a chord without a pitch class, and on nothing else. The
    /// result holds the fingerings of the chord at that position in the
    /// order of the search, each of them once where the position lies above
    /// the nut; with `true_bass`, those only whose lowest pitch has the
    /// first pitch class of the chord.
    pub fn find_chord_with_shift(
        &self,
        chord: &[u8],
        shift: u8,
        optional_fifth: u8,
        true_bass: bool,
    ) -> (r: Result<Vec<FoundChord>, SearchError>)
        ensures
            r is Err <==> chord@.len() == 0,
            r is Err ==> r == Err::<Vec<FoundChord>, SearchError>(SearchError::EmptyChord),
            r matches Ok(found) ==> {
                &&& fingerings(found@) == position_fingerings(
                    self@,
                    chord@,
                    shift,
                    optional_fifth,
                    true_bass,
                )
                &&& forall|f: Fingering|
                    #[trigger] fingerings(found@).contains(f) <==> valid_fingering(
                        self@,
                        chord@,
                        shift,
                        optional_fifth,
                        f,
                    ) && (true_bass ==> has_bass(self@, chord@[0], f))
                &&& shift >= 1 ==> fingerings(found@).no_duplicates()
            },
    {
        if chord.len() == 0 {
            return Err(SearchError::EmptyChord);
        }
        let strings = self.strings();
        let found = self.find_chord_from_string(chord, chord, 0, shift, optional_fifth);
        proof {
            lemma_position(self@, chord@, shift, optional_fifth, true_bass);
            if shift >= 1 {
                lemma_position_distinct(self@, chord@, shift, optional_fifth, true_bass);
            }
        }
        if true_bass {
            proof {
                lemma_search_sound(self@, chord@, chord@, 0, shift, optional_fifth);
                assert forall|i: int| 0 <= i < found@.len() implies on_strings(
                    (#[trigger] found@[i])@.hold,
                    self@.len() as int,
                ) by {
                    assert(fingerings(found@)[i] == found@[i]@);
                    assert(valid_fingering(
                        self@,
                        chord@,
                        shift,
                        optional_fifth,
                        fingerings(found@)[i],
                    ));
                }
            }
            let kept = keep_bass(&found, self, chord[0]);
            proof {
                assert(fingerings(kept@) == position_fingerings(
                    self@,
                    chord@,
                    shift,
                    optional_fifth,
                    true_bass,
                ));
            }
            Ok(kept)
        } else {
            proof {
                assert(fingerings(found@) == position_fingerings(
                    self@,
                    chord@,
                    shift,
                    optional_fifth,
                    true_bass,
                ));
            }
            Ok(found)
        }
    }

    /// Finds the fingerings of the chord at every position of a search
    /// along the neck, position by position.
    ///
    /// Fails on a chord without a pitch class, and on nothing else. A
    /// fingering is in the result exactly if it is a fingering of the chord
    /// at one of the positions and, with `true_bass`, has its bass.
    pub fn find_chord(&self, chord: &[u8], optional_fifth: u8, true_bass: bool) -> (r: Result<
        Vec<FoundChord>,
        SearchError,
    >)
        ensures
            r is Err <==> chord@.len() == 0,
            r is Err ==> r == Err::<Vec<FoundChord>, SearchError>(SearchError::EmptyChord),
            r matches Ok(found) ==> {
                &&& fingerings(found@) == sweep_fingerings(
                    self@,
                    chord@,
                    optional_fifth,
                    true_bass,
                    LAST_POSITION as int,
                )
                &&& forall|f: Fingering|
                    #[trigger] fingerings(found@).contains(f) <==> exists|shift: u8|
                        FIRST_POSITION <= shift <= LAST_POSITION && #[trigger] position_fingerings(
                            self@,
                            chord@,
                            shift,
                            optional_fifth,
                            true_bass,
                        ).contains(f)
            },
    {
        if chord.len() == 0 {
            return Err(SearchError::EmptyChord);
        }
        let strings = self.strings();
        let mut collected: Vec<FoundChord> = Vec::new();
        let mut shift: u8 = FIRST_POSITION;
        proof {
            assert(fingerings(collected@) =~= sweep_fingerings(
                self@,
                chord@,
                optional_fifth,
                true_bass,
                shift - 1,
            ));
        }
        while shift <= LAST_POSITION
            invariant
                FIRST_POSITION <= shift <= LAST_POSITION + 1,
                chord@.len() > 0,
                fingerings(collected@) == sweep_fingerings(
                    self@,
                    chord@,
                    optional_fifth,
                    true_bass,
                    shift - 1,
                ),
            decreases LAST_POSITION + 1 - shift,
        {
            match self.find_chord_with_shift(chord, shift, optional_fifth, true_bass) {
                Ok(mut found) => {
                    proof {
                        lemma_fingerings_concat(collected@, found@);
                    }
                    collected.append(&mut found);
                },
                Err(_) => {
                    assert(false);
                },
            }
            shift = shift + 1;
        }
        proof {
            lemma_sweep(self@, chord@, optional_fifth, true_bass, LAST_POSITION as int);
        }
        Ok(collected)
    }
}

} // verus!
