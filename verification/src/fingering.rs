//! Tunings, fingerings, and the exhaustive search for the fingerings that
//! sound a chord at one position of the hand.
use crate::pitch::pitch_class_at;
use crate::pitch::sounding_class;
use crate::pitch::FRET_RANGE;
use crate::validity::finds;
use crate::validity::lemma_search_complete;
use crate::validity::lemma_search_sound;
use vstd::prelude::*;

verus! {

/// The open pitch of each string, from the string listed first to the last.
#[derive(Debug, PartialEq, Eq)]
pub struct Tuning {
    pub notes: Vec<u8>,
}

impl View for Tuning {
    type V = Seq<u8>;

    open spec fn view(&self) -> Seq<u8> {
        self.notes@
    }
}

/// A fingering as the search finds it: the strings that sound, each with its
/// fret, by rising string index; every other string is muted.
#[derive(Debug, PartialEq, Eq)]
pub struct FoundChord {
    pub hold: Vec<(usize, u8)>,
    pub no_fifth: bool,
}

/// The mathematical value of a [`FoundChord`].
pub struct Fingering {
    pub hold: Seq<(usize, u8)>,
    pub no_fifth: bool,
}

impl View for FoundChord {
    type V = Fingering;

    open spec fn view(&self) -> Fingering {
        Fingering { hold: self.hold@, no_fifth: self.no_fifth }
    }
}

/// The values of a sequence of fingerings.
pub open spec fn fingerings(found: Seq<FoundChord>) -> Seq<Fingering> {
    Seq::new(found.len(), |i: int| found[i]@)
}

/// The `k`-th fret tried on a string with the hand at `shift`: the five
/// frets of the window by rising fret, then the open string.
pub open spec fn candidate_fret(shift: u8, k: int) -> u8 {
    if 0 <= k < FRET_RANGE {
        (shift + k) as u8
    } else {
        0
    }
}

/// The `k`-th fret tried with the hand at `shift` has a fret number: the
/// frets of the window beyond the last fret number are not tried.
pub open spec fn candidate_fits(shift: u8, k: int) -> bool {
    0 <= k < FRET_RANGE ==> shift + k <= u8::MAX
}

/// Frets tried on each string.
pub open spec fn candidates() -> int {
    FRET_RANGE + 1
}

/// The pitch classes still to be found, once `class` has been: those of
/// `left` other than `class`, in their order.
pub open spec fn without_class(left: Seq<u8>, class: u8) -> Seq<u8>
    decreases left.len(),
{
    if left.len() == 0 {
        left
    } else {
        let rest = without_class(left.drop_last(), class);
        if left.last() != class {
            rest.push(left.last())
        } else {
            rest
        }
    }
}

/// What is left without `class` holds the other pitch classes of `left`,
/// and those only.
pub proof fn lemma_without_class(left: Seq<u8>, class: u8)
    ensures
        forall|x: u8|
            #[trigger] without_class(left, class).contains(x) <==> left.contains(x) && x != class,
        without_class(left, class).len() <= left.len(),
    decreases left.len(),
{
    if left.len() > 0 {
        let front = left.drop_last();
        lemma_without_class(front, class);
        let rest = without_class(front, class);
        assert forall|x: u8|
            #[trigger] without_class(left, class).contains(x) <==> left.contains(x) && x
                != class by {
            if left.contains(x) && x != class {
                let i = choose|i: int| 0 <= i < left.len() && left[i] == x;
                if i < front.len() {
                    assert(front[i] == x);
                    assert(front.contains(x));
                    assert(rest.contains(x));
                    let j = choose|j: int| 0 <= j < rest.len() && rest[j] == x;
                    assert(without_class(left, class)[j] == x);
                } else {
                    assert(left.last() == x);
                    assert(without_class(left, class) == rest.push(x));
                    assert(rest.push(x)[rest.len() as int] == x);
                }
            }
            if without_class(left, class).contains(x) {
                let j = choose|j: int|
                    0 <= j < without_class(left, class).len() && without_class(left, class)[j]
                        == x;
                if j < rest.len() {
                    assert(rest[j] == x);
                    assert(rest.contains(x));
                    assert(front.contains(x));
                    let i = choose|i: int| 0 <= i < front.len() && front[i] == x;
                    assert(left[i] == x);
                } else {
                    assert(left.last() == x);
                    assert(left[left.len() - 1] == x);
                }
            }
        }
    }
}

/// Nothing but the pitch class that may be left out is still to be found.
pub open spec fn only_optional(left: Seq<u8>, optional: u8) -> bool {
    left.len() > 0 && forall|i: int| 0 <= i < left.len() ==> left[i] == optional
}

/// The fingering that adds no string, where the chord is complete.
pub open spec fn completion(left: Seq<u8>, optional: u8) -> Seq<Fingering> {
    if left.len() == 0 {
        seq![Fingering { hold: Seq::empty(), no_fifth: false }]
    } else if only_optional(left, optional) {
        seq![Fingering { hold: Seq::empty(), no_fifth: true }]
    } else {
        Seq::empty()
    }
}

/// Each fingering of `found` with `item` put before its strings.
pub open spec fn prepend_all(item: (usize, u8), found: Seq<Fingering>) -> Seq<Fingering> {
    Seq::new(
        found.len(),
        |i: int| Fingering { hold: seq![item] + found[i].hold, no_fifth: found[i].no_fifth },
    )
}

/// The fingerings on the strings from `start` on that find what is `left`
/// of the chord, in the order of the search: the completion first, then by
/// first string, then by the fret tried on it.
pub open spec fn enumerate_from(
    tuning: Seq<u8>,
    chord: Seq<u8>,
    left: Seq<u8>,
    start: int,
    shift: u8,
    optional: u8,
) -> Seq<Fingering>
    decreases tuning.len() - start, 2int, 0int,
{
    completion(left, optional) + enumerate_strings(tuning, chord, left, start, shift, optional)
}

/// The fingerings whose first string is `string` or a later one.
pub open spec fn enumerate_strings(
    tuning: Seq<u8>,
    chord: Seq<u8>,
    left: Seq<u8>,
    string: int,
    shift: u8,
    optional: u8,
) -> Seq<Fingering>
    decreases tuning.len() - string, 1int, 0int,
{
    if string < 0 || string >= tuning.len() {
        Seq::empty()
    } else {
        enumerate_frets(tuning, chord, left, string, 0, shift, optional) + enumerate_strings(
            tuning,
            chord,
            left,
            string + 1,
            shift,
            optional,
        )
    }
}

/// The fingerings whose first string is `string`, at its `k`-th candidate
/// fret or a later one.
pub open spec fn enumerate_frets(
    tuning: Seq<u8>,
    chord: Seq<u8>,
    left: Seq<u8>,
    string: int,
    k: int,
    shift: u8,
    optional: u8,
) -> Seq<Fingering>
    decreases tuning.len() - string, 0int, candidates() - k,
{
    if string < 0 || string >= tuning.len() || k < 0 || k >= candidates() {
        Seq::empty()
    } else {
        enumerate_fret(tuning, chord, left, string, k, shift, optional) + enumerate_frets(
            tuning,
            chord,
            left,
            string,
            k + 1,
            shift,
            optional,
        )
    }
}

/// The fingerings whose first string is `string` at its `k`-th candidate
/// fret: none unless that fret has a fret number and sounds a pitch class of
/// the chord.
pub open spec fn enumerate_fret(
    tuning: Seq<u8>,
    chord: Seq<u8>,
    left: Seq<u8>,
    string: int,
    k: int,
    shift: u8,
    optional: u8,
) -> Seq<Fingering>
    decreases tuning.len() - string, 0int, 0int,
{
    if string < 0 || string >= tuning.len() || !candidate_fits(shift, k) {
        Seq::empty()
    } else {
        let fret = candidate_fret(shift, k);
        let class = sounding_class(tuning[string], fret);
        if chord.contains(class) {
            prepend_all(
                (string as usize, fret),
                enumerate_from(
                    tuning,
                    chord,
                    without_class(left, class),
                    string + 1,
                    shift,
                    optional,
                ),
            )
        } else {
            Seq::empty()
        }
    }
}

/// The values of two sequences of fingerings, joined.
pub proof fn lemma_fingerings_concat(a: Seq<FoundChord>, b: Seq<FoundChord>)
    ensures
        fingerings(a + b) =~= fingerings(a) + fingerings(b),
{
}

/// Tells whether `class` is among the pitch classes.
pub fn contains_class(classes: &[u8], class: u8) -> (found: bool)
    ensures
        found == classes@.contains(class),
{
    let mut i: usize = 0;
    while i < classes.len()
        invariant
            i <= classes.len(),
            forall|j: int| 0 <= j < i ==> classes@[j] != class,
        decreases classes.len() - i,
    {
        if classes[i] == class {
            return true;
        }
        i = i + 1;
    }
    false
}

/// Removes every occurrence of `class` from the pitch classes.
pub fn remove_class(left: &[u8], class: u8) -> (rest: Vec<u8>)
    ensures
        rest@ == without_class(left@, class),
{
    let mut rest: Vec<u8> = Vec::new();
    let mut i: usize = 0;
    while i < left.len()
        invariant
            i <= left.len(),
            rest@ == without_class(left@.take(i as int), class),
        decreases left.len() - i,
    {
        proof {
            let next = left@.take(i + 1);
            assert(next.drop_last() =~= left@.take(i as int));
            assert(next.last() == left@[i as int]);
        }
        if left[i] != class {
            rest.push(left[i]);
        }
        i = i + 1;
    }
    proof {
        assert(left@.take(i as int) =~= left@);
    }
    rest
}

/// Tells whether only the pitch class that may be left out is still to be found.
pub fn is_only_optional(left: &[u8], optional: u8) -> (only: bool)
    ensures
        only == only_optional(left@, optional),
{
    if left.len() == 0 {
        return false;
    }
    let mut i: usize = 0;
    while i < left.len()
        invariant
            i <= left.len(),
            forall|j: int| 0 <= j < i ==> left@[j] == optional,
        decreases left.len() - i,
    {
        if left[i] != optional {
            return false;
        }
        i = i + 1;
    }
    true
}

impl FoundChord {
    /// A copy of the fingering with `item` put before its strings.
    pub fn with_first(&self, item: (usize, u8)) -> (longer: FoundChord)
        ensures
            longer@ == (Fingering { hold: seq![item] + self@.hold, no_fifth: self.no_fifth }),
    {
        let mut hold: Vec<(usize, u8)> = Vec::new();
        hold.push(item);
        let mut i: usize = 0;
        while i < self.hold.len()
            invariant
                i <= self.hold.len(),
                hold@ == seq![item] + self.hold@.take(i as int),
            decreases self.hold.len() - i,
        {
            hold.push(self.hold[i]);
            proof {
                assert(self.hold@.take(i + 1) =~= self.hold@.take(i as int).push(self.hold@[i as int]));
                assert(hold@ =~= seq![item] + self.hold@.take(i + 1));
            }
            i = i + 1;
        }
        proof {
            assert(self.hold@.take(i as int) =~= self.hold@);
        }
        FoundChord { hold, no_fifth: self.no_fifth }
    }
}

/// Puts `item` before the strings of every fingering.
pub fn extend_all(found: Vec<FoundChord>, item: (usize, u8)) -> (longer: Vec<FoundChord>)
    ensures
        fingerings(longer@) == prepend_all(item, fingerings(found@)),
{
    let mut longer: Vec<FoundChord> = Vec::new();
    let mut i: usize = 0;
    while i < found.len()
        invariant
            i <= found.len(),
            longer@.len() == i,
            forall|j: int|
                0 <= j < i ==> (#[trigger] longer@[j])@ == (Fingering {
                    hold: seq![item] + found@[j]@.hold,
                    no_fifth: found@[j].no_fifth,
                }),
        decreases found.len() - i,
    {
        longer.push(found[i].with_first(item));
        i = i + 1;
    }
    proof {
        assert(fingerings(longer@) =~= prepend_all(item, fingerings(found@)));
    }
    longer
}

impl Tuning {
    /// A tuning of the given open pitches.
    pub fn new(notes: Vec<u8>) -> (tuning: Tuning)
        requires
            notes@.len() >= 1,
        ensures
            tuning@ == notes@,
            tuning.wf(),
    {
        Tuning { notes }
    }

    /// A tuning has at least one string.
    pub open spec fn wf(&self) -> bool {
        self.notes@.len() >= 1
    }

    /// Number of strings.
    pub fn strings(&self) -> (n: usize)
        ensures
            n == self@.len(),
    {
        self.notes.len()
    }

    /// Finds every fingering on the strings from `start_string` on that
    /// sounds what is `left` of the chord with the hand at `shift`.
    ///
    /// Each string sounds at one of the five frets from `shift` on, as far
    /// as fret numbers go, or open,
    /// and only pitch classes of `chord`; a pitch class may sound on several
    /// strings. A fingering is flagged when it leaves out `optional_fifth`
    /// and nothing else. The result holds exactly the fingerings that find
    /// what is left, in the order of the search.
    ///
    /// A chord has a pitch class: there is no search for an empty chord.
    /// [`Tuning::find_chord_with_shift`] and [`Tuning::find_chord`] refuse
    /// one with an error.
    pub fn find_chord_from_string(
        &self,
        chord: &[u8],
        left: &[u8],
        start_string: usize,
        shift: u8,
        optional_fifth: u8,
    ) -> (found: Vec<FoundChord>)
        requires
            chord@.len() > 0,
        ensures
            fingerings(found@) == enumerate_from(
                self@,
                chord@,
                left@,
                start_string as int,
                shift,
                optional_fifth,
            ),
            forall|f: Fingering|
                #[trigger] fingerings(found@).contains(f) <==> finds(
                    self@,
                    chord@,
                    left@,
                    start_string as int,
                    shift,
                    optional_fifth,
                    f,
                ),
        decreases self@.len() - start_string,
    {
        let strings = self.notes.len();
        let mut collected: Vec<FoundChord> = Vec::new();
        if left.len() == 0 {
            collected.push(FoundChord { hold: Vec::new(), no_fifth: false });
        } else if is_only_optional(left, optional_fifth) {
            collected.push(FoundChord { hold: Vec::new(), no_fifth: true });
        }
        proof {
            assert(fingerings(collected@) =~= completion(left@, optional_fifth));
        }
        let ghost whole = enumerate_from(
            self@,
            chord@,
            left@,
            start_string as int,
            shift,
            optional_fifth,
        );
        let mut first_string: usize = start_string;
        while first_string < self.notes.len()
            invariant
                chord@.len() > 0,
                start_string <= first_string,
                whole == enumerate_from(
                    self@,
                    chord@,
                    left@,
                    start_string as int,
                    shift,
                    optional_fifth,
                ),
                whole == fingerings(collected@) + enumerate_strings(
                    self@,
                    chord@,
                    left@,
                    first_string as int,
                    shift,
                    optional_fifth,
                ),
            decreases self.notes.len() - first_string,
        {
            let open = self.notes[first_string];
            let ghost later = enumerate_strings(
                self@,
                chord@,
                left@,
                first_string + 1,
                shift,
                optional_fifth,
            );
            let mut k: u8 = 0;
            while k <= FRET_RANGE
                invariant
                    chord@.len() > 0,
                    k <= FRET_RANGE + 1,
                    start_string <= first_string < self.notes.len(),
                    open == self@[first_string as int],
                    later == enumerate_strings(
                        self@,
                        chord@,
                        left@,
                        first_string + 1,
                        shift,
                        optional_fifth,
                    ),
                    whole == fingerings(collected@) + enumerate_frets(
                        self@,
                        chord@,
                        left@,
                        first_string as int,
                        k as int,
                        shift,
                        optional_fifth,
                    ) + later,
                decreases FRET_RANGE + 1 - k,
            {
                let fits = k >= FRET_RANGE || shift <= u8::MAX - k;
                let fret: u8 = if k < FRET_RANGE && fits {
                    shift + k
                } else {
                    0
                };
                let class = pitch_class_at(open, fret);
                let ghost before = fingerings(collected@);
                let ghost here = enumerate_fret(
                    self@,
                    chord@,
                    left@,
                    first_string as int,
                    k as int,
                    shift,
                    optional_fifth,
                );
                let ghost after = enumerate_frets(
                    self@,
                    chord@,
                    left@,
                    first_string as int,
                    k + 1,
                    shift,
                    optional_fifth,
                );
                if fits && contains_class(chord, class) {
                    let rest = remove_class(left, class);
                    let found = self.find_chord_from_string(
                        chord,
                        rest.as_slice(),
                        first_string + 1,
                        shift,
                        optional_fifth,
                    );
                    let mut longer = extend_all(found, (first_string, fret));
                    proof {
                        assert(fingerings(longer@) == here);
                        lemma_fingerings_concat(collected@, longer@);
                    }
                    collected.append(&mut longer);
                }
                proof {
                    assert(fingerings(collected@) =~= before + here);
                    assert(whole =~= (before + here) + after + later);
                }
                k = k + 1;
            }
            proof {
                assert(enumerate_frets(
                    self@,
                    chord@,
                    left@,
                    first_string as int,
                    k as int,
                    shift,
                    optional_fifth,
                ) =~= Seq::<Fingering>::empty());
                assert(whole =~= fingerings(collected@) + later);
            }
            first_string = first_string + 1;
        }
        proof {
            assert(whole =~= fingerings(collected@));
            lemma_search_sound(self@, chord@, left@, start_string as int, shift, optional_fifth);
            assert forall|f: Fingering| #[trigger]
                whole.contains(f) <==> finds(
                    self@,
                    chord@,
                    left@,
                    start_string as int,
                    shift,
                    optional_fifth,
                    f,
                ) by {
                if finds(self@, chord@, left@, start_string as int, shift, optional_fifth, f) {
                    lemma_search_complete(
                        self@,
                        chord@,
                        left@,
                        start_string as int,
                        shift,
                        optional_fifth,
                        f,
                    );
                }
                if whole.contains(f) {
                    let i = choose|i: int| 0 <= i < whole.len() && whole[i] == f;
                    assert(finds(
                        self@,
                        chord@,
                        left@,
                        start_string as int,
                        shift,
                        optional_fifth,
                        whole[i],
                    ));
                }
            }
        }
        collected
    }
}

} // verus!
