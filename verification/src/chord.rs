//! A chord as the search takes it: the notes that a chord name stands for,
//! each with its pitch class and its interval from the root; and what the
//! name itself says.
use crate::pitch::NO_OMISSION;
use vstd::prelude::*;
use vstd::string::StringExecFns;

verus! {

/// Notes of a plain triad.
pub const TRIAD: usize = 3;

/// The interval of a note from the root of its chord, as far as the search
/// tells intervals apart.
#[derive(Debug, PartialEq, Eq, Clone, Copy, Structural)]
pub enum Interval {
    DiminishedThird,
    MinorThird,
    MajorThird,
    AugmentedThird,
    PerfectFifth,
    TwoPerfectOctavesAndMajorThird,
    ThreePerfectOctavesAndMajorThird,
    Other,
}

/// One note of a chord: its pitch class, and its interval from the root
/// where the two notes are an interval apart.
#[derive(Debug, PartialEq, Eq, Clone, Copy, Structural)]
pub struct ChordNote {
    pub pitch: u8,
    pub interval: Option<Interval>,
}

/// What a chord name stands for: its notes from the lowest up, and whether
/// it names a bass note other than its root.
#[derive(Debug, PartialEq, Eq)]
pub struct ResolvedChord {
    pub notes: Vec<ChordNote>,
    pub slash: bool,
}

/// The interval is a third of some kind.
pub open spec fn third(i: Interval) -> bool {
    i == Interval::MajorThird || i == Interval::MinorThird || i == Interval::AugmentedThird || i
        == Interval::DiminishedThird || i == Interval::TwoPerfectOctavesAndMajorThird || i
        == Interval::ThreePerfectOctavesAndMajorThird
}

/// The note is a third above the root.
pub open spec fn third_note(note: ChordNote) -> bool {
    note.interval matches Some(i) && third(i)
}

/// The name of a power chord without its `5`: a name whose second or third
/// character is `5`, with that character taken out.
pub open spec fn power_name(name: Seq<char>) -> Option<Seq<char>> {
    if name.len() >= 2 && name[1] == '5' {
        Some(name.remove(1))
    } else if name.len() >= 3 && name[2] == '5' {
        Some(name.remove(2))
    } else {
        None
    }
}

/// The pitch class of the first note from the `i`-th on that is a perfect
/// fifth above the root; the mark of no omission where there is none.
pub open spec fn first_fifth(notes: Seq<ChordNote>, i: int) -> u8
    decreases notes.len() - i,
{
    if i < 0 || i >= notes.len() {
        NO_OMISSION
    } else if notes[i].interval == Some(Interval::PerfectFifth) {
        notes[i].pitch
    } else {
        first_fifth(notes, i + 1)
    }
}

/// The pitch class that a fingering may leave out: the fifth of a chord of
/// more notes than a triad, not counting a bass note of its own.
pub open spec fn omittable(notes: Seq<ChordNote>, slash: bool) -> u8 {
    if notes.len() > TRIAD + if slash {
        1int
    } else {
        0int
    } {
        first_fifth(notes, 0)
    } else {
        NO_OMISSION
    }
}

/// The pitch classes of the first `n` notes in their order; of a power
/// chord, without those of its thirds.
pub open spec fn pitch_classes(notes: Seq<ChordNote>, power: bool, n: int) -> Seq<u8>
    decreases n,
{
    if n <= 0 {
        Seq::empty()
    } else if power && third_note(notes[n - 1]) {
        pitch_classes(notes, power, n - 1)
    } else {
        pitch_classes(notes, power, n - 1).push(notes[n - 1].pitch)
    }
}

/// The pitch classes to find hold the pitch class of no third of a power
/// chord, unless another of its notes has it too.
pub proof fn lemma_power_without_thirds(notes: Seq<ChordNote>, n: int, class: u8)
    requires
        0 <= n <= notes.len(),
    ensures
        pitch_classes(notes, true, n).contains(class) <==> exists|i: int|
            0 <= i < n && !third_note(#[trigger] notes[i]) && notes[i].pitch == class,
        pitch_classes(notes, false, n).contains(class) <==> exists|i: int|
            0 <= i < n && (#[trigger] notes[i]).pitch == class,
    decreases n,
{
    if n > 0 {
        lemma_power_without_thirds(notes, n - 1, class);
        let last = notes[n - 1];
        let before = pitch_classes(notes, true, n - 1);
        let kept = pitch_classes(notes, true, n);
        let all_before = pitch_classes(notes, false, n - 1);
        let all = pitch_classes(notes, false, n);
        if kept.contains(class) {
            let j = choose|j: int| 0 <= j < kept.len() && kept[j] == class;
            if j < before.len() {
                assert(before[j] == class);
                assert(before.contains(class));
                let i = choose|i: int|
                    0 <= i < n - 1 && !third_note(#[trigger] notes[i]) && notes[i].pitch == class;
                assert(0 <= i < n && !third_note(notes[i]) && notes[i].pitch == class);
            } else {
                assert(!third_note(notes[n - 1]) && notes[n - 1].pitch == class);
            }
        }
        if exists|i: int| 0 <= i < n && !third_note(#[trigger] notes[i]) && notes[i].pitch == class {
            let i = choose|i: int|
                0 <= i < n && !third_note(#[trigger] notes[i]) && notes[i].pitch == class;
            if i < n - 1 {
                assert(before.contains(class));
                let j = choose|j: int| 0 <= j < before.len() && before[j] == class;
                assert(kept[j] == class);
            } else {
                assert(kept[kept.len() - 1] == class);
            }
        }
        if all.contains(class) {
            let j = choose|j: int| 0 <= j < all.len() && all[j] == class;
            if j < all_before.len() {
                assert(all_before[j] == class);
                assert(all_before.contains(class));
                let i = choose|i: int| 0 <= i < n - 1 && (#[trigger] notes[i]).pitch == class;
                assert(0 <= i < n && notes[i].pitch == class);
            } else {
                assert(notes[n - 1].pitch == class);
            }
        }
        if exists|i: int| 0 <= i < n && (#[trigger] notes[i]).pitch == class {
            let i = choose|i: int| 0 <= i < n && (#[trigger] notes[i]).pitch == class;
            if i < n - 1 {
                assert(all_before.contains(class));
                let j = choose|j: int| 0 <= j < all_before.len() && all_before[j] == class;
                assert(all[j] == class);
            } else {
                assert(all[all.len() - 1] == class);
            }
        }
    }
}

/// Tells whether the interval is a third of some kind.
pub fn is_third(i: Interval) -> (yes: bool)
    ensures
        yes == third(i),
{
    match i {
        Interval::MajorThird
        | Interval::MinorThird
        | Interval::AugmentedThird
        | Interval::DiminishedThird
        | Interval::TwoPerfectOctavesAndMajorThird
        | Interval::ThreePerfectOctavesAndMajorThird => true,
        _ => false,
    }
}

fn without_char(name: &str, at: usize, len: usize) -> (shorter: String)
    requires
        at < len,
        len == name@.len(),
    ensures
        shorter@ == name@.remove(at as int),
{
    let head = name.substring_char(0, at);
    let tail = name.substring_char(at + 1, len);
    let mut shorter = head.to_owned();
    shorter.append(tail);
    assert(shorter@ =~= name@.remove(at as int));
    shorter
}

/// Recognises the name of a power chord, written with a `5` as its second
/// or third character, and gives the name without that `5`.
pub fn is_5_chord(name: &str) -> (stripped: Option<String>)
    ensures
        stripped is Some <==> power_name(name@) is Some,
        stripped matches Some(s) ==> power_name(name@) == Some(s@),
{
    let len = name.unicode_len();
    if len >= 2 && name.get_char(1) == '5' {
        Some(without_char(name, 1, len))
    } else if len >= 3 && name.get_char(2) == '5' {
        Some(without_char(name, 2, len))
    } else {
        None
    }
}

/// Tells whether the name holds a slash, with which it names its bass.
pub fn names_bass(name: &str) -> (slash: bool)
    ensures
        slash == name@.contains('/'),
{
    let len = name.unicode_len();
    let mut i: usize = 0;
    while i < len
        invariant
            i <= len,
            len == name@.len(),
            forall|j: int| 0 <= j < i ==> name@[j] != '/',
        decreases len - i,
    {
        if name.get_char(i) == '/' {
            return true;
        }
        i = i + 1;
    }
    false
}

impl ResolvedChord {
    /// The pitch class that a fingering of the chord may leave out, or the
    /// mark of no omission.
    pub fn omittable_fifth(&self) -> (class: u8)
        ensures
            class == omittable(self.notes@, self.slash),
    {
        let extra: usize = if self.slash {
            1
        } else {
            0
        };
        if self.notes.len() <= TRIAD || self.notes.len() - TRIAD <= extra {
            return NO_OMISSION;
        }
        let mut i: usize = 0;
        while i < self.notes.len()
            invariant
                i <= self.notes.len(),
                omittable(self.notes@, self.slash) == first_fifth(self.notes@, 0),
                first_fifth(self.notes@, 0) == first_fifth(self.notes@, i as int),
            decreases self.notes.len() - i,
        {
            let note = self.notes[i];
            match note.interval {
                Some(interval) => {
                    if interval == Interval::PerfectFifth {
                        return note.pitch;
                    }
                },
                None => {},
            }
            i = i + 1;
        }
        NO_OMISSION
    }

    /// The pitch classes to find, in the order of the notes; of a power
    /// chord, those of the notes that are no third.
    pub fn classes(&self, power: bool) -> (found: Vec<u8>)
        ensures
            found@ == pitch_classes(self.notes@, power, self.notes@.len() as int),
    {
        let mut found: Vec<u8> = Vec::new();
        let mut i: usize = 0;
        while i < self.notes.len()
            invariant
                i <= self.notes.len(),
                found@ == pitch_classes(self.notes@, power, i as int),
            decreases self.notes.len() - i,
        {
            let note = self.notes[i];
            let dropped = power && match note.interval {
                Some(interval) => is_third(interval),
                None => false,
            };
            if !dropped {
                found.push(note.pitch);
            }
            i = i + 1;
        }
        found
    }
}

} // verus!
