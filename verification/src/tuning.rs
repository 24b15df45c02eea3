//! Reading a tuning from text: notes with their octaves, separated by single
//! spaces, as in `E1 A1 D2 G2 B2 E3`.
//!
//! Each token is a note name followed by one digit, its octave. What pitch
//! class a note name stands for is not decided here: the caller has the
//! names read and hands in the pitch classes.
use crate::fingering::Tuning;
use crate::pitch::note_to_full_pitch;
use crate::error::SearchError;
use vstd::prelude::*;

verus! {

/// One token of a tuning text: the name of its note and its octave.
#[derive(Debug, PartialEq, Eq)]
pub struct TuningNote {
    pub name: String,
    pub octave: u8,
}

/// The value of a decimal digit, `None` for any other character.
pub open spec fn digit_value(c: char) -> Option<u8> {
    if c == '0' {
        Some(0u8)
    } else if c == '1' {
        Some(1u8)
    } else if c == '2' {
        Some(2u8)
    } else if c == '3' {
        Some(3u8)
    } else if c == '4' {
        Some(4u8)
    } else if c == '5' {
        Some(5u8)
    } else if c == '6' {
        Some(6u8)
    } else if c == '7' {
        Some(7u8)
    } else if c == '8' {
        Some(8u8)
    } else if c == '9' {
        Some(9u8)
    } else {
        None
    }
}

/// Where the token that reaches up to the index `n` starts: behind the last
/// space before `n`, or at the start of the text.
pub open spec fn token_start(text: Seq<char>, n: int) -> int
    decreases n,
{
    if n <= 0 {
        0
    } else if text[n - 1] == ' ' {
        n
    } else {
        token_start(text, n - 1)
    }
}

/// The token from `start` up to `end` is a note with its octave: it has a
/// character, and its last one is a digit.
pub open spec fn token_formed(text: Seq<char>, start: int, end: int) -> bool {
    start < end && digit_value(text[end - 1]) is Some
}

/// The name of the note in the token from `start` up to `end`: the token
/// without its last character.
pub open spec fn token_name(text: Seq<char>, start: int, end: int) -> Seq<char> {
    text.subrange(start, end - 1)
}

/// The octave in the token that ends before `end`.
pub open spec fn token_octave(text: Seq<char>, end: int) -> u8 {
    digit_value(text[end - 1]).unwrap()
}

/// Tokens that a space before the index `n` ends.
pub open spec fn closed_tokens(text: Seq<char>, n: int) -> int
    decreases n,
{
    if n <= 0 {
        0
    } else {
        closed_tokens(text, n - 1) + if text[n - 1] == ' ' {
            1int
        } else {
            0int
        }
    }
}

/// Every token that a space before the index `n` ends is a note with its
/// octave.
pub open spec fn closed_formed(text: Seq<char>, n: int) -> bool
    decreases n,
{
    if n <= 0 {
        true
    } else {
        closed_formed(text, n - 1) && (text[n - 1] == ' ' ==> token_formed(
            text,
            token_start(text, n - 1),
            n - 1,
        ))
    }
}

/// The names of the notes in the tokens that a space before `n` ends.
pub open spec fn closed_names(text: Seq<char>, n: int) -> Seq<Seq<char>>
    decreases n,
{
    if n <= 0 {
        Seq::empty()
    } else if text[n - 1] == ' ' {
        closed_names(text, n - 1).push(token_name(text, token_start(text, n - 1), n - 1))
    } else {
        closed_names(text, n - 1)
    }
}

/// The octaves in the tokens that a space before `n` ends.
pub open spec fn closed_octaves(text: Seq<char>, n: int) -> Seq<u8>
    decreases n,
{
    if n <= 0 {
        Seq::empty()
    } else if text[n - 1] == ' ' {
        closed_octaves(text, n - 1).push(token_octave(text, n - 1))
    } else {
        closed_octaves(text, n - 1)
    }
}

/// The text is a tuning: each of its tokens, which single spaces separate,
/// is a note with its octave.
pub open spec fn tuning_formed(text: Seq<char>) -> bool {
    let n = text.len() as int;
    closed_formed(text, n) && token_formed(text, token_start(text, n), n)
}

/// The names of the notes of a tuning text, token by token.
pub open spec fn note_names(text: Seq<char>) -> Seq<Seq<char>> {
    let n = text.len() as int;
    closed_names(text, n).push(token_name(text, token_start(text, n), n))
}

/// The octaves of the notes of a tuning text, token by token.
pub open spec fn note_octaves(text: Seq<char>) -> Seq<u8> {
    let n = text.len() as int;
    closed_octaves(text, n).push(token_octave(text, n))
}

/// Every note name was read as a pitch class.
pub open spec fn all_read(classes: Seq<Option<u8>>) -> bool {
    forall|i: int| 0 <= i < classes.len() ==> ((#[trigger] classes[i]) matches Some(c) && c < 12)
}

/// The open pitches of a tuning from the pitch classes and octaves of its
/// notes.
pub open spec fn open_pitches(classes: Seq<Option<u8>>, octaves: Seq<u8>) -> Seq<u8> {
    Seq::new(classes.len(), |i: int| (classes[i].unwrap() + 12 * octaves[i]) as u8)
}

/// The names, the octaves and the tokens ended by a space are as many.
pub proof fn lemma_closed_counts(text: Seq<char>, n: int)
    requires
        0 <= n <= text.len(),
    ensures
        closed_names(text, n).len() == closed_tokens(text, n),
        closed_octaves(text, n).len() == closed_tokens(text, n),
        0 <= closed_tokens(text, n) <= n,
        0 <= token_start(text, n) <= n,
    decreases n,
{
    if n > 0 {
        lemma_closed_counts(text, n - 1);
    }
}

fn read_digit(c: char) -> (value: Option<u8>)
    ensures
        value == digit_value(c),
        value matches Some(d) ==> d <= 9,
{
    if c == '0' {
        Some(0)
    } else if c == '1' {
        Some(1)
    } else if c == '2' {
        Some(2)
    } else if c == '3' {
        Some(3)
    } else if c == '4' {
        Some(4)
    } else if c == '5' {
        Some(5)
    } else if c == '6' {
        Some(6)
    } else if c == '7' {
        Some(7)
    } else if c == '8' {
        Some(8)
    } else if c == '9' {
        Some(9)
    } else {
        None
    }
}

/// The views of the names of a sequence of notes.
pub open spec fn names_of(notes: Seq<TuningNote>) -> Seq<Seq<char>> {
    Seq::new(notes.len(), |i: int| notes[i].name@)
}

/// The octaves of a sequence of notes.
pub open spec fn octaves_of(notes: Seq<TuningNote>) -> Seq<u8> {
    Seq::new(notes.len(), |i: int| notes[i].octave)
}

fn read_token(s: &str, start: usize, end: usize) -> (note: Option<TuningNote>)
    requires
        start <= end <= s@.len(),
    ensures
        note is Some <==> token_formed(s@, start as int, end as int),
        note matches Some(n) ==> n.name@ == token_name(s@, start as int, end as int) && n.octave
            == token_octave(s@, end as int) && n.octave <= 9,
{
    if start == end {
        return None;
    }
    match read_digit(s.get_char(end - 1)) {
        Some(octave) => Some(TuningNote { name: s.substring_char(start, end - 1).to_owned(), octave }),
        None => None,
    }
}

/// Splits a tuning text into its notes: for each token the name of the
/// note and its octave.
///
/// Gives `None` exactly where some token is empty or does not end in a
/// digit.
pub fn split_tuning(s: &str) -> (notes: Option<Vec<TuningNote>>)
    ensures
        notes is Some <==> tuning_formed(s@),
        notes matches Some(found) ==> names_of(found@) == note_names(s@) && octaves_of(found@)
            == note_octaves(s@) && forall|i: int|
            0 <= i < found@.len() ==> (#[trigger] found@[i]).octave <= 9,
{
    let len = s.unicode_len();
    let mut notes: Vec<TuningNote> = Vec::new();
    let mut start: usize = 0;
    let mut i: usize = 0;
    proof {
        assert(names_of(notes@) =~= closed_names(s@, 0));
        assert(octaves_of(notes@) =~= closed_octaves(s@, 0));
    }
    while i < len
        invariant
            i <= len,
            len == s@.len(),
            start == token_start(s@, i as int),
            start <= i,
            closed_formed(s@, i as int),
            names_of(notes@) == closed_names(s@, i as int),
            octaves_of(notes@) == closed_octaves(s@, i as int),
            forall|j: int| 0 <= j < notes@.len() ==> (#[trigger] notes@[j]).octave <= 9,
        decreases len - i,
    {
        if s.get_char(i) == ' ' {
            let ghost names = names_of(notes@);
            let ghost octaves = octaves_of(notes@);
            match read_token(s, start, i) {
                Some(note) => {
                    notes.push(note);
                },
                None => {
                    proof {
                        lemma_not_formed(s@, i + 1, len as int);
                    }
                    return None;
                },
            }
            proof {
                assert(names_of(notes@) =~= names.push(
                    token_name(s@, start as int, i as int),
                ));
                assert(octaves_of(notes@) =~= octaves.push(token_octave(s@, i as int)));
            }
            start = i + 1;
        }
        i = i + 1;
    }
    let ghost names = names_of(notes@);
    let ghost octaves = octaves_of(notes@);
    match read_token(s, start, len) {
        Some(note) => {
            notes.push(note);
        },
        None => {
            return None;
        },
    }
    proof {
        assert(names_of(notes@) =~= names.push(token_name(s@, start as int, len as int)));
        assert(octaves_of(notes@) =~= octaves.push(token_octave(s@, len as int)));
    }
    Some(notes)
}

/// A token that is no note keeps the text from being a tuning, however the
/// text goes on.
pub proof fn lemma_not_formed(text: Seq<char>, n: int, len: int)
    requires
        0 <= n <= len <= text.len(),
        !closed_formed(text, n),
    ensures
        !closed_formed(text, len),
    decreases len - n,
{
    if n < len {
        lemma_not_formed(text, n, len - 1);
    }
}

impl Tuning {
    /// Reads a tuning from its text and the pitch classes of its notes.
    ///
    /// `classes` holds, token by token, the pitch class that the name of
    /// the note was read as, `None` for a name that is no note. The result is
    /// `Some` exactly where the text is a tuning and every name was read;
    /// each open pitch is then the pitch class of its note in the octave of
    /// its token.
    pub fn from_str(s: &str, classes: &[Option<u8>]) -> (tuning: Option<Tuning>)
        ensures
            tuning is Some <==> tuning_formed(s@) && classes@.len() == note_names(s@).len()
                && all_read(classes@),
            tuning matches Some(t) ==> t@ == open_pitches(classes@, note_octaves(s@)) && t.wf(),
    {
        let notes = match split_tuning(s) {
            Some(notes) => notes,
            None => {
                return None;
            },
        };
        proof {
            lemma_closed_counts(s@, s@.len() as int);
            assert(names_of(notes@).len() == notes@.len());
        }
        if classes.len() != notes.len() {
            return None;
        }
        let mut pitches: Vec<u8> = Vec::new();
        let mut i: usize = 0;
        while i < notes.len()
            invariant
                i <= notes.len(),
                notes@.len() >= 1,
                classes@.len() == notes@.len(),
                octaves_of(notes@) == note_octaves(s@),
                forall|j: int| 0 <= j < notes@.len() ==> (#[trigger] notes@[j]).octave <= 9,
                pitches@.len() == i,
                forall|j: int| 0 <= j < i ==> ((#[trigger] classes@[j]) matches Some(c) && c < 12),
                forall|j: int|
                    0 <= j < i ==> #[trigger] pitches@[j] == (classes@[j].unwrap() + 12
                        * note_octaves(s@)[j]) as u8,
            decreases notes.len() - i,
        {
            proof {
                assert(octaves_of(notes@)[i as int] == notes@[i as int].octave);
            }
            match classes[i] {
                Some(class) => {
                    if class >= 12 {
                        return None;
                    }
                    pitches.push(note_to_full_pitch(class, notes[i].octave));
                },
                None => {
                    return None;
                },
            }
            i = i + 1;
        }
        proof {
            assert(pitches@ =~= open_pitches(classes@, note_octaves(s@)));
        }
        Some(Tuning::new(pitches))
    }

    /// Reads a tuning as [`Tuning::from_str`] does, and fails with
    /// `InvalidTuningFormat` where that gives nothing.
    pub fn try_from_str(s: &str, classes: &[Option<u8>]) -> (tuning: Result<Tuning, SearchError>)
        ensures
            tuning is Ok <==> tuning_formed(s@) && classes@.len() == note_names(s@).len()
                && all_read(classes@),
            tuning matches Ok(t) ==> t@ == open_pitches(classes@, note_octaves(s@)) && t.wf(),
            tuning matches Err(e) ==> e == SearchError::InvalidTuningFormat,
    {
        match Tuning::from_str(s, classes) {
            Some(tuning) => Ok(tuning),
            None => Err(SearchError::InvalidTuningFormat),
        }
    }
}

} // verus!
