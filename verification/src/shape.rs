//! The dense form of a fingering, one slot per string, and what can be
//! measured of it: mutes, span, barre, fingers and stretches.
//!
//! A slot is `None` for a muted string, `Some(0)` for an open string and
//! `Some(f)` with `f > 0` for a string pressed at fret `f`.
use crate::hash::calculate_hash;
use crate::hash::shape_hash;
use vstd::prelude::*;

verus! {

/// Frets at or beyond this one are out of a hand's reach.
pub const REACH: u8 = 12;

/// Strings a barre shape needs before one finger is laid across them.
pub const BARRE_MIN_FRETTED: usize = 4;

/// Strings that must share the lowest fret for a barre.
pub const BARRE_MIN_SHARED: usize = 2;

/// Fingers a hand has for a shape without a barre.
pub const MAX_FINGERS: usize = 4;

/// Fingers left beside the one that holds a barre.
pub const MAX_FINGERS_BARRE: usize = 3;

/// Frets a hand spans without stretching.
pub const FREE_SPAN: u8 = 2;

/// A fingering laid out string by string.
#[derive(Debug, PartialEq, Eq)]
pub struct FormattedChord {
    pub v: Vec<Option<u8>>,
    pub no_fifth: bool,
}

/// The mathematical value of a [`FormattedChord`].
pub struct Shape {
    pub v: Seq<Option<u8>>,
    pub no_fifth: bool,
}

impl View for FormattedChord {
    type V = Shape;

    open spec fn view(&self) -> Shape {
        Shape { v: self.v@, no_fifth: self.no_fifth }
    }
}

/// The measures of a playable shape from which its difficulty is weighed.
#[derive(Debug, PartialEq, Eq)]
pub struct Complexity {
    /// Muted strings in all.
    pub mutes: usize,
    /// Muted strings before the first played one.
    pub leading_mutes: usize,
    /// Muted strings after the last played one.
    pub trailing_mutes: usize,
    /// Muted strings between two played ones.
    pub inner_mutes: usize,
    /// Lowest fret pressed, 0 when no string is pressed.
    pub lowest_fret: u8,
    /// Highest fret pressed, 0 when no string is pressed.
    pub highest_fret: u8,
    /// Frets between the lowest and the highest beyond the free span.
    pub span: u8,
    /// Fret of the barre, 0 without one.
    pub barre: u8,
    /// Fingers needed beside a barre.
    pub fingers: usize,
    /// One more than the index of the last open string, 0 without one.
    pub last_open: usize,
    /// For each pressed string after the first: the fret distance to the
    /// pressed string before it and the muted strings between the two.
    pub stretches: Vec<(u8, usize)>,
    /// Digest of the slots, to order shapes of equal difficulty.
    pub tie_break: u64,
}

pub open spec fn is_fretted(slot: Option<u8>) -> bool {
    slot matches Some(f) && f > 0
}

/// Muted slots among the first `n`.
pub open spec fn muted_among(v: Seq<Option<u8>>, n: int) -> int
    decreases n,
{
    if n <= 0 {
        0
    } else {
        muted_among(v, n - 1) + if v[n - 1] is None {
            1int
        } else {
            0int
        }
    }
}

/// Open strings among the first `n` slots.
pub open spec fn open_among(v: Seq<Option<u8>>, n: int) -> int
    decreases n,
{
    if n <= 0 {
        0
    } else {
        open_among(v, n - 1) + if v[n - 1] == Some(0u8) {
            1int
        } else {
            0int
        }
    }
}

/// Pressed strings among the first `n` slots.
pub open spec fn fretted_among(v: Seq<Option<u8>>, n: int) -> int
    decreases n,
{
    if n <= 0 {
        0
    } else {
        fretted_among(v, n - 1) + if is_fretted(v[n - 1]) {
            1int
        } else {
            0int
        }
    }
}

/// Index of the first played slot at or after `i`, the length if there is none.
pub open spec fn first_played(v: Seq<Option<u8>>, i: int) -> int
    decreases v.len() - i,
{
    if i < 0 || i >= v.len() {
        v.len() as int
    } else if v[i] is Some {
        i
    } else {
        first_played(v, i + 1)
    }
}

/// One more than the index of the last played slot among the first `n`, 0 if
/// there is none.
pub open spec fn played_end(v: Seq<Option<u8>>, n: int) -> int
    decreases n,
{
    if n <= 0 {
        0
    } else if v[n - 1] is Some {
        n
    } else {
        played_end(v, n - 1)
    }
}

/// One more than the index of the last open string among the first `n`
/// slots, 0 if there is none.
pub open spec fn open_end(v: Seq<Option<u8>>, n: int) -> int
    decreases n,
{
    if n <= 0 {
        0
    } else if v[n - 1] == Some(0u8) {
        n
    } else {
        open_end(v, n - 1)
    }
}

/// Lowest pressed fret among the first `n` slots, 0 if none is pressed.
pub open spec fn lowest_fretted(v: Seq<Option<u8>>, n: int) -> u8
    decreases n,
{
    if n <= 0 {
        0
    } else {
        let low = lowest_fretted(v, n - 1);
        match v[n - 1] {
            Some(f) => if f > 0 && (low == 0 || f < low) {
                f
            } else {
                low
            },
            None => low,
        }
    }
}

/// Highest pressed fret among the first `n` slots, 0 if none is pressed.
pub open spec fn highest_fretted(v: Seq<Option<u8>>, n: int) -> u8
    decreases n,
{
    if n <= 0 {
        0
    } else {
        let high = highest_fretted(v, n - 1);
        match v[n - 1] {
            Some(f) => if f > high {
                f
            } else {
                high
            },
            None => high,
        }
    }
}

/// Index of the first slot at or after `i` pressed at `fret`, the length if
/// there is none.
pub open spec fn first_at(v: Seq<Option<u8>>, fret: u8, i: int) -> int
    decreases v.len() - i,
{
    if i < 0 || i >= v.len() {
        v.len() as int
    } else if v[i] == Some(fret) {
        i
    } else {
        first_at(v, fret, i + 1)
    }
}

/// Slots pressed at `fret` with an index from `from` up to `n`.
pub open spec fn held_at(v: Seq<Option<u8>>, fret: u8, from: int, n: int) -> int
    decreases n,
{
    if n <= from || n <= 0 {
        0
    } else {
        held_at(v, fret, from, n - 1) + if v[n - 1] == Some(fret) {
            1int
        } else {
            0int
        }
    }
}

/// Index of the last pressed slot among the first `n`, -1 if there is none.
pub open spec fn prev_fretted(v: Seq<Option<u8>>, n: int) -> int
    decreases n,
{
    if n <= 0 {
        -1
    } else if is_fretted(v[n - 1]) {
        n - 1
    } else {
        prev_fretted(v, n - 1)
    }
}

pub open spec fn fret_distance(a: u8, b: u8) -> u8 {
    if a < b {
        (b - a) as u8
    } else {
        (a - b) as u8
    }
}

/// The stretches between neighbouring pressed strings among the first `n`
/// slots: fret distance, and muted strings between the two.
pub open spec fn stretches(v: Seq<Option<u8>>, n: int) -> Seq<(u8, usize)>
    decreases n,
{
    if n <= 0 {
        Seq::empty()
    } else {
        let earlier = stretches(v, n - 1);
        let p = prev_fretted(v, n - 1);
        if is_fretted(v[n - 1]) && p >= 0 {
            earlier.push(
                (
                    fret_distance(v[p].unwrap(), v[n - 1].unwrap()),
                    (muted_among(v, n - 1) - muted_among(v, p + 1)) as usize,
                ),
            )
        } else {
            earlier
        }
    }
}

/// Muted strings before the first played one.
pub open spec fn leading_mutes(v: Seq<Option<u8>>) -> int {
    first_played(v, 0)
}

/// Muted strings after the last played one.
pub open spec fn trailing_mutes(v: Seq<Option<u8>>) -> int {
    v.len() - played_end(v, v.len() as int)
}

/// Muted strings between the first and the last played one.
pub open spec fn inner_mutes(v: Seq<Option<u8>>) -> int {
    muted_among(v, played_end(v, v.len() as int)) - muted_among(v, first_played(v, 0))
}

/// Strings pressed at the lowest fret after the last open string.
pub open spec fn shared_lowest(v: Seq<Option<u8>>) -> int {
    let n = v.len() as int;
    held_at(v, lowest_fretted(v, n), open_end(v, n), n)
}

/// Frets between the lowest and the highest pressed fret beyond the free span.
pub open spec fn span(v: Seq<Option<u8>>) -> u8 {
    let n = v.len() as int;
    let width = highest_fretted(v, n) - lowest_fretted(v, n);
    if width > FREE_SPAN {
        (width - FREE_SPAN) as u8
    } else {
        0
    }
}

/// The fret of the barre that the shape is held with, 0 if it has none.
///
/// A barre lies across the lowest pressed fret when at least four strings
/// are pressed, at least two of them at that fret after the last open
/// string, and no open string follows the first string pressed there.
pub open spec fn barre_fret(v: Seq<Option<u8>>) -> u8 {
    let n = v.len() as int;
    let low = lowest_fretted(v, n);
    if fretted_among(v, n) >= BARRE_MIN_FRETTED && shared_lowest(v) >= BARRE_MIN_SHARED && low > 0
        && open_end(v, n) <= first_at(v, low, 0) {
        low
    } else {
        0
    }
}

/// Fingers that the shape needs beside the one that holds a barre.
pub open spec fn fingers(v: Seq<Option<u8>>) -> int {
    let n = v.len() as int;
    if barre_fret(v) > 0 {
        fretted_among(v, n) - shared_lowest(v)
    } else {
        fretted_among(v, n)
    }
}

/// Some string sounds below the fret where the neck gets out of reach.
pub open spec fn within_reach(v: Seq<Option<u8>>) -> bool {
    exists|i: int| 0 <= i < v.len() && (#[trigger] v[i] matches Some(f) && f < REACH)
}

/// A hand can hold the shape: it has fingers enough, with or without a
/// barre, and not every sounding string lies at the twelfth fret or beyond.
pub open spec fn playable(v: Seq<Option<u8>>) -> bool {
    &&& barre_fret(v) == 0 ==> fingers(v) <= MAX_FINGERS
    &&& barre_fret(v) > 0 ==> fingers(v) <= MAX_FINGERS_BARRE
    &&& within_reach(v)
}

/// The mathematical value of a [`Complexity`].
pub struct Measures {
    pub mutes: int,
    pub leading_mutes: int,
    pub trailing_mutes: int,
    pub inner_mutes: int,
    pub lowest_fret: u8,
    pub highest_fret: u8,
    pub span: u8,
    pub barre: u8,
    pub fingers: int,
    pub last_open: int,
    pub stretches: Seq<(u8, usize)>,
    pub tie_break: u64,
}

impl View for Complexity {
    type V = Measures;

    open spec fn view(&self) -> Measures {
        Measures {
            mutes: self.mutes as int,
            leading_mutes: self.leading_mutes as int,
            trailing_mutes: self.trailing_mutes as int,
            inner_mutes: self.inner_mutes as int,
            lowest_fret: self.lowest_fret,
            highest_fret: self.highest_fret,
            span: self.span,
            barre: self.barre,
            fingers: self.fingers as int,
            last_open: self.last_open as int,
            stretches: self.stretches@,
            tie_break: self.tie_break,
        }
    }
}

/// The measures of the slots `v`.
pub open spec fn measures_of(v: Seq<Option<u8>>) -> Measures {
    let n = v.len() as int;
    Measures {
        mutes: muted_among(v, n),
        leading_mutes: leading_mutes(v),
        trailing_mutes: trailing_mutes(v),
        inner_mutes: inner_mutes(v),
        lowest_fret: lowest_fretted(v, n),
        highest_fret: highest_fretted(v, n),
        span: span(v),
        barre: barre_fret(v),
        fingers: fingers(v),
        last_open: open_end(v, n),
        stretches: stretches(v, n),
        tie_break: shape_hash(v),
    }
}

/// Every slot is muted, open or pressed, and the counts and ends of a
/// prefix lie within it.
pub proof fn lemma_counts_bounded(v: Seq<Option<u8>>, n: int)
    requires
        0 <= n <= v.len(),
    ensures
        0 <= muted_among(v, n) <= n,
        0 <= open_among(v, n) <= n,
        0 <= fretted_among(v, n) <= n,
        muted_among(v, n) + open_among(v, n) + fretted_among(v, n) == n,
        0 <= played_end(v, n) <= n,
        0 <= open_end(v, n) <= n,
        -1 <= prev_fretted(v, n) < n,
        prev_fretted(v, n) >= 0 ==> is_fretted(v[prev_fretted(v, n)]),
    decreases n,
{
    if n > 0 {
        lemma_counts_bounded(v, n - 1);
    }
}

/// No more strings are pressed at one fret than are pressed at all.
pub proof fn lemma_held_bounded(v: Seq<Option<u8>>, fret: u8, from: int, n: int)
    requires
        0 <= n <= v.len(),
        0 <= from,
        fret > 0,
    ensures
        0 <= held_at(v, fret, from, n) <= fretted_among(v, n),
    decreases n,
{
    if n > 0 {
        lemma_held_bounded(v, fret, from, n - 1);
    }
}

/// Before the first played slot every slot is muted.
pub proof fn lemma_first_played(v: Seq<Option<u8>>, i: int)
    requires
        0 <= i <= v.len(),
    ensures
        i <= first_played(v, i) <= v.len(),
        forall|j: int| i <= j < first_played(v, i) ==> v[j] is None,
        first_played(v, i) < v.len() ==> v[first_played(v, i)] is Some,
    decreases v.len() - i,
{
    if i < v.len() && v[i] is None {
        lemma_first_played(v, i + 1);
    }
}

fn count_muted(v: &Vec<Option<u8>>) -> (count: usize)
    ensures
        count == muted_among(v@, v@.len() as int),
{
    let mut count: usize = 0;
    let mut i: usize = 0;
    while i < v.len()
        invariant
            i <= v.len(),
            count == muted_among(v@, i as int),
            count <= i,
        decreases v.len() - i,
    {
        if v[i].is_none() {
            count = count + 1;
        }
        i = i + 1;
    }
    count
}

fn count_fretted(v: &Vec<Option<u8>>) -> (count: usize)
    ensures
        count == fretted_among(v@, v@.len() as int),
{
    let mut count: usize = 0;
    let mut i: usize = 0;
    while i < v.len()
        invariant
            i <= v.len(),
            count == fretted_among(v@, i as int),
            count <= i,
        decreases v.len() - i,
    {
        match v[i] {
            Some(f) => {
                if f > 0 {
                    count = count + 1;
                }
            },
            None => {},
        }
        i = i + 1;
    }
    count
}

fn find_first_played(v: &Vec<Option<u8>>) -> (first: usize)
    ensures
        first == first_played(v@, 0),
        first <= v.len(),
{
    let mut i: usize = 0;
    while i < v.len() && v[i].is_none()
        invariant
            i <= v.len(),
            first_played(v@, 0) == first_played(v@, i as int),
        decreases v.len() - i,
    {
        i = i + 1;
    }
    i
}

fn find_played_end(v: &Vec<Option<u8>>) -> (end: usize)
    ensures
        end == played_end(v@, v@.len() as int),
        end <= v.len(),
{
    let mut n: usize = v.len();
    while n > 0 && v[n - 1].is_none()
        invariant
            n <= v.len(),
            played_end(v@, v@.len() as int) == played_end(v@, n as int),
        decreases n,
    {
        n = n - 1;
    }
    n
}

fn find_open_end(v: &Vec<Option<u8>>) -> (end: usize)
    ensures
        end == open_end(v@, v@.len() as int),
        end <= v.len(),
{
    let mut n: usize = v.len();
    while n > 0 && v[n - 1] != Some(0u8)
        invariant
            n <= v.len(),
            open_end(v@, v@.len() as int) == open_end(v@, n as int),
        decreases n,
    {
        n = n - 1;
    }
    n
}

fn count_muted_between(v: &Vec<Option<u8>>, from: usize, to: usize) -> (count: usize)
    requires
        from <= to <= v.len(),
    ensures
        count == muted_among(v@, to as int) - muted_among(v@, from as int),
{
    let mut count: usize = 0;
    let mut i: usize = from;
    while i < to
        invariant
            from <= i <= to <= v.len(),
            count == muted_among(v@, i as int) - muted_among(v@, from as int),
            count <= i - from,
        decreases to - i,
    {
        if v[i].is_none() {
            count = count + 1;
        }
        i = i + 1;
    }
    count
}

fn find_lowest_fretted(v: &Vec<Option<u8>>) -> (low: u8)
    ensures
        low == lowest_fretted(v@, v@.len() as int),
{
    let mut low: u8 = 0;
    let mut i: usize = 0;
    while i < v.len()
        invariant
            i <= v.len(),
            low == lowest_fretted(v@, i as int),
        decreases v.len() - i,
    {
        match v[i] {
            Some(f) => {
                if f > 0 && (low == 0 || f < low) {
                    low = f;
                }
            },
            None => {},
        }
        i = i + 1;
    }
    low
}

fn find_highest_fretted(v: &Vec<Option<u8>>) -> (high: u8)
    ensures
        high == highest_fretted(v@, v@.len() as int),
{
    let mut high: u8 = 0;
    let mut i: usize = 0;
    while i < v.len()
        invariant
            i <= v.len(),
            high == highest_fretted(v@, i as int),
        decreases v.len() - i,
    {
        match v[i] {
            Some(f) => {
                if f > high {
                    high = f;
                }
            },
            None => {},
        }
        i = i + 1;
    }
    high
}

fn find_first_at(v: &Vec<Option<u8>>, fret: u8) -> (first: usize)
    ensures
        first == first_at(v@, fret, 0),
        first <= v.len(),
{
    let mut i: usize = 0;
    while i < v.len() && v[i] != Some(fret)
        invariant
            i <= v.len(),
            first_at(v@, fret, 0) == first_at(v@, fret, i as int),
        decreases v.len() - i,
    {
        i = i + 1;
    }
    i
}

fn count_held_at(v: &Vec<Option<u8>>, fret: u8, from: usize) -> (count: usize)
    requires
        from <= v.len(),
    ensures
        count == held_at(v@, fret, from as int, v@.len() as int),
{
    let mut count: usize = 0;
    let mut i: usize = from;
    while i < v.len()
        invariant
            from <= i <= v.len(),
            count == held_at(v@, fret, from as int, i as int),
            count <= i - from,
        decreases v.len() - i,
    {
        if v[i] == Some(fret) {
            count = count + 1;
        }
        i = i + 1;
    }
    count
}

fn sounds_within_reach(v: &Vec<Option<u8>>) -> (found: bool)
    ensures
        found == within_reach(v@),
{
    let mut i: usize = 0;
    while i < v.len()
        invariant
            i <= v.len(),
            forall|j: int| 0 <= j < i ==> !(#[trigger] v@[j] matches Some(f) && f < REACH),
        decreases v.len() - i,
    {
        match v[i] {
            Some(f) => {
                if f < REACH {
                    return true;
                }
            },
            None => {},
        }
        i = i + 1;
    }
    false
}

fn abs_diff(a: u8, b: u8) -> (d: u8)
    ensures
        d == fret_distance(a, b),
{
    if a < b {
        b - a
    } else {
        a - b
    }
}

fn measure_stretches(v: &Vec<Option<u8>>) -> (terms: Vec<(u8, usize)>)
    ensures
        terms@ == stretches(v@, v@.len() as int),
{
    let mut terms: Vec<(u8, usize)> = Vec::new();
    let mut prev: Option<u8> = None;
    let mut skipped: usize = 0;
    let mut i: usize = 0;
    while i < v.len()
        invariant
            i <= v.len(),
            terms@ == stretches(v@, i as int),
            prev is Some <==> prev_fretted(v@, i as int) >= 0,
            prev matches Some(p) ==> v@[prev_fretted(v@, i as int)] == Some(p),
            prev is Some ==> skipped == muted_among(v@, i as int) - muted_among(
                v@,
                prev_fretted(v@, i as int) + 1,
            ),
            prev is Some ==> skipped <= i,
        decreases v.len() - i,
    {
        proof {
            lemma_counts_bounded(v@, i as int);
        }
        match v[i] {
            Some(f) => {
                if f > 0 {
                    match prev {
                        Some(p) => {
                            terms.push((abs_diff(p, f), skipped));
                        },
                        None => {},
                    }
                    prev = Some(f);
                    skipped = 0;
                }
            },
            None => {
                if prev.is_some() {
                    skipped = skipped + 1;
                }
            },
        }
        i = i + 1;
    }
    terms
}

impl FormattedChord {
    /// Number of strings.
    pub fn strings(&self) -> (n: usize)
        ensures
            n == self.v@.len(),
    {
        self.v.len()
    }

    /// Measures the shape, or finds that no hand can hold it.
    ///
    /// Returns `None` exactly for an unplayable shape; otherwise the measures
    /// of the slots.
    pub fn evaluate_complexity(&self) -> (r: Option<Complexity>)
        ensures
            r is Some <==> playable(self.v@),
            r matches Some(c) ==> c@ == measures_of(self.v@),
    {
        let v = &self.v;
        let ghost n = v@.len() as int;
        let fretted = count_fretted(v);
        let low = find_lowest_fretted(v);
        let high = find_highest_fretted(v);
        let last_open = find_open_end(v);
        let shared = count_held_at(v, low, last_open);
        let first_low = find_first_at(v, low);
        proof {
            lemma_counts_bounded(v@, n);
            lemma_lowest_below_highest(v@, n);
            if low > 0 {
                lemma_held_bounded(v@, low, last_open as int, n);
            }
        }
        let barre: u8 = if fretted >= BARRE_MIN_FRETTED && shared >= BARRE_MIN_SHARED && low > 0
            && last_open <= first_low {
            low
        } else {
            0
        };
        let fingers: usize = if barre > 0 {
            fretted - shared
        } else {
            fretted
        };
        if barre == 0 && fingers > MAX_FINGERS || barre > 0 && fingers > MAX_FINGERS_BARRE {
            return None;
        }
        if !sounds_within_reach(v) {
            return None;
        }
        let first = find_first_played(v);
        let end = find_played_end(v);
        proof {
            let i = choose|i: int| 0 <= i < v@.len() && (#[trigger] v@[i] matches Some(f) && f < REACH);
            assert(v@[i] is Some);
            lemma_played_order(v@);
        }
        let width = high - low;
        Some(
            Complexity {
                mutes: count_muted(v),
                leading_mutes: first,
                trailing_mutes: v.len() - end,
                inner_mutes: count_muted_between(v, first, end),
                lowest_fret: low,
                highest_fret: high,
                span: if width > FREE_SPAN {
                    width - FREE_SPAN
                } else {
                    0
                },
                barre,
                fingers,
                last_open,
                stretches: measure_stretches(v),
                tie_break: calculate_hash(v),
            },
        )
    }
}

/// The lowest pressed fret is not above the highest.
pub proof fn lemma_lowest_below_highest(v: Seq<Option<u8>>, n: int)
    requires
        0 <= n <= v.len(),
    ensures
        lowest_fretted(v, n) <= highest_fretted(v, n),
    decreases n,
{
    if n > 0 {
        lemma_lowest_below_highest(v, n - 1);
    }
}

/// A shape in which some string is played has its first played string
/// before the end of its last.
pub proof fn lemma_played_order(v: Seq<Option<u8>>)
    requires
        exists|i: int| 0 <= i < v.len() && (#[trigger] v[i]) is Some,
    ensures
        first_played(v, 0) < played_end(v, v.len() as int),
{
    let i = choose|i: int| 0 <= i < v.len() && (#[trigger] v[i]) is Some;
    lemma_first_played(v, 0);
    lemma_played_end_after(v, v.len() as int, i);
}

/// The last played slot is not before any played slot.
pub proof fn lemma_played_end_after(v: Seq<Option<u8>>, n: int, i: int)
    requires
        0 <= i < n <= v.len(),
        v[i] is Some,
    ensures
        i < played_end(v, n) <= n,
    decreases n,
{
    if v[n - 1] is None {
        lemma_played_end_after(v, n - 1, i);
    }
}

/// From the last played slot on every slot is muted.
pub proof fn lemma_played_end(v: Seq<Option<u8>>, n: int)
    requires
        0 <= n <= v.len(),
    ensures
        0 <= played_end(v, n) <= n,
        muted_among(v, n) - muted_among(v, played_end(v, n)) == n - played_end(v, n),
    decreases n,
{
    if n > 0 && v[n - 1] is None {
        lemma_played_end(v, n - 1);
    }
}

/// Every slot of a prefix of muted slots counts as muted.
pub proof fn lemma_muted_prefix(v: Seq<Option<u8>>, n: int)
    requires
        0 <= n <= v.len(),
        forall|j: int| 0 <= j < n ==> v[j] is None,
    ensures
        muted_among(v, n) == n,
    decreases n,
{
    if n > 0 {
        lemma_muted_prefix(v, n - 1);
    }
}

/// In a shape with a played string the muted strings are those before the
/// first played one, those after the last, and those between played ones.
pub proof fn lemma_mutes_split(v: Seq<Option<u8>>)
    requires
        exists|i: int| 0 <= i < v.len() && (#[trigger] v[i]) is Some,
    ensures
        muted_among(v, v.len() as int) == leading_mutes(v) + inner_mutes(v) + trailing_mutes(v),
        0 <= inner_mutes(v),
{
    let n = v.len() as int;
    lemma_first_played(v, 0);
    lemma_muted_prefix(v, first_played(v, 0));
    lemma_played_end(v, n);
    lemma_played_order(v);
    lemma_inner_counted(v, first_played(v, 0), played_end(v, n));
}

/// Muted slots between two indices are not fewer than none.
pub proof fn lemma_inner_counted(v: Seq<Option<u8>>, a: int, b: int)
    requires
        0 <= a <= b <= v.len(),
    ensures
        0 <= muted_among(v, b) - muted_among(v, a) <= b - a,
    decreases b - a,
{
    if a < b {
        lemma_inner_counted(v, a, b - 1);
    }
}

} // verus!
