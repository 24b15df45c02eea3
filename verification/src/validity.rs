//! What makes a fingering one of a chord, and the proof that the search
//! finds such fingerings, all of them, and nothing else.
use crate::fingering::candidate_fits;
use crate::fingering::candidate_fret;
use crate::fingering::candidates;
use crate::fingering::completion;
use crate::fingering::enumerate_fret;
use crate::fingering::enumerate_frets;
use crate::fingering::enumerate_from;
use crate::fingering::enumerate_strings;
use crate::fingering::lemma_without_class;
use crate::fingering::only_optional;
use crate::fingering::prepend_all;
use crate::fingering::without_class;
use crate::fingering::Fingering;
use crate::pitch::sounding_class;
use crate::pitch::FRET_RANGE;
use vstd::prelude::*;

verus! {

/// The fret is the open string or one of the five frets from `shift` on.
/// A fret has a fret number, so it is none beyond the last of them.
pub open spec fn in_window(shift: u8, fret: u8) -> bool {
    fret == 0 || shift <= fret < shift + FRET_RANGE
}

/// Pitch class that the `i`-th string of a fingering sounds.
pub open spec fn class_at(tuning: Seq<u8>, hold: Seq<(usize, u8)>, i: int) -> u8 {
    sounding_class(tuning[hold[i].0 as int], hold[i].1)
}

/// Some string of the fingering sounds the pitch class.
pub open spec fn sounds(tuning: Seq<u8>, hold: Seq<(usize, u8)>, class: u8) -> bool {
    exists|i: int| 0 <= i < hold.len() && #[trigger] class_at(tuning, hold, i) == class
}

/// The strings lie on the tuning from `start` on, by strictly rising index,
/// each at a fret of the window and sounding a pitch class of the chord.
pub open spec fn placed(
    tuning: Seq<u8>,
    chord: Seq<u8>,
    start: int,
    shift: u8,
    hold: Seq<(usize, u8)>,
) -> bool {
    &&& forall|i: int| 0 <= i < hold.len() ==> start <= (#[trigger] hold[i]).0 < tuning.len()
    &&& forall|i: int, j: int|
        0 <= i < j < hold.len() ==> (#[trigger] hold[i]).0 < (#[trigger] hold[j]).0
    &&& forall|i: int| 0 <= i < hold.len() ==> in_window(shift, (#[trigger] hold[i]).1)
    &&& forall|i: int|
        0 <= i < hold.len() ==> chord.contains(#[trigger] class_at(tuning, hold, i))
}

/// The fingering sounds every pitch class of `left`; or, where it is
/// flagged, every one but `optional`, which is in `left` and does not sound.
pub open spec fn completes(tuning: Seq<u8>, left: Seq<u8>, optional: u8, f: Fingering) -> bool {
    if f.no_fifth {
        &&& left.contains(optional)
        &&& !sounds(tuning, f.hold, optional)
        &&& forall|x: u8| #[trigger] left.contains(x) && x != optional ==> sounds(tuning, f.hold, x)
    } else {
        forall|x: u8| #[trigger] left.contains(x) ==> sounds(tuning, f.hold, x)
    }
}

/// The fingering finds what is `left` of the chord on the strings from
/// `start` on.
pub open spec fn finds(
    tuning: Seq<u8>,
    chord: Seq<u8>,
    left: Seq<u8>,
    start: int,
    shift: u8,
    optional: u8,
    f: Fingering,
) -> bool {
    placed(tuning, chord, start, shift, f.hold) && completes(tuning, left, optional, f)
}

/// The fingering is one of the chord with the hand at `shift`. A chord has
/// a pitch class: nothing is a fingering of an empty chord.
pub open spec fn valid_fingering(
    tuning: Seq<u8>,
    chord: Seq<u8>,
    shift: u8,
    optional: u8,
    f: Fingering,
) -> bool {
    chord.len() > 0 && finds(tuning, chord, chord, 0, shift, optional, f)
}

/// What is in a joined sequence is in one of its parts.
pub proof fn lemma_concat_contains<A>(a: Seq<A>, b: Seq<A>, x: A)
    ensures
        (a + b).contains(x) <==> a.contains(x) || b.contains(x),
{
    if a.contains(x) {
        let i = choose|i: int| 0 <= i < a.len() && a[i] == x;
        assert((a + b)[i] == x);
    }
    if b.contains(x) {
        let i = choose|i: int| 0 <= i < b.len() && b[i] == x;
        assert((a + b)[a.len() + i] == x);
    }
    if (a + b).contains(x) {
        let i = choose|i: int| 0 <= i < (a + b).len() && (a + b)[i] == x;
        if i < a.len() {
            assert(a[i] == x);
        } else {
            assert(b[i - a.len()] == x);
        }
    }
}

/// A fingering with one more string in front sounds what that string
/// sounds and what the others did.
pub proof fn lemma_sounds_cons(tuning: Seq<u8>, item: (usize, u8), hold: Seq<(usize, u8)>, x: u8)
    ensures
        sounds(tuning, seq![item] + hold, x) <==> sounding_class(tuning[item.0 as int], item.1) == x
            || sounds(tuning, hold, x),
{
    let longer = seq![item] + hold;
    if sounds(tuning, longer, x) {
        let i = choose|i: int| 0 <= i < longer.len() && #[trigger] class_at(tuning, longer, i) == x;
        if i > 0 {
            assert(longer[i] == hold[i - 1]);
            assert(class_at(tuning, hold, i - 1) == x);
        } else {
            assert(longer[0] == item);
        }
    }
    if sounding_class(tuning[item.0 as int], item.1) == x {
        assert(longer[0] == item);
        assert(class_at(tuning, longer, 0) == x);
    }
    if sounds(tuning, hold, x) {
        let i = choose|i: int| 0 <= i < hold.len() && #[trigger] class_at(tuning, hold, i) == x;
        assert(longer[i + 1] == hold[i]);
        assert(class_at(tuning, longer, i + 1) == x);
    }
}

/// Putting a string in front of a fingering completes `left` exactly when
/// the fingering completed what was left without that string's pitch class.
pub proof fn lemma_completes_step(
    tuning: Seq<u8>,
    left: Seq<u8>,
    optional: u8,
    item: (usize, u8),
    g: Fingering,
)
    ensures
        completes(
            tuning,
            left,
            optional,
            Fingering { hold: seq![item] + g.hold, no_fifth: g.no_fifth },
        ) <==> completes(
            tuning,
            without_class(left, sounding_class(tuning[item.0 as int], item.1)),
            optional,
            g,
        ),
{
    let class = sounding_class(tuning[item.0 as int], item.1);
    let rest = without_class(left, class);
    let longer = seq![item] + g.hold;
    let f = Fingering { hold: longer, no_fifth: g.no_fifth };
    lemma_without_class(left, class);
    lemma_sounds_cons(tuning, item, g.hold, optional);
    if completes(tuning, left, optional, f) {
        assert forall|x: u8| #[trigger] rest.contains(x) && (x != optional || !g.no_fifth)
            implies sounds(tuning, g.hold, x) by {
            assert(left.contains(x));
            lemma_sounds_cons(tuning, item, g.hold, x);
        }
        if g.no_fifth {
            assert(rest.contains(optional));
        }
        assert(completes(tuning, rest, optional, g));
    }
    if completes(tuning, rest, optional, g) {
        assert forall|x: u8| #[trigger] left.contains(x) && (x != optional || !g.no_fifth)
            implies sounds(tuning, longer, x) by {
            lemma_sounds_cons(tuning, item, g.hold, x);
            if x != class {
                assert(rest.contains(x));
            }
        }
        if g.no_fifth {
            assert(rest.contains(optional));
            assert(left.contains(optional));
        }
        assert(completes(tuning, left, optional, f));
    }
}

/// The fingering without strings completes `left` exactly where the search
/// records a completion.
pub proof fn lemma_completion(tuning: Seq<u8>, left: Seq<u8>, optional: u8, flag: bool)
    ensures
        completes(tuning, left, optional, Fingering { hold: Seq::empty(), no_fifth: flag })
            <==> completion(left, optional).contains(
            Fingering { hold: Seq::empty(), no_fifth: flag },
        ),
{
    let f = Fingering { hold: Seq::empty(), no_fifth: flag };
    let done = completion(left, optional);
    assert forall|x: u8| !sounds(tuning, f.hold, x) by {}
    if left.len() == 0 {
        assert(done[0] == Fingering { hold: Seq::empty(), no_fifth: false });
        assert forall|x: u8| !left.contains(x) by {}
    } else {
        assert(left.contains(left[0]));
        if only_optional(left, optional) {
            assert(done[0] == Fingering { hold: Seq::empty(), no_fifth: true });
            assert(left[0] == optional);
            assert forall|x: u8| #[trigger] left.contains(x) implies x == optional by {
                let i = choose|i: int| 0 <= i < left.len() && left[i] == x;
            }
        } else {
            if completes(tuning, left, optional, f) {
                if flag {
                    assert forall|i: int| 0 <= i < left.len() implies left[i] == optional by {
                        assert(left.contains(left[i]));
                    }
                }
                assert(false);
            }
        }
    }
}

/// A fingering that finds the chord from a string on finds it from any
/// earlier string on.
pub proof fn lemma_placed_earlier(
    tuning: Seq<u8>,
    chord: Seq<u8>,
    start: int,
    earlier: int,
    shift: u8,
    hold: Seq<(usize, u8)>,
)
    requires
        placed(tuning, chord, start, shift, hold),
        earlier <= start,
    ensures
        placed(tuning, chord, earlier, shift, hold),
{
}

/// Every fingering of the search finds what was left of the chord: its
/// strings rise, lie in the window, sound pitch classes of the chord only,
/// and cover what was left, but for the pitch class that may be left out.
pub proof fn lemma_search_sound(
    tuning: Seq<u8>,
    chord: Seq<u8>,
    left: Seq<u8>,
    start: int,
    shift: u8,
    optional: u8,
)
    requires
        0 <= start,
        tuning.len() <= usize::MAX,
    ensures
        forall|i: int|
            0 <= i < enumerate_from(tuning, chord, left, start, shift, optional).len()
                ==> finds(
                tuning,
                chord,
                left,
                start,
                shift,
                optional,
                #[trigger] enumerate_from(tuning, chord, left, start, shift, optional)[i],
            ),
    decreases tuning.len() - start, 2int, 0int,
{
    let done = completion(left, optional);
    let more = enumerate_strings(tuning, chord, left, start, shift, optional);
    let whole = enumerate_from(tuning, chord, left, start, shift, optional);
    lemma_strings_sound(tuning, chord, left, start, shift, optional);
    assert forall|i: int| 0 <= i < whole.len() implies finds(
        tuning,
        chord,
        left,
        start,
        shift,
        optional,
        #[trigger] whole[i],
    ) by {
        if i < done.len() {
            assert(whole[i] == done[i]);
            assert(done.contains(done[i]));
            assert(done[i].hold =~= Seq::empty());
            assert(done[i] == Fingering { hold: Seq::empty(), no_fifth: done[i].no_fifth });
            lemma_completion(tuning, left, optional, done[i].no_fifth);
        } else {
            assert(whole[i] == more[i - done.len()]);
        }
    }
}

/// Every fingering that starts on `string` or later finds what was left.
pub proof fn lemma_strings_sound(
    tuning: Seq<u8>,
    chord: Seq<u8>,
    left: Seq<u8>,
    string: int,
    shift: u8,
    optional: u8,
)
    requires
        0 <= string,
        tuning.len() <= usize::MAX,
    ensures
        forall|i: int|
            0 <= i < enumerate_strings(tuning, chord, left, string, shift, optional).len()
                ==> finds(
                tuning,
                chord,
                left,
                string,
                shift,
                optional,
                #[trigger] enumerate_strings(tuning, chord, left, string, shift, optional)[i],
            ),
    decreases tuning.len() - string, 1int, 0int,
{
    if string < tuning.len() {
        let here = enumerate_frets(tuning, chord, left, string, 0, shift, optional);
        let later = enumerate_strings(tuning, chord, left, string + 1, shift, optional);
        let whole = enumerate_strings(tuning, chord, left, string, shift, optional);
        lemma_frets_sound(tuning, chord, left, string, 0, shift, optional);
        lemma_strings_sound(tuning, chord, left, string + 1, shift, optional);
        assert forall|i: int| 0 <= i < whole.len() implies finds(
            tuning,
            chord,
            left,
            string,
            shift,
            optional,
            #[trigger] whole[i],
        ) by {
            if i < here.len() {
                assert(whole[i] == here[i]);
            } else {
                assert(whole[i] == later[i - here.len()]);
                lemma_placed_earlier(tuning, chord, string + 1, string, shift, whole[i].hold);
            }
        }
    }
}

/// Every fingering that starts on `string` at its `k`-th candidate fret or
/// a later one finds what was left.
pub proof fn lemma_frets_sound(
    tuning: Seq<u8>,
    chord: Seq<u8>,
    left: Seq<u8>,
    string: int,
    k: int,
    shift: u8,
    optional: u8,
)
    requires
        0 <= string < tuning.len(),
        0 <= k,
        tuning.len() <= usize::MAX,
    ensures
        forall|i: int|
            0 <= i < enumerate_frets(tuning, chord, left, string, k, shift, optional).len()
                ==> finds(
                tuning,
                chord,
                left,
                string,
                shift,
                optional,
                #[trigger] enumerate_frets(tuning, chord, left, string, k, shift, optional)[i],
            ),
    decreases tuning.len() - string, 0int, candidates() - k,
{
    if k < candidates() {
        let here = enumerate_fret(tuning, chord, left, string, k, shift, optional);
        let later = enumerate_frets(tuning, chord, left, string, k + 1, shift, optional);
        let whole = enumerate_frets(tuning, chord, left, string, k, shift, optional);
        lemma_fret_sound(tuning, chord, left, string, k, shift, optional);
        lemma_frets_sound(tuning, chord, left, string, k + 1, shift, optional);
        assert forall|i: int| 0 <= i < whole.len() implies finds(
            tuning,
            chord,
            left,
            string,
            shift,
            optional,
            #[trigger] whole[i],
        ) by {
            if i < here.len() {
                assert(whole[i] == here[i]);
            } else {
                assert(whole[i] == later[i - here.len()]);
            }
        }
    }
}

/// Every fingering that starts on `string` at its `k`-th candidate fret
/// finds what was left.
pub proof fn lemma_fret_sound(
    tuning: Seq<u8>,
    chord: Seq<u8>,
    left: Seq<u8>,
    string: int,
    k: int,
    shift: u8,
    optional: u8,
)
    requires
        0 <= string < tuning.len(),
        0 <= k < candidates(),
        tuning.len() <= usize::MAX,
    ensures
        forall|i: int|
            0 <= i < enumerate_fret(tuning, chord, left, string, k, shift, optional).len()
                ==> finds(
                tuning,
                chord,
                left,
                string,
                shift,
                optional,
                #[trigger] enumerate_fret(tuning, chord, left, string, k, shift, optional)[i],
            ),
    decreases tuning.len() - string, 0int, 0int,
{
    let fret = candidate_fret(shift, k);
    let class = sounding_class(tuning[string], fret);
    let item = (string as usize, fret);
    if candidate_fits(shift, k) && chord.contains(class) {
        let rest = without_class(left, class);
        let sub = enumerate_from(tuning, chord, rest, string + 1, shift, optional);
        let whole = enumerate_fret(tuning, chord, left, string, k, shift, optional);
        lemma_search_sound(tuning, chord, rest, string + 1, shift, optional);
        assert forall|i: int| 0 <= i < whole.len() implies finds(
            tuning,
            chord,
            left,
            string,
            shift,
            optional,
            #[trigger] whole[i],
        ) by {
            let g = sub[i];
            let f = whole[i];
            assert(finds(tuning, chord, rest, string + 1, shift, optional, g));
            assert(f == Fingering { hold: seq![item] + g.hold, no_fifth: g.no_fifth });
            lemma_completes_step(tuning, left, optional, item, g);
            lemma_placed_cons(tuning, chord, string, shift, fret, g.hold);
        }
    }
}

/// A string in the window that sounds a pitch class of the chord may be
/// put before the strings that follow it.
pub proof fn lemma_placed_cons(
    tuning: Seq<u8>,
    chord: Seq<u8>,
    string: int,
    shift: u8,
    fret: u8,
    hold: Seq<(usize, u8)>,
)
    requires
        0 <= string < tuning.len() <= usize::MAX,
        in_window(shift, fret),
        chord.contains(sounding_class(tuning[string], fret)),
        placed(tuning, chord, string + 1, shift, hold),
    ensures
        placed(tuning, chord, string, shift, seq![(string as usize, fret)] + hold),
{
    let item = (string as usize, fret);
    let longer = seq![item] + hold;
    assert forall|i: int| 0 <= i < longer.len() implies string <= (#[trigger] longer[i]).0
        < tuning.len() && in_window(shift, longer[i].1) by {
        if i > 0 {
            assert(longer[i] == hold[i - 1]);
        }
    }
    assert forall|i: int, j: int| 0 <= i < j < longer.len() implies (#[trigger] longer[i]).0 < (
    #[trigger] longer[j]).0 by {
        assert(longer[j] == hold[j - 1]);
        if i > 0 {
            assert(longer[i] == hold[i - 1]);
        }
    }
    assert forall|i: int| 0 <= i < longer.len() implies chord.contains(
        #[trigger] class_at(tuning, longer, i),
    ) by {
        if i > 0 {
            assert(longer[i] == hold[i - 1]);
            assert(class_at(tuning, longer, i) == class_at(tuning, hold, i - 1));
        }
    }
}

/// The strings after the first of a placed fingering are placed after it.
pub proof fn lemma_placed_tail(
    tuning: Seq<u8>,
    chord: Seq<u8>,
    start: int,
    shift: u8,
    hold: Seq<(usize, u8)>,
)
    requires
        hold.len() > 0,
        placed(tuning, chord, start, shift, hold),
    ensures
        placed(tuning, chord, hold[0].0 + 1, shift, hold.skip(1)),
        start <= hold[0].0 < tuning.len(),
        in_window(shift, hold[0].1),
        chord.contains(sounding_class(tuning[hold[0].0 as int], hold[0].1)),
{
    let tail = hold.skip(1);
    assert(chord.contains(class_at(tuning, hold, 0)));
    assert forall|i: int| 0 <= i < tail.len() implies hold[0].0 + 1 <= (#[trigger] tail[i]).0
        < tuning.len() && in_window(shift, tail[i].1) by {
        assert(tail[i] == hold[i + 1]);
    }
    assert forall|i: int, j: int| 0 <= i < j < tail.len() implies (#[trigger] tail[i]).0 < (
    #[trigger] tail[j]).0 by {
        assert(tail[i] == hold[i + 1]);
        assert(tail[j] == hold[j + 1]);
    }
    assert forall|i: int| 0 <= i < tail.len() implies chord.contains(
        #[trigger] class_at(tuning, tail, i),
    ) by {
        assert(tail[i] == hold[i + 1]);
        assert(class_at(tuning, tail, i) == class_at(tuning, hold, i + 1));
    }
}

/// What the search finds at one candidate fret of a string is among what
/// it finds from an earlier candidate fret of that string on.
pub proof fn lemma_frets_hold(
    tuning: Seq<u8>,
    chord: Seq<u8>,
    left: Seq<u8>,
    string: int,
    from: int,
    k: int,
    shift: u8,
    optional: u8,
    f: Fingering,
)
    requires
        0 <= string < tuning.len(),
        0 <= from <= k < candidates(),
        enumerate_fret(tuning, chord, left, string, k, shift, optional).contains(f),
    ensures
        enumerate_frets(tuning, chord, left, string, from, shift, optional).contains(f),
    decreases k - from,
{
    let here = enumerate_fret(tuning, chord, left, string, from, shift, optional);
    let later = enumerate_frets(tuning, chord, left, string, from + 1, shift, optional);
    if from < k {
        lemma_frets_hold(tuning, chord, left, string, from + 1, k, shift, optional, f);
    }
    lemma_concat_contains(here, later, f);
}

/// What the search finds on one string is among what it finds from an
/// earlier string on.
pub proof fn lemma_strings_hold(
    tuning: Seq<u8>,
    chord: Seq<u8>,
    left: Seq<u8>,
    from: int,
    string: int,
    shift: u8,
    optional: u8,
    f: Fingering,
)
    requires
        0 <= from <= string < tuning.len(),
        enumerate_frets(tuning, chord, left, string, 0, shift, optional).contains(f),
    ensures
        enumerate_strings(tuning, chord, left, from, shift, optional).contains(f),
    decreases string - from,
{
    let here = enumerate_frets(tuning, chord, left, from, 0, shift, optional);
    let later = enumerate_strings(tuning, chord, left, from + 1, shift, optional);
    if from < string {
        lemma_strings_hold(tuning, chord, left, from + 1, string, shift, optional, f);
    }
    lemma_concat_contains(here, later, f);
}

/// The search misses no fingering: whatever finds what was left of the
/// chord on the strings from `start` on is among its results.
pub proof fn lemma_search_complete(
    tuning: Seq<u8>,
    chord: Seq<u8>,
    left: Seq<u8>,
    start: int,
    shift: u8,
    optional: u8,
    f: Fingering,
)
    requires
        0 <= start,
        tuning.len() <= usize::MAX,
        finds(tuning, chord, left, start, shift, optional, f),
    ensures
        enumerate_from(tuning, chord, left, start, shift, optional).contains(f),
    decreases f.hold.len(),
{
    let done = completion(left, optional);
    let more = enumerate_strings(tuning, chord, left, start, shift, optional);
    if f.hold.len() == 0 {
        assert(f.hold =~= Seq::empty());
        assert(f == Fingering { hold: Seq::empty(), no_fifth: f.no_fifth });
        lemma_completion(tuning, left, optional, f.no_fifth);
    } else {
        let item = f.hold[0];
        let string = item.0 as int;
        let fret = item.1;
        let g = Fingering { hold: f.hold.skip(1), no_fifth: f.no_fifth };
        let class = sounding_class(tuning[string], fret);
        let rest = without_class(left, class);
        assert(f.hold =~= seq![item] + g.hold);
        assert(f == Fingering { hold: seq![item] + g.hold, no_fifth: g.no_fifth });
        lemma_placed_tail(tuning, chord, start, shift, f.hold);
        lemma_completes_step(tuning, left, optional, item, g);
        lemma_search_complete(tuning, chord, rest, string + 1, shift, optional, g);
        let sub = enumerate_from(tuning, chord, rest, string + 1, shift, optional);
        let j = choose|j: int| 0 <= j < sub.len() && sub[j] == g;
        let k: int = if fret == 0 {
            FRET_RANGE as int
        } else {
            fret - shift
        };
        assert(candidate_fits(shift, k) && candidate_fret(shift, k) == fret);
        assert((string as usize, fret) == item);
        let here = enumerate_fret(tuning, chord, left, string, k, shift, optional);
        assert(here == prepend_all(item, sub));
        assert(here[j] == f);
        lemma_frets_hold(tuning, chord, left, string, 0, k, shift, optional, f);
        lemma_strings_hold(tuning, chord, left, start, string, shift, optional, f);
    }
    lemma_concat_contains(done, more, f);
}

/// A fingering of a chord sounds pitch classes of the chord only, sounds
/// every pitch class of the chord but, where it is flagged, the one that
/// may be left out, and names no string twice.
pub proof fn lemma_fingering_properties(
    tuning: Seq<u8>,
    chord: Seq<u8>,
    shift: u8,
    optional: u8,
    f: Fingering,
)
    requires
        valid_fingering(tuning, chord, shift, optional, f),
    ensures
        forall|i: int| 0 <= i < f.hold.len() ==> chord.contains(#[trigger] class_at(tuning, f.hold, i)),
        forall|x: u8| #[trigger] chord.contains(x) && x != optional ==> sounds(tuning, f.hold, x),
        !f.no_fifth ==> forall|x: u8| #[trigger] chord.contains(x) ==> sounds(tuning, f.hold, x),
        f.no_fifth ==> chord.contains(optional) && !sounds(tuning, f.hold, optional),
        forall|i: int, j: int|
            0 <= i < j < f.hold.len() ==> (#[trigger] f.hold[i]).0 != (#[trigger] f.hold[j]).0,
        forall|i: int|
            0 <= i < f.hold.len() ==> (#[trigger] f.hold[i]).0 < tuning.len() && in_window(
                shift,
                f.hold[i].1,
            ),
{
}

/// The fingering starts on `string` at the fret `fret`.
pub open spec fn starts_with(f: Fingering, string: int, fret: u8) -> bool {
    f.hold.len() > 0 && f.hold[0].0 == string && f.hold[0].1 == fret
}

/// The fingering starts on `string` at its `k`-th candidate fret or a
/// later one.
pub open spec fn starts_from(f: Fingering, string: int, shift: u8, k: int) -> bool {
    exists|later: int|
        k <= later < candidates() && candidate_fits(shift, later) && #[trigger] starts_with(
            f,
            string,
            candidate_fret(shift, later),
        )
}

/// The fingering starts on `string` or a later string.
pub open spec fn starts_after(f: Fingering, string: int) -> bool {
    f.hold.len() > 0 && f.hold[0].0 >= string
}

/// Two sequences without a repeat and without a common entry join to a
/// sequence without a repeat.
pub proof fn lemma_concat_distinct<A>(a: Seq<A>, b: Seq<A>)
    requires
        a.no_duplicates(),
        b.no_duplicates(),
        forall|i: int, j: int| 0 <= i < a.len() && 0 <= j < b.len() ==> a[i] != b[j],
    ensures
        (a + b).no_duplicates(),
{
    let whole = a + b;
    assert forall|i: int, j: int| 0 <= i < whole.len() && 0 <= j < whole.len() && i != j implies whole[i]
        != whole[j] by {
        if i < a.len() && j < a.len() {
            assert(a[i] != a[j]);
        } else if i >= a.len() && j >= a.len() {
            assert(b[i - a.len()] != b[j - a.len()]);
        } else if i < a.len() {
            assert(a[i] != b[j - a.len()]);
        } else {
            assert(a[j] != b[i - a.len()]);
        }
    }
}

/// Above the nut the search finds no fingering twice at one position of
/// the hand.
pub proof fn lemma_search_distinct(
    tuning: Seq<u8>,
    chord: Seq<u8>,
    left: Seq<u8>,
    start: int,
    shift: u8,
    optional: u8,
)
    requires
        0 <= start,
        1 <= shift,
        tuning.len() <= usize::MAX,
    ensures
        enumerate_from(tuning, chord, left, start, shift, optional).no_duplicates(),
    decreases tuning.len() - start, 2int, 0int,
{
    let done = completion(left, optional);
    let more = enumerate_strings(tuning, chord, left, start, shift, optional);
    lemma_strings_distinct(tuning, chord, left, start, shift, optional);
    assert forall|i: int, j: int| 0 <= i < done.len() && 0 <= j < more.len() implies done[i]
        != more[j] by {
        assert(done[i].hold.len() == 0);
        assert(starts_after(more[j], start));
    }
    lemma_concat_distinct(done, more);
}

/// The fingerings that start on `string` or later are found once each,
/// and each starts there.
pub proof fn lemma_strings_distinct(
    tuning: Seq<u8>,
    chord: Seq<u8>,
    left: Seq<u8>,
    string: int,
    shift: u8,
    optional: u8,
)
    requires
        0 <= string,
        1 <= shift,
        tuning.len() <= usize::MAX,
    ensures
        enumerate_strings(tuning, chord, left, string, shift, optional).no_duplicates(),
        forall|i: int|
            0 <= i < enumerate_strings(tuning, chord, left, string, shift, optional).len()
                ==> starts_after(
                #[trigger] enumerate_strings(tuning, chord, left, string, shift, optional)[i],
                string,
            ),
    decreases tuning.len() - string, 1int, 0int,
{
    if string < tuning.len() {
        let here = enumerate_frets(tuning, chord, left, string, 0, shift, optional);
        let later = enumerate_strings(tuning, chord, left, string + 1, shift, optional);
        let whole = enumerate_strings(tuning, chord, left, string, shift, optional);
        lemma_frets_distinct(tuning, chord, left, string, 0, shift, optional);
        lemma_strings_distinct(tuning, chord, left, string + 1, shift, optional);
        assert forall|i: int, j: int| 0 <= i < here.len() && 0 <= j < later.len() implies here[i]
            != later[j] by {
            assert(starts_from(here[i], string, shift, 0));
            assert(starts_after(later[j], string + 1));
        }
        lemma_concat_distinct(here, later);
        assert forall|i: int| 0 <= i < whole.len() implies starts_after(
            #[trigger] whole[i],
            string,
        ) by {
            if i < here.len() {
                assert(whole[i] == here[i]);
                assert(starts_from(here[i], string, shift, 0));
            } else {
                assert(whole[i] == later[i - here.len()]);
                assert(starts_after(later[i - here.len()], string + 1));
            }
        }
    }
}

/// The fingerings that start on `string` at its `k`-th candidate fret or a
/// later one are found once each, and each starts there.
pub proof fn lemma_frets_distinct(
    tuning: Seq<u8>,
    chord: Seq<u8>,
    left: Seq<u8>,
    string: int,
    k: int,
    shift: u8,
    optional: u8,
)
    requires
        0 <= string < tuning.len(),
        0 <= k,
        1 <= shift,
        tuning.len() <= usize::MAX,
    ensures
        enumerate_frets(tuning, chord, left, string, k, shift, optional).no_duplicates(),
        forall|i: int|
            0 <= i < enumerate_frets(tuning, chord, left, string, k, shift, optional).len()
                ==> starts_from(
                #[trigger] enumerate_frets(tuning, chord, left, string, k, shift, optional)[i],
                string,
                shift,
                k,
            ),
    decreases tuning.len() - string, 0int, candidates() - k,
{
    if k < candidates() {
        let here = enumerate_fret(tuning, chord, left, string, k, shift, optional);
        let later = enumerate_frets(tuning, chord, left, string, k + 1, shift, optional);
        let whole = enumerate_frets(tuning, chord, left, string, k, shift, optional);
        lemma_fret_distinct(tuning, chord, left, string, k, shift, optional);
        lemma_frets_distinct(tuning, chord, left, string, k + 1, shift, optional);
        assert forall|i: int, j: int| 0 <= i < here.len() && 0 <= j < later.len() implies here[i]
            != later[j] by {
            assert(starts_with(here[i], string, candidate_fret(shift, k)));
            assert(starts_from(later[j], string, shift, k + 1));
            let other = choose|other: int|
                k + 1 <= other < candidates() && candidate_fits(shift, other)
                    && #[trigger] starts_with(later[j], string, candidate_fret(shift, other));
            assert(candidate_fits(shift, k));
            assert(candidate_fret(shift, k) != candidate_fret(shift, other));
        }
        lemma_concat_distinct(here, later);
        assert forall|i: int| 0 <= i < whole.len() implies starts_from(
            #[trigger] whole[i],
            string,
            shift,
            k,
        ) by {
            if i < here.len() {
                assert(whole[i] == here[i]);
                assert(candidate_fits(shift, k) && starts_with(
                    here[i],
                    string,
                    candidate_fret(shift, k),
                ));
            } else {
                let f = later[i - here.len()];
                assert(whole[i] == f);
                assert(starts_from(f, string, shift, k + 1));
                let other = choose|other: int|
                    k + 1 <= other < candidates() && candidate_fits(shift, other)
                        && #[trigger] starts_with(f, string, candidate_fret(shift, other));
                assert(k <= other < candidates() && candidate_fits(shift, other) && starts_with(
                    f,
                    string,
                    candidate_fret(shift, other),
                ));
            }
        }
    }
}

/// The fingerings that start on `string` at its `k`-th candidate fret are
/// found once each, and each starts there.
pub proof fn lemma_fret_distinct(
    tuning: Seq<u8>,
    chord: Seq<u8>,
    left: Seq<u8>,
    string: int,
    k: int,
    shift: u8,
    optional: u8,
)
    requires
        0 <= string < tuning.len(),
        0 <= k < candidates(),
        1 <= shift,
        tuning.len() <= usize::MAX,
    ensures
        enumerate_fret(tuning, chord, left, string, k, shift, optional).no_duplicates(),
        forall|i: int|
            0 <= i < enumerate_fret(tuning, chord, left, string, k, shift, optional).len()
                ==> starts_with(
                #[trigger] enumerate_fret(tuning, chord, left, string, k, shift, optional)[i],
                string,
                candidate_fret(shift, k),
            ),
        enumerate_fret(tuning, chord, left, string, k, shift, optional).len() > 0
            ==> candidate_fits(shift, k),
    decreases tuning.len() - string, 0int, 0int,
{
    let fret = candidate_fret(shift, k);
    let class = sounding_class(tuning[string], fret);
    let item = (string as usize, fret);
    if candidate_fits(shift, k) && chord.contains(class) {
        let rest = without_class(left, class);
        let sub = enumerate_from(tuning, chord, rest, string + 1, shift, optional);
        let whole = enumerate_fret(tuning, chord, left, string, k, shift, optional);
        lemma_search_distinct(tuning, chord, rest, string + 1, shift, optional);
        assert forall|i: int, j: int| 0 <= i < whole.len() && 0 <= j < whole.len() && i
            != j implies whole[i] != whole[j] by {
            assert(sub[i] != sub[j]);
            if whole[i] == whole[j] {
                assert((seq![item] + sub[i].hold).skip(1) =~= sub[i].hold);
                assert((seq![item] + sub[j].hold).skip(1) =~= sub[j].hold);
                assert(sub[i].hold == sub[j].hold);
            }
        }
        assert forall|i: int| 0 <= i < whole.len() implies starts_with(
            #[trigger] whole[i],
            string,
            fret,
        ) by {
            assert(whole[i].hold[0] == item);
        }
    }
}

} // verus!
