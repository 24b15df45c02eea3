//! Ordering shapes from the easiest to the hardest, and the list of texts
//! that a search shows.
use crate::render::label;
use crate::shape::FormattedChord;
use crate::shape::Shape;
use vstd::prelude::*;

verus! {

/// A shape with its difficulty: the lower the score, the easier the shape.
#[derive(Debug, PartialEq, Eq)]
pub struct RankedChord {
    pub score: u32,
    pub chord: FormattedChord,
}

/// The mathematical value of a [`RankedChord`].
pub struct Ranked {
    pub score: u32,
    pub shape: Shape,
}

impl View for RankedChord {
    type V = Ranked;

    open spec fn view(&self) -> Ranked {
        Ranked { score: self.score, shape: self.chord@ }
    }
}

/// The values of a sequence of ranked shapes.
pub open spec fn ranked_views(chords: Seq<RankedChord>) -> Seq<Ranked> {
    Seq::new(chords.len(), |i: int| chords[i]@)
}

/// The views of a sequence of texts.
pub open spec fn texts(strings: Seq<String>) -> Seq<Seq<char>> {
    Seq::new(strings.len(), |i: int| strings[i]@)
}

/// `x` put into a sequence behind every entry that is not harder.
pub open spec fn insert_ranked(sorted: Seq<Ranked>, x: Ranked) -> Seq<Ranked>
    decreases sorted.len(),
{
    if sorted.len() == 0 {
        seq![x]
    } else if sorted.last().score <= x.score {
        sorted.push(x)
    } else {
        insert_ranked(sorted.drop_last(), x).push(sorted.last())
    }
}

/// The first `n` entries by rising score, entries of equal score in the
/// order in which they came.
pub open spec fn sorted_prefix(chords: Seq<Ranked>, n: int) -> Seq<Ranked>
    decreases n,
{
    if n <= 0 {
        Seq::empty()
    } else {
        insert_ranked(sorted_prefix(chords, n - 1), chords[n - 1])
    }
}

/// The entries by rising score, entries of equal score in the order in
/// which they came.
pub open spec fn sorted_by_score(chords: Seq<Ranked>) -> Seq<Ranked> {
    sorted_prefix(chords, chords.len() as int)
}

/// Scores never fall along the sequence.
pub open spec fn rising(chords: Seq<Ranked>) -> bool {
    forall|a: int, b: int|
        0 <= a <= b < chords.len() ==> (#[trigger] chords[a]).score <= (#[trigger] chords[b]).score
}

/// The test for the score `k`.
pub open spec fn scored(k: u32) -> spec_fn(Ranked) -> bool {
    |r: Ranked| r.score == k
}

/// The entry, if it has the score `k`.
pub open spec fn if_scored(x: Ranked, k: u32) -> Seq<Ranked> {
    if x.score == k {
        seq![x]
    } else {
        Seq::empty()
    }
}

pub proof fn lemma_filter_push(s: Seq<Ranked>, x: Ranked, k: u32)
    ensures
        s.push(x).filter(scored(k)) == s.filter(scored(k)) + if_scored(x, k),
{
    reveal(Seq::filter);
    assert(s.push(x).drop_last() =~= s);
    assert(s.filter(scored(k)) + Seq::<Ranked>::empty() =~= s.filter(scored(k)));
    assert(s.filter(scored(k)).push(x) =~= s.filter(scored(k)) + seq![x]);
}

/// Inserting keeps the length, puts the entry in, keeps rising scores
/// rising, and puts the entry behind the entries of its own score.
pub proof fn lemma_insert_ranked(sorted: Seq<Ranked>, x: Ranked, k: u32)
    ensures
        insert_ranked(sorted, x).len() == sorted.len() + 1,
        insert_ranked(sorted, x).to_multiset() == sorted.to_multiset().insert(x),
        rising(sorted) ==> rising(insert_ranked(sorted, x)),
        insert_ranked(sorted, x).filter(scored(k)) == sorted.filter(scored(k)) + if_scored(x, k),
    decreases sorted.len(),
{
    broadcast use vstd::seq_lib::group_to_multiset_ensures;

    let out = insert_ranked(sorted, x);
    if sorted.len() == 0 {
        lemma_filter_push(sorted, x, k);
        assert(out =~= sorted.push(x));
    } else if sorted.last().score <= x.score {
        lemma_filter_push(sorted, x, k);
        if rising(sorted) {
            assert forall|a: int, b: int| 0 <= a <= b < out.len() implies (#[trigger] out[a]).score
                <= (#[trigger] out[b]).score by {
                if b == sorted.len() && a < sorted.len() {
                    assert(sorted[a].score <= sorted[sorted.len() - 1].score);
                }
            }
        }
    } else {
        let front = sorted.drop_last();
        let last = sorted.last();
        let mid = insert_ranked(front, x);
        lemma_insert_ranked(front, x, k);
        lemma_filter_push(mid, last, k);
        lemma_filter_push(front, last, k);
        assert(front.push(last) =~= sorted);
        assert(front.to_multiset().insert(last) =~= sorted.to_multiset());
        assert(out.to_multiset() =~= sorted.to_multiset().insert(x));
        let fk = front.filter(scored(k));
        assert((fk + if_scored(x, k)) + if_scored(last, k) =~= (fk + if_scored(last, k))
            + if_scored(x, k));
        if rising(sorted) {
            assert forall|a: int, b: int| 0 <= a <= b < front.len() implies (
            #[trigger] front[a]).score <= (#[trigger] front[b]).score by {
                assert(front[a] == sorted[a]);
                assert(front[b] == sorted[b]);
            }
            assert(rising(front));
            assert forall|j: int| 0 <= j < mid.len() implies (#[trigger] mid[j]).score
                <= last.score by {
                assert(mid.to_multiset().count(mid[j]) > 0);
                if mid[j] != x {
                    assert(front.to_multiset().count(mid[j]) > 0);
                    assert(front.contains(mid[j]));
                    let i = choose|i: int| 0 <= i < front.len() && front[i] == mid[j];
                    assert(sorted[i].score <= sorted[sorted.len() - 1].score);
                }
            }
            assert forall|a: int, b: int| 0 <= a <= b < out.len() implies (#[trigger] out[a]).score
                <= (#[trigger] out[b]).score by {
                if b < mid.len() {
                    assert(out[a] == mid[a]);
                    assert(out[b] == mid[b]);
                } else if a < mid.len() {
                    assert(out[a] == mid[a]);
                }
            }
        }
    }
}

/// Sorting by score keeps every entry, lets the scores rise, and leaves
/// the entries of each score in the order in which they came.
pub proof fn lemma_sorted_prefix(chords: Seq<Ranked>, n: int, k: u32)
    requires
        0 <= n <= chords.len(),
    ensures
        sorted_prefix(chords, n).len() == n,
        sorted_prefix(chords, n).to_multiset() == chords.take(n).to_multiset(),
        rising(sorted_prefix(chords, n)),
        sorted_prefix(chords, n).filter(scored(k)) == chords.take(n).filter(scored(k)),
    decreases n,
{
    broadcast use vstd::seq_lib::group_to_multiset_ensures;

    if n > 0 {
        lemma_sorted_prefix(chords, n - 1, k);
        lemma_insert_ranked(sorted_prefix(chords, n - 1), chords[n - 1], k);
        assert(chords.take(n) =~= chords.take(n - 1).push(chords[n - 1]));
        lemma_filter_push(chords.take(n - 1), chords[n - 1], k);
    } else {
        assert(chords.take(0) =~= Seq::<Ranked>::empty());
        assert(sorted_prefix(chords, n) =~= Seq::<Ranked>::empty());
    }
}

/// The shapes sorted by score are the same shapes, by rising score, and
/// shapes of one score stand as they stood before.
pub proof fn lemma_sorted_by_score(chords: Seq<Ranked>, k: u32)
    ensures
        sorted_by_score(chords).len() == chords.len(),
        sorted_by_score(chords).to_multiset() == chords.to_multiset(),
        rising(sorted_by_score(chords)),
        sorted_by_score(chords).filter(scored(k)) == chords.filter(scored(k)),
{
    lemma_sorted_prefix(chords, chords.len() as int, k);
    assert(chords.take(chords.len() as int) =~= chords);
}

/// Where every entry from `pos` on is harder than `x` and the one before
/// is not, `x` belongs at `pos`.
pub proof fn lemma_insert_at(sorted: Seq<Ranked>, x: Ranked, pos: int)
    requires
        0 <= pos <= sorted.len(),
        forall|j: int| pos <= j < sorted.len() ==> (#[trigger] sorted[j]).score > x.score,
        pos > 0 ==> sorted[pos - 1].score <= x.score,
    ensures
        insert_ranked(sorted, x) == sorted.insert(pos, x),
    decreases sorted.len() - pos,
{
    if sorted.len() == 0 {
        assert(sorted.insert(pos, x) =~= seq![x]);
    } else if pos == sorted.len() {
        assert(sorted.insert(pos, x) =~= sorted.push(x));
    } else {
        let front = sorted.drop_last();
        assert(sorted[sorted.len() - 1].score > x.score);
        assert forall|j: int| pos <= j < front.len() implies (#[trigger] front[j]).score
            > x.score by {
            assert(front[j] == sorted[j]);
        }
        if pos > 0 {
            assert(front[pos - 1] == sorted[pos - 1]);
        }
        lemma_insert_at(front, x, pos);
        assert(front.insert(pos, x).push(sorted.last()) =~= sorted.insert(pos, x));
    }
}

/// The texts up to the `n`-th without those that repeat the text before.
pub open spec fn deduped(all: Seq<Seq<char>>, n: int) -> Seq<Seq<char>>
    decreases n,
{
    if n <= 0 {
        Seq::empty()
    } else if n >= 2 && all[n - 1] == all[n - 2] {
        deduped(all, n - 1)
    } else {
        deduped(all, n - 1).push(all[n - 1])
    }
}

/// No two neighbours are the same text.
pub open spec fn no_repeats(all: Seq<Seq<char>>) -> bool {
    forall|i: int| 0 <= i < all.len() - 1 ==> #[trigger] all[i] != all[i + 1]
}

/// Without its repeats a list has no two equal neighbours, ends as it
/// ended, and holds the texts that it held, and no other.
pub proof fn lemma_deduped(all: Seq<Seq<char>>, n: int)
    requires
        0 <= n <= all.len(),
    ensures
        no_repeats(deduped(all, n)),
        deduped(all, n).len() <= n,
        n > 0 ==> deduped(all, n).len() > 0 && deduped(all, n).last() == all[n - 1],
        forall|i: int| 0 <= i < n ==> deduped(all, n).contains(#[trigger] all[i]),
        forall|j: int|
            0 <= j < deduped(all, n).len() ==> exists|i: int|
                0 <= i < n && #[trigger] all[i] == #[trigger] deduped(all, n)[j],
    decreases n,
{
    if n > 0 {
        lemma_deduped(all, n - 1);
        let before = deduped(all, n - 1);
        let out = deduped(all, n);
        assert forall|i: int| 0 <= i < n implies out.contains(#[trigger] all[i]) by {
            if i < n - 1 {
                let j = choose|j: int| 0 <= j < before.len() && before[j] == all[i];
                assert(out[j] == all[i]);
            } else {
                assert(out[out.len() - 1] == all[n - 1]);
            }
        }
        assert forall|j: int| 0 <= j < out.len() implies exists|i: int|
            0 <= i < n && #[trigger] all[i] == #[trigger] out[j] by {
            if j < before.len() {
                assert(out[j] == before[j]);
                let i = choose|i: int| 0 <= i < n - 1 && #[trigger] all[i] == before[j];
                assert(0 <= i < n && all[i] == out[j]);
            } else {
                assert(0 <= n - 1 < n && all[n - 1] == out[j]);
            }
        }
        if !(n >= 2 && all[n - 1] == all[n - 2]) {
            assert forall|i: int| 0 <= i < out.len() - 1 implies #[trigger] out[i] != out[i + 1] by {
                if i < before.len() - 1 {
                    assert(before[i] != before[i + 1]);
                }
            }
        }
    }
}

impl FormattedChord {
    /// A copy of the shape.
    pub fn duplicate(&self) -> (copy: FormattedChord)
        ensures
            copy@ == self@,
    {
        let mut v: Vec<Option<u8>> = Vec::new();
        let mut i: usize = 0;
        while i < self.v.len()
            invariant
                i <= self.v.len(),
                v@ == self.v@.take(i as int),
            decreases self.v.len() - i,
        {
            v.push(self.v[i]);
            proof {
                assert(self.v@.take(i + 1) =~= self.v@.take(i as int).push(self.v@[i as int]));
            }
            i = i + 1;
        }
        proof {
            assert(self.v@.take(i as int) =~= self.v@);
        }
        FormattedChord { v, no_fifth: self.no_fifth }
    }
}

/// Sorts the shapes from the easiest to the hardest; shapes of equal score
/// stay in the order in which they came.
pub fn rank_chords(chords: &Vec<RankedChord>) -> (sorted: Vec<RankedChord>)
    ensures
        ranked_views(sorted@) == sorted_by_score(ranked_views(chords@)),
        sorted@.len() == chords@.len(),
        rising(ranked_views(sorted@)),
        ranked_views(sorted@).to_multiset() == ranked_views(chords@).to_multiset(),
        forall|k: u32|
            #[trigger] ranked_views(sorted@).filter(scored(k)) == ranked_views(chords@).filter(
                scored(k),
            ),
{
    let ghost all = ranked_views(chords@);
    let mut sorted: Vec<RankedChord> = Vec::new();
    let mut i: usize = 0;
    proof {
        assert(ranked_views(sorted@) =~= sorted_prefix(all, 0));
    }
    while i < chords.len()
        invariant
            i <= chords.len(),
            all == ranked_views(chords@),
            sorted@.len() == i,
            ranked_views(sorted@) == sorted_prefix(all, i as int),
        decreases chords.len() - i,
    {
        let score = chords[i].score;
        let ghost before = ranked_views(sorted@);
        let mut pos: usize = sorted.len();
        while pos > 0 && sorted[pos - 1].score > score
            invariant
                pos <= sorted.len(),
                before == ranked_views(sorted@),
                forall|j: int| pos <= j < before.len() ==> (#[trigger] before[j]).score > score,
            decreases pos,
        {
            pos = pos - 1;
        }
        let entry = RankedChord { score, chord: chords[i].chord.duplicate() };
        proof {
            assert(entry@ == all[i as int]);
            if pos > 0 {
                assert(before[pos - 1].score <= score);
            }
            lemma_insert_at(before, entry@, pos as int);
        }
        sorted.insert(pos, entry);
        proof {
            assert(ranked_views(sorted@) =~= before.insert(pos as int, all[i as int]));
        }
        i = i + 1;
    }
    proof {
        assert forall|k: u32|
            #[trigger] ranked_views(sorted@).filter(scored(k)) == all.filter(scored(k)) by {
            lemma_sorted_by_score(all, k);
        }
        lemma_sorted_by_score(all, 0);
    }
    sorted
}

/// The labels of the shapes, in their order.
pub open spec fn labels(chords: Seq<Ranked>) -> Seq<Seq<char>> {
    Seq::new(chords.len(), |i: int| label(chords[i].shape.v, chords[i].shape.no_fifth))
}

/// The texts of the shapes in their order, each followed by `?` where the
/// fifth was left out, without the texts that repeat the text before them.
///
/// No two neighbours of the result are equal.
pub fn render_ranked(ranked: &Vec<RankedChord>) -> (strings: Vec<String>)
    ensures
        texts(strings@) == deduped(labels(ranked_views(ranked@)), ranked@.len() as int),
        no_repeats(texts(strings@)),
{
    let ghost all = labels(ranked_views(ranked@));
    let mut strings: Vec<String> = Vec::new();
    let mut i: usize = 0;
    proof {
        assert(texts(strings@) =~= deduped(all, 0));
    }
    while i < ranked.len()
        invariant
            i <= ranked.len(),
            all == labels(ranked_views(ranked@)),
            texts(strings@) == deduped(all, i as int),
        decreases ranked.len() - i,
    {
        let text = ranked[i].chord.to_label();
        let ghost before = texts(strings@);
        proof {
            lemma_deduped(all, i as int);
            assert(text@ == all[i as int]);
            if i > 0 {
                assert(before[before.len() - 1] == strings@[strings@.len() - 1]@);
            }
        }
        let repeat = strings.len() > 0 && strings[strings.len() - 1] == text;
        if !repeat {
            strings.push(text);
            proof {
                assert(texts(strings@) =~= before.push(all[i as int]));
            }
        }
        i = i + 1;
    }
    proof {
        lemma_deduped(all, ranked@.len() as int);
    }
    strings
}

} // verus!
