//! The text of a shape: one digit or `x` per string where every fret has a
//! single digit, else the frets and `x` separated by a comma and a space.
use crate::fingering::FoundChord;
use crate::position::distinct_strings;
use crate::position::layout;
use crate::position::on_strings;
use crate::shape::FormattedChord;
use vstd::prelude::*;
use vstd::string::StringExecFns;

verus! {

/// Frets from this one on take more than one digit.
pub const TWO_DIGITS: u8 = 10;

/// The character of a decimal digit.
pub open spec fn digit_char(d: int) -> char {
    if d == 0 {
        '0'
    } else if d == 1 {
        '1'
    } else if d == 2 {
        '2'
    } else if d == 3 {
        '3'
    } else if d == 4 {
        '4'
    } else if d == 5 {
        '5'
    } else if d == 6 {
        '6'
    } else if d == 7 {
        '7'
    } else if d == 8 {
        '8'
    } else {
        '9'
    }
}

/// A fret in decimal digits, without leading zeros.
pub open spec fn decimal(n: u8) -> Seq<char> {
    if n < 10 {
        seq![digit_char(n as int)]
    } else if n < 100 {
        seq![digit_char(n as int / 10), digit_char(n as int % 10)]
    } else {
        seq![digit_char(n as int / 100), digit_char((n as int / 10) % 10), digit_char(n as int % 10)]
    }
}

/// The text of one slot: the fret, or `x` for a muted string.
pub open spec fn token(slot: Option<u8>) -> Seq<char> {
    match slot {
        Some(fret) => decimal(fret),
        None => seq!['x'],
    }
}

/// Every fret of the shape has a single digit.
pub open spec fn single_digits(v: Seq<Option<u8>>) -> bool {
    forall|i: int| 0 <= i < v.len() ==> ((#[trigger] v[i]) matches Some(f) ==> f < TWO_DIGITS)
}

/// What stands between two tokens: nothing where every fret has a single
/// digit, else a comma and a space.
pub open spec fn separator(v: Seq<Option<u8>>) -> Seq<char> {
    if single_digits(v) {
        Seq::empty()
    } else {
        seq![',', ' ']
    }
}

/// The tokens of the first `n` slots, joined by `sep`.
pub open spec fn joined(v: Seq<Option<u8>>, sep: Seq<char>, n: int) -> Seq<char>
    decreases n,
{
    if n <= 0 {
        Seq::empty()
    } else if n == 1 {
        token(v[0])
    } else {
        joined(v, sep, n - 1) + sep + token(v[n - 1])
    }
}

/// The text of a shape.
pub open spec fn rendered(v: Seq<Option<u8>>) -> Seq<char> {
    joined(v, separator(v), v.len() as int)
}

/// The text of a shape with its mark: a trailing `?` where the fifth was
/// left out.
pub open spec fn label(v: Seq<Option<u8>>, no_fifth: bool) -> Seq<char> {
    if no_fifth {
        rendered(v) + seq!['?']
    } else {
        rendered(v)
    }
}

/// Occurrences of `c` in a text.
pub open spec fn count_char(text: Seq<char>, c: char) -> int
    decreases text.len(),
{
    if text.len() == 0 {
        0
    } else {
        count_char(text.drop_last(), c) + if text.last() == c {
            1int
        } else {
            0int
        }
    }
}

pub proof fn lemma_count_concat(a: Seq<char>, b: Seq<char>, c: char)
    ensures
        count_char(a + b, c) == count_char(a, c) + count_char(b, c),
    decreases b.len(),
{
    if b.len() == 0 {
        assert(a + b =~= a);
    } else {
        lemma_count_concat(a, b.drop_last(), c);
        assert((a + b).drop_last() =~= a + b.drop_last());
    }
}

pub proof fn lemma_token_no_comma(slot: Option<u8>)
    ensures
        count_char(token(slot), ',') == 0,
        1 <= token(slot).len() <= 3,
{
    let t = token(slot);
    reveal_with_fuel(count_char, 4);
    assert(t.len() <= 3);
    if t.len() == 1 {
        assert(t.drop_last() =~= Seq::<char>::empty());
    } else if t.len() == 2 {
        assert(t.drop_last().drop_last() =~= Seq::<char>::empty());
    } else {
        assert(t.drop_last().drop_last().drop_last() =~= Seq::<char>::empty());
    }
}

/// Where every fret has a single digit the text has one character for each
/// string: the digit of its fret, or `x`.
pub proof fn lemma_rendered_compact(v: Seq<Option<u8>>, n: int)
    requires
        single_digits(v),
        0 <= n <= v.len(),
    ensures
        joined(v, Seq::empty(), n).len() == n,
        forall|i: int| 0 <= i < n ==> #[trigger] joined(v, Seq::empty(), n)[i] == token(v[i])[0],
        forall|i: int| 0 <= i < n ==> (#[trigger] token(v[i])).len() == 1,
    decreases n,
{
    if n > 0 {
        lemma_rendered_compact(v, n - 1);
        assert(token(v[n - 1]).len() == 1);
        if n > 1 {
            assert(joined(v, Seq::empty(), n) =~= joined(v, Seq::empty(), n - 1) + token(v[n - 1]));
        }
    }
}

/// With a separator of a comma and a space the text holds one comma less
/// than the shape has strings: a list of as many tokens.
pub proof fn lemma_rendered_list(v: Seq<Option<u8>>, n: int)
    requires
        1 <= n <= v.len(),
    ensures
        count_char(joined(v, seq![',', ' '], n), ',') == n - 1,
    decreases n,
{
    let sep = seq![',', ' '];
    lemma_token_no_comma(v[n - 1]);
    if n > 1 {
        lemma_rendered_list(v, n - 1);
        lemma_count_concat(joined(v, sep, n - 1) + sep, token(v[n - 1]), ',');
        lemma_count_concat(joined(v, sep, n - 1), sep, ',');
        reveal_with_fuel(count_char, 3);
        assert(sep.drop_last() =~= seq![',']);
        assert(sep.drop_last().drop_last() =~= Seq::<char>::empty());
    }
}

/// A shape whose frets all have a single digit renders as a text of the
/// length of the shape; any other renders as a list of as many tokens as
/// the shape has strings, with a comma after each but the last.
pub proof fn lemma_rendered(v: Seq<Option<u8>>)
    ensures
        single_digits(v) ==> rendered(v).len() == v.len(),
        !single_digits(v) ==> count_char(rendered(v), ',') == v.len() - 1,
{
    if single_digits(v) {
        lemma_rendered_compact(v, v.len() as int);
    } else {
        lemma_rendered_list(v, v.len() as int);
    }
}

fn digit_str(d: u8) -> (text: &'static str)
    requires
        d < 10,
    ensures
        text@ == seq![digit_char(d as int)],
{
    proof {
        reveal_strlit("0");
        reveal_strlit("1");
        reveal_strlit("2");
        reveal_strlit("3");
        reveal_strlit("4");
        reveal_strlit("5");
        reveal_strlit("6");
        reveal_strlit("7");
        reveal_strlit("8");
        reveal_strlit("9");
    }
    let text = if d == 0 {
        "0"
    } else if d == 1 {
        "1"
    } else if d == 2 {
        "2"
    } else if d == 3 {
        "3"
    } else if d == 4 {
        "4"
    } else if d == 5 {
        "5"
    } else if d == 6 {
        "6"
    } else if d == 7 {
        "7"
    } else if d == 8 {
        "8"
    } else {
        "9"
    };
    assert(text@ =~= seq![digit_char(d as int)]);
    text
}

fn push_decimal(text: &mut String, n: u8)
    ensures
        final(text)@ == old(text)@ + decimal(n),
{
    let ghost before = text@;
    if n >= 100 {
        text.append(digit_str(n / 100));
        text.append(digit_str((n / 10) % 10));
        text.append(digit_str(n % 10));
    } else if n >= 10 {
        text.append(digit_str(n / 10));
        text.append(digit_str(n % 10));
    } else {
        text.append(digit_str(n));
    }
    assert(text@ =~= before + decimal(n));
}

fn has_single_digits(v: &Vec<Option<u8>>) -> (single: bool)
    ensures
        single == single_digits(v@),
{
    let mut i: usize = 0;
    while i < v.len()
        invariant
            i <= v.len(),
            forall|j: int| 0 <= j < i ==> ((#[trigger] v@[j]) matches Some(f) ==> f < TWO_DIGITS),
        decreases v.len() - i,
    {
        match v[i] {
            Some(f) => {
                if f >= TWO_DIGITS {
                    return false;
                }
            },
            None => {},
        }
        i = i + 1;
    }
    true
}

impl FormattedChord {
    /// The text of the shape: a digit or `x` for each string where every
    /// fret has a single digit, else the frets and `x` with a comma and a
    /// space between them.
    pub fn to_string(&self) -> (text: String)
        ensures
            text@ == rendered(self.v@),
    {
        let single = has_single_digits(&self.v);
        let mut text = String::new();
        let mut i: usize = 0;
        proof {
            reveal_strlit(", ");
            reveal_strlit("x");
        }
        while i < self.v.len()
            invariant
                i <= self.v.len(),
                single == single_digits(self.v@),
                text@ == joined(self.v@, separator(self.v@), i as int),
                ", "@ =~= seq![',', ' '],
                "x"@ =~= seq!['x'],
            decreases self.v.len() - i,
        {
            let ghost before = text@;
            if i > 0 && !single {
                text.append(", ");
            }
            match self.v[i] {
                Some(fret) => {
                    push_decimal(&mut text, fret);
                },
                None => {
                    text.append("x");
                },
            }
            proof {
                if i > 0 {
                    assert(text@ =~= before + separator(self.v@) + token(self.v@[i as int]));
                } else {
                    assert(text@ =~= token(self.v@[0]));
                }
            }
            i = i + 1;
        }
        text
    }

    /// The text of the shape, followed by `?` where the fifth was left out.
    pub fn to_label(&self) -> (text: String)
        ensures
            text@ == label(self.v@, self.no_fifth),
    {
        let mut text = self.to_string();
        if self.no_fifth {
            proof {
                reveal_strlit("?");
            }
            text.append("?");
            assert(text@ =~= rendered(self.v@) + seq!['?']);
        }
        text
    }
}

impl FoundChord {
    /// The text of the fingering laid out on `strings` strings.
    pub fn to_string(&self, strings: usize) -> (text: String)
        requires
            on_strings(self@.hold, strings as int),
            distinct_strings(self@.hold),
        ensures
            text@ == rendered(layout(self@.hold, strings as int)),
    {
        self.format(strings).to_string()
    }
}

} // verus!
