//! Numerals. A numeral of the source is kept as the decimal it was written
//! as, sign and digits, and is printed in its shortest form.
use crate::text::{byte_is_digit, is_digit, latin, push_bytes, push_char};
use vstd::prelude::*;
use crate::text::{DOT, MINUS, PLUS, ZERO};

verus! {

/// A decimal numeral: the digits before and behind the point, as ASCII.
#[derive(Debug)]
pub struct Number {
    pub negative: bool,
    pub whole: Vec<u8>,
    pub fraction: Vec<u8>,
}

pub struct NumberView {
    pub negative: bool,
    pub whole: Seq<u8>,
    pub fraction: Seq<u8>,
}

impl View for Number {
    type V = NumberView;

    open spec fn view(&self) -> NumberView {
        NumberView { negative: self.negative, whole: self.whole@, fraction: self.fraction@ }
    }
}

/// Whether every byte is a decimal digit.
pub open spec fn all_digits(s: Seq<u8>) -> bool {
    forall|i: int| 0 <= i < s.len() ==> is_digit(#[trigger] s[i])
}

/// The first position at or after `i` that does not hold a digit.
pub open spec fn digits_end(s: Seq<u8>, i: int) -> int
    decreases s.len() - i,
{
    if i < 0 || i >= s.len() {
        s.len() as int
    } else if is_digit(s[i]) {
        digits_end(s, i + 1)
    } else {
        i
    }
}

/// The first position at or after `i` that does not hold the digit zero,
/// but not past `stop`.
pub open spec fn zeros_end(s: Seq<u8>, i: int, stop: int) -> int
    decreases stop - i,
{
    if i < 0 || i >= stop || i >= s.len() {
        i
    } else if s[i] == ZERO {
        zeros_end(s, i + 1, stop)
    } else {
        i
    }
}

/// The length of `s` without the zeros at its end.
pub open spec fn trimmed_len(s: Seq<u8>, n: int) -> int
    decreases n,
{
    if n <= 0 || n > s.len() {
        0
    } else if s[n - 1] == ZERO {
        trimmed_len(s, n - 1)
    } else {
        n
    }
}

/// The digits before the point in their shortest form: no zero in front,
/// but one digit at least.
pub open spec fn short_whole(digits: Seq<u8>) -> Seq<u8> {
    if digits.len() == 0 {
        seq![ZERO]
    } else {
        digits.subrange(zeros_end(digits, 0, digits.len() - 1), digits.len() as int)
    }
}

/// The digits behind the point in their shortest form: no zero at the end.
pub open spec fn short_fraction(digits: Seq<u8>) -> Seq<u8> {
    digits.subrange(0, trimmed_len(digits, digits.len() as int))
}

/// The numeral that `text` spells, if it spells one: an optional sign,
/// digits, and optionally a point and more digits, with a digit on one side
/// of the point at least.
pub open spec fn numeral(text: Seq<u8>) -> Option<NumberView> {
    let signed = text.len() > 0 && (text[0] == MINUS || text[0] == PLUS);
    let from: int = if signed {
        1
    } else {
        0
    };
    let dot = digits_end(text, from);
    let pointed = dot < text.len() && text[dot] == DOT;
    let end = if pointed {
        digits_end(text, dot + 1)
    } else {
        dot
    };
    let whole = text.subrange(from, dot);
    let fraction = if pointed {
        text.subrange(dot + 1, end)
    } else {
        Seq::<u8>::empty()
    };
    if end == text.len() && whole.len() + fraction.len() > 0 {
        Some(
            NumberView {
                negative: text[0] == MINUS,
                whole: short_whole(whole),
                fraction: short_fraction(fraction),
            },
        )
    } else {
        None
    }
}

/// A run of digits holds digits only and ends before a byte that is none.
pub proof fn lemma_digits_end(s: Seq<u8>, i: int)
    requires
        0 <= i <= s.len(),
    ensures
        i <= digits_end(s, i) <= s.len(),
        forall|j: int| i <= j < digits_end(s, i) ==> is_digit(#[trigger] s[j]),
        digits_end(s, i) < s.len() ==> !is_digit(s[digits_end(s, i)]),
    decreases s.len() - i,
{
    if i < s.len() && is_digit(s[i]) {
        lemma_digits_end(s, i + 1);
    }
}

/// The zeros in front end before a digit that is no zero, or at the stop.
pub proof fn lemma_zeros_end(s: Seq<u8>, i: int, stop: int)
    requires
        0 <= i <= stop <= s.len(),
    ensures
        i <= zeros_end(s, i, stop) <= stop,
        zeros_end(s, i, stop) < stop ==> s[zeros_end(s, i, stop)] != ZERO,
    decreases stop - i,
{
    if i < stop && s[i] == ZERO {
        lemma_zeros_end(s, i + 1, stop);
    }
}

/// Without the zeros at its end, a run of digits does not end in a zero.
pub proof fn lemma_trimmed_len(s: Seq<u8>, n: int)
    requires
        0 <= n <= s.len(),
    ensures
        0 <= trimmed_len(s, n) <= n,
        trimmed_len(s, n) > 0 ==> s[trimmed_len(s, n) - 1] != ZERO,
    decreases n,
{
    if n > 0 && s[n - 1] == ZERO {
        lemma_trimmed_len(s, n - 1);
    }
}

/// The shortest forms of digits are digits in their shortest form.
pub proof fn lemma_short_forms(w: Seq<u8>, f: Seq<u8>)
    requires
        all_digits(w),
        all_digits(f),
    ensures
        (NumberView { negative: false, whole: short_whole(w), fraction: short_fraction(f) }).wf(),
{
    lemma_trimmed_len(f, f.len() as int);
    if w.len() > 0 {
        lemma_zeros_end(w, 0, w.len() - 1);
        let z = zeros_end(w, 0, w.len() - 1);
        assert forall|i: int| 0 <= i < short_whole(w).len() implies is_digit(#[trigger] short_whole(w)[i]) by {
            assert(short_whole(w)[i] == w[z + i]);
        }
    }
    assert forall|i: int| 0 <= i < short_fraction(f).len() implies is_digit(
        #[trigger] short_fraction(f)[i],
    ) by {
        assert(short_fraction(f)[i] == f[i]);
    }
}

impl NumberView {
    /// Digits only, in their shortest form.
    pub open spec fn wf(self) -> bool {
        &&& all_digits(self.whole)
        &&& all_digits(self.fraction)
        &&& self.whole.len() >= 1
        &&& self.whole.len() > 1 ==> self.whole[0] != ZERO
        &&& self.fraction.len() > 0 ==> self.fraction.last() != ZERO
    }

    /// The bytes a numeral is written with.
    pub open spec fn bytes(self) -> Seq<u8> {
        (if self.negative {
            seq![MINUS]
        } else {
            Seq::<u8>::empty()
        }) + self.whole + (if self.fraction.len() > 0 {
            seq![DOT] + self.fraction
        } else {
            Seq::<u8>::empty()
        })
    }

    /// The text a numeral is printed as.
    pub open spec fn label(self) -> Seq<char> {
        latin(self.bytes())
    }
}

impl Clone for Number {
    fn clone(&self) -> (r: Self)
        ensures
            r@ == self@,
    {
        Number { negative: self.negative, whole: self.whole.clone(), fraction: self.fraction.clone() }
    }
}

impl Number {
    fn copy_digits(text: &[u8], lo: usize, hi: usize) -> (v: Vec<u8>)
        requires
            lo <= hi <= text@.len(),
        ensures
            v@ == text@.subrange(lo as int, hi as int),
    {
        let mut v: Vec<u8> = Vec::new();
        let mut i = lo;
        while i < hi
            invariant
                lo <= i <= hi <= text@.len(),
                v@ == text@.subrange(lo as int, i as int),
            decreases hi - i,
        {
            v.push(text[i]);
            i = i + 1;
            assert(v@ =~= text@.subrange(lo as int, i as int));
        }
        v
    }

    fn find_digits_end(text: &[u8], from: usize) -> (e: usize)
        requires
            from <= text@.len(),
        ensures
            e == digits_end(text@, from as int),
            from <= e <= text@.len(),
    {
        let mut i = from;
        while i < text.len() && byte_is_digit(text[i])
            invariant
                from <= i <= text@.len(),
                digits_end(text@, from as int) == digits_end(text@, i as int),
            decreases text@.len() - i,
        {
            i = i + 1;
        }
        i
    }

    /// The digits `text[from..dot]` in their shortest form as digits before
    /// the point.
    fn shorten_whole(text: &[u8], from: usize, dot: usize) -> (v: Vec<u8>)
        requires
            from <= dot <= text@.len(),
        ensures
            v@ == short_whole(text@.subrange(from as int, dot as int)),
    {
        let ghost w = text@.subrange(from as int, dot as int);
        if dot == from {
            let v = vec![ZERO];
            assert(v@ =~= short_whole(w));
            return v;
        }
        let mut z = from;
        while z + 1 < dot && text[z] == ZERO
            invariant
                from <= z < dot <= text@.len(),
                w == text@.subrange(from as int, dot as int),
                zeros_end(w, 0, w.len() - 1) == zeros_end(w, z - from, w.len() - 1),
            decreases dot - z,
        {
            z = z + 1;
        }
        proof {
            lemma_zeros_end(w, 0, w.len() - 1);
            assert(text@.subrange(z as int, dot as int) =~= short_whole(w));
        }
        Self::copy_digits(text, z, dot)
    }

    /// The digits `text[lo..hi]` in their shortest form as digits behind
    /// the point.
    fn shorten_fraction(text: &[u8], lo: usize, hi: usize) -> (v: Vec<u8>)
        requires
            lo <= hi <= text@.len(),
        ensures
            v@ == short_fraction(text@.subrange(lo as int, hi as int)),
    {
        let ghost f = text@.subrange(lo as int, hi as int);
        let mut t = hi;
        while t > lo && text[t - 1] == ZERO
            invariant
                lo <= t <= hi <= text@.len(),
                f == text@.subrange(lo as int, hi as int),
                trimmed_len(f, f.len() as int) == trimmed_len(f, t - lo),
            decreases t,
        {
            t = t - 1;
        }
        proof {
            lemma_trimmed_len(f, f.len() as int);
            assert(text@.subrange(lo as int, t as int) =~= short_fraction(f));
        }
        Self::copy_digits(text, lo, t)
    }

    /// Reads a numeral; `None` where `text` does not spell one.
    pub fn parse(text: &[u8]) -> (r: Option<Number>)
        ensures
            match r {
                Some(n) => numeral(text@) == Some(n@) && n@.wf(),
                None => numeral(text@) is None,
            },
    {
        let n = text.len();
        let signed = n > 0 && (text[0] == MINUS || text[0] == PLUS);
        let from: usize = if signed {
            1
        } else {
            0
        };
        let dot = Self::find_digits_end(text, from);
        let pointed = dot < n && text[dot] == DOT;
        let end = if pointed {
            Self::find_digits_end(text, dot + 1)
        } else {
            dot
        };
        let behind: usize = if pointed {
            end - dot - 1
        } else {
            0
        };
        if end != n || (dot - from) + behind == 0 {
            return None;
        }
        let whole = Self::shorten_whole(text, from, dot);
        let fraction = if pointed {
            Self::shorten_fraction(text, dot + 1, end)
        } else {
            Vec::new()
        };
        proof {
            let w = text@.subrange(from as int, dot as int);
            let f = if pointed {
                text@.subrange(dot + 1, end as int)
            } else {
                Seq::<u8>::empty()
            };
            lemma_digits_end(text@, from as int);
            if pointed {
                lemma_digits_end(text@, dot + 1);
            }
            assert(short_fraction(Seq::<u8>::empty()) =~= Seq::<u8>::empty());
            lemma_short_forms(w, f);
        }
        Some(Number { negative: text[0] == MINUS, whole, fraction })
    }

    /// Appends the text of the numeral to `s`.
    pub fn push_to(&self, s: &mut String)
        ensures
            final(s)@ == old(s)@ + self@.label(),
    {
        if self.negative {
            push_char(s, '-');
        }
        push_bytes(s, self.whole.as_slice(), 0, self.whole.len());
        if self.fraction.len() > 0 {
            push_char(s, '.');
            push_bytes(s, self.fraction.as_slice(), 0, self.fraction.len());
        }
        proof {
            assert(self.whole@.subrange(0, self.whole@.len() as int) =~= self.whole@);
            assert(self.fraction@.subrange(0, self.fraction@.len() as int) =~= self.fraction@);
            assert(final(s)@ =~= old(s)@ + self@.label());
        }
    }

    pub fn to_string(&self) -> (s: String)
        ensures
            s@ == self@.label(),
    {
        let mut s = String::new();
        self.push_to(&mut s);
        assert(s@ =~= self@.label());
        s
    }
}

/// Where a run of digits ends: at the first byte behind it that is no
/// digit.
pub proof fn lemma_digits_run(s: Seq<u8>, i: int, j: int)
    requires
        0 <= i <= j <= s.len(),
        forall|k: int| i <= k < j ==> is_digit(#[trigger] s[k]),
        j < s.len() ==> !is_digit(s[j]),
    ensures
        digits_end(s, i) == j,
    decreases j - i,
{
    if i < j {
        lemma_digits_run(s, i + 1, j);
    }
}

/// A numeral that is printed and read again is the same numeral: the
/// printed form is read as what it was printed from.
pub proof fn lemma_numeral_round_trip(n: NumberView)
    requires
        n.wf(),
    ensures
        numeral(n.bytes()) == Some(n),
{
    let text = n.bytes();
    let from: int = if n.negative {
        1
    } else {
        0
    };
    let dot = from + n.whole.len();
    assert(text.len() == dot + (if n.fraction.len() > 0 {
        1 + n.fraction.len()
    } else {
        0
    }));
    assert forall|k: int| from <= k < dot implies is_digit(#[trigger] text[k]) by {
        assert(text[k] == n.whole[k - from]);
    }
    if !n.negative {
        assert(text[0] == n.whole[0]);
        assert(is_digit(n.whole[0]));
    } else {
        assert(text[0] == MINUS);
    }
    if n.fraction.len() > 0 {
        assert(text[dot] == DOT);
        lemma_digits_run(text, from, dot);
        assert forall|k: int| dot + 1 <= k < text.len() implies is_digit(#[trigger] text[k]) by {
            assert(text[k] == n.fraction[k - dot - 1]);
        }
        lemma_digits_run(text, dot + 1, text.len() as int);
        assert(text.subrange(dot + 1, text.len() as int) =~= n.fraction);
    } else {
        lemma_digits_run(text, from, dot);
    }
    assert(text.subrange(from, dot) =~= n.whole);
    // the digits are in their shortest form already
    assert(zeros_end(n.whole, 0, n.whole.len() - 1) == 0) by {
        if n.whole.len() > 1 {
            assert(n.whole[0] != ZERO);
        }
    }
    assert(short_whole(n.whole) =~= n.whole);
    assert(trimmed_len(n.fraction, n.fraction.len() as int) == n.fraction.len()) by {
        if n.fraction.len() > 0 {
            assert(n.fraction.last() != ZERO);
        }
    }
    assert(short_fraction(n.fraction) =~= n.fraction);
    assert(short_fraction(Seq::<u8>::empty()) =~= Seq::<u8>::empty());
    let signed = text.len() > 0 && (text[0] == MINUS || text[0] == PLUS);
    assert(signed == n.negative);
    assert(digits_end(text, from) == dot);
    let r = numeral(text);
    assert(r is Some);
    assert(r->0.negative == n.negative);
    assert(r->0.whole == n.whole);
    assert(r->0.fraction == n.fraction);
}

} // verus!
