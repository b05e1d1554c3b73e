//! Small text utilities shared by every stage: byte classes, conversion of
//! buffer bytes to text, and decimal rendering of machine integers.
use vstd::prelude::*;

verus! {

/// The bytes that the lexer and the readers of literals tell apart.
pub const TAB: u8 = 9;

pub const LINE_FEED: u8 = 10;

pub const FORM_FEED: u8 = 12;

pub const CARRIAGE_RETURN: u8 = 13;

pub const SPACE: u8 = 32;

pub const BANG: u8 = 33;

pub const QUOTE: u8 = 34;

pub const HASH: u8 = 35;

pub const DOLLAR: u8 = 36;

pub const OPEN_PAREN: u8 = 40;

pub const CLOSE_PAREN: u8 = 41;

pub const STAR: u8 = 42;

pub const PLUS: u8 = 43;

pub const COMMA: u8 = 44;

pub const MINUS: u8 = 45;

pub const DOT: u8 = 46;

pub const SLASH: u8 = 47;

pub const ZERO: u8 = 48;

pub const NINE: u8 = 57;

pub const COLON: u8 = 58;

pub const SEMICOLON: u8 = 59;

pub const LESS: u8 = 60;

pub const EQUALS: u8 = 61;

pub const GREATER: u8 = 62;

pub const OPEN_BRACKET: u8 = 91;

pub const CLOSE_BRACKET: u8 = 93;

pub const UNDERSCORE: u8 = 95;

pub const LETTER_Q: u8 = 113;

pub const OPEN_BRACE: u8 = 123;

pub const CLOSE_BRACE: u8 = 125;

/// Whitespace as ASCII defines it: space, tab, line feed, form feed and
/// carriage return.
pub open spec fn is_space(b: u8) -> bool {
    b == SPACE || b == TAB || b == LINE_FEED || b == FORM_FEED || b == CARRIAGE_RETURN
}

/// The decimal digits.
pub open spec fn is_digit(b: u8) -> bool {
    ZERO <= b <= NINE
}

/// The letters of ASCII.
pub open spec fn is_alpha(b: u8) -> bool {
    (65 <= b <= 90) || (97 <= b <= 122)
}

/// Letters and digits.
pub open spec fn is_alnum(b: u8) -> bool {
    is_digit(b) || is_alpha(b)
}

/// Bytes an identifier is made of.
pub open spec fn is_word(b: u8) -> bool {
    is_alnum(b) || b == UNDERSCORE
}

#[verifier::when_used_as_spec(is_space)]
pub fn byte_is_space(b: u8) -> (r: bool)
    ensures
        r == is_space(b),
{
    b == SPACE || b == TAB || b == LINE_FEED || b == FORM_FEED || b == CARRIAGE_RETURN
}

#[verifier::when_used_as_spec(is_digit)]
pub fn byte_is_digit(b: u8) -> (r: bool)
    ensures
        r == is_digit(b),
{
    ZERO <= b && b <= NINE
}

#[verifier::when_used_as_spec(is_alnum)]
pub fn byte_is_alnum(b: u8) -> (r: bool)
    ensures
        r == is_alnum(b),
{
    (48 <= b && b <= 57) || (65 <= b && b <= 90) || (97 <= b && b <= 122)
}

#[verifier::when_used_as_spec(is_word)]
pub fn byte_is_word(b: u8) -> (r: bool)
    ensures
        r == is_word(b),
{
    byte_is_alnum(b) || b == UNDERSCORE
}

/// The text a run of bytes stands for, one character per byte.
pub open spec fn latin(bytes: Seq<u8>) -> Seq<char> {
    Seq::new(bytes.len(), |i: int| bytes[i] as char)
}

/// `String::push` of the standard library: the character is added at the
/// end and nothing else changes.
#[verifier::external_body]
pub(crate) fn push_char(s: &mut String, c: char)
    ensures
        final(s)@ == old(s)@.push(c),
{
    s.push(c);
}

/// Appends the text of `bytes[lo..hi]` to `s`.
pub fn push_bytes(s: &mut String, bytes: &[u8], lo: usize, hi: usize)
    requires
        lo <= hi <= bytes@.len(),
    ensures
        final(s)@ == old(s)@ + latin(bytes@.subrange(lo as int, hi as int)),
{
    let mut i: usize = lo;
    while i < hi
        invariant
            lo <= i <= hi <= bytes@.len(),
            s@ == old(s)@ + latin(bytes@.subrange(lo as int, i as int)),
        decreases hi - i,
    {
        push_char(s, bytes[i] as char);
        i = i + 1;
        assert(s@ =~= old(s)@ + latin(bytes@.subrange(lo as int, i as int)));
    }
}

/// The text of `bytes[lo..hi]`.
pub fn text_of(bytes: &[u8], lo: usize, hi: usize) -> (s: String)
    requires
        lo <= hi <= bytes@.len(),
    ensures
        s@ == latin(bytes@.subrange(lo as int, hi as int)),
{
    let mut s = String::new();
    push_bytes(&mut s, bytes, lo, hi);
    assert(s@ =~= latin(bytes@.subrange(lo as int, hi as int)));
    s
}

/// The character of a decimal digit.
pub open spec fn digit_char(d: nat) -> char
    recommends
        d < 10,
{
    ((ZERO + d) as u8) as char
}

/// Decimal notation of a natural number, without leading zeros.
pub open spec fn decimal(n: nat) -> Seq<char>
    decreases n,
{
    if n < 10 {
        seq![digit_char(n)]
    } else {
        decimal(n / 10).push(digit_char(n % 10))
    }
}

/// Appends the decimal notation of `n` to `s`.
pub fn push_decimal(s: &mut String, n: usize)
    ensures
        final(s)@ == old(s)@ + decimal(n as nat),
    decreases n,
{
    if n >= 10 {
        push_decimal(s, n / 10);
    }
    let d: u8 = (n % 10) as u8;
    push_char(s, (ZERO + d) as char);
    assert(s@ =~= old(s)@ + decimal(n as nat));
}

/// Whether `bytes[lo..hi]` spells `word`.
pub fn spells(bytes: &[u8], lo: usize, hi: usize, word: &[u8]) -> (r: bool)
    requires
        lo <= hi <= bytes@.len(),
    ensures
        r == (bytes@.subrange(lo as int, hi as int) == word@),
{
    if hi - lo != word.len() {
        return false;
    }
    let mut i: usize = 0;
    while i < word.len()
        invariant
            lo <= hi <= bytes@.len(),
            hi - lo == word@.len(),
            i <= word@.len(),
            forall|j: int| 0 <= j < i ==> bytes@[lo + j] == word@[j],
        decreases word@.len() - i,
    {
        if bytes[lo + i] != word[i] {
            assert(bytes@.subrange(lo as int, hi as int)[i as int] != word@[i as int]);
            return false;
        }
        i = i + 1;
    }
    assert(bytes@.subrange(lo as int, hi as int) =~= word@);
    true
}

/// The first position at or after `i` that does not hold whitespace.
pub open spec fn blank_end(s: Seq<u8>, i: int) -> int
    decreases s.len() - i,
{
    if i < 0 || i >= s.len() {
        s.len() as int
    } else if is_space(s[i]) {
        blank_end(s, i + 1)
    } else {
        i
    }
}

/// The end of `s[lo..n]` without the whitespace at its end.
pub open spec fn text_end(s: Seq<u8>, lo: int, n: int) -> int
    decreases n,
{
    if n <= lo || n <= 0 || n > s.len() {
        lo
    } else if is_space(s[n - 1]) {
        text_end(s, lo, n - 1)
    } else {
        n
    }
}

/// `s` without the whitespace at its two ends.
pub open spec fn trimmed(s: Seq<u8>) -> Seq<u8> {
    let lo = blank_end(s, 0);
    s.subrange(lo, text_end(s, lo, s.len() as int))
}

/// The bounds of `bytes` without the whitespace at its two ends.
pub fn trim(bytes: &[u8]) -> (r: (usize, usize))
    ensures
        r.0 <= r.1 <= bytes@.len(),
        bytes@.subrange(r.0 as int, r.1 as int) == trimmed(bytes@),
{
    let n = bytes.len();
    let mut lo: usize = 0;
    while lo < n && byte_is_space(bytes[lo])
        invariant
            lo <= n == bytes@.len(),
            blank_end(bytes@, 0) == blank_end(bytes@, lo as int),
        decreases n - lo,
    {
        lo = lo + 1;
    }
    let mut hi: usize = n;
    while hi > lo && byte_is_space(bytes[hi - 1])
        invariant
            lo <= hi <= n == bytes@.len(),
            text_end(bytes@, lo as int, n as int) == text_end(bytes@, lo as int, hi as int),
        decreases hi,
    {
        hi = hi - 1;
    }
    (lo, hi)
}

/// The first position at or after `i` that holds the byte `b`; the length
/// of `s` if there is none.
pub open spec fn find_byte(s: Seq<u8>, b: u8, i: int) -> int
    decreases s.len() - i,
{
    if i < 0 || i >= s.len() {
        s.len() as int
    } else if s[i] == b {
        i
    } else {
        find_byte(s, b, i + 1)
    }
}

/// The search for a byte goes forward and stays in the text.
pub proof fn lemma_find_byte(s: Seq<u8>, b: u8, i: int)
    requires
        0 <= i <= s.len(),
    ensures
        i <= find_byte(s, b, i) <= s.len(),
    decreases s.len() - i,
{
    if i < s.len() && s[i] != b {
        lemma_find_byte(s, b, i + 1);
    }
}

/// Finds the first `b` at or after `from`.
pub fn position(bytes: &[u8], b: u8, from: usize) -> (r: usize)
    requires
        from <= bytes@.len(),
    ensures
        r == find_byte(bytes@, b, from as int),
        from <= r <= bytes@.len(),
{
    let mut i = from;
    while i < bytes.len() && bytes[i] != b
        invariant
            from <= i <= bytes@.len(),
            find_byte(bytes@, b, from as int) == find_byte(bytes@, b, i as int),
        decreases bytes@.len() - i,
    {
        i = i + 1;
    }
    i
}

} // verus!
