//! The lexer: from the bytes of a source file to tokens with their places.
use crate::error::{QccError, QccErrorKind};
use crate::number::{numeral, Number};
use crate::text::{
    byte_is_digit, byte_is_space, byte_is_word, decimal, is_digit, is_space, is_word, latin,
    push_decimal, spells, text_of,
};
use vstd::prelude::*;
use crate::text::{
    BANG, CLOSE_BRACE, CLOSE_BRACKET, CLOSE_PAREN, COLON, COMMA, DOLLAR, DOT, EQUALS, GREATER,
    HASH, LESS, LETTER_Q, LINE_FEED, MINUS, OPEN_BRACE, OPEN_BRACKET, OPEN_PAREN, PLUS, SEMICOLON,
    SLASH, STAR,
};

verus! {

/// A place in a source file. Rows and columns count from one; a place that
/// is not known has row and column zero.
#[derive(Debug)]
pub struct Location {
    pub path: String,
    pub row: usize,
    pub col: usize,
}

pub struct LocationView {
    pub path: Seq<char>,
    pub row: nat,
    pub col: nat,
}

/// Where the file name starts in the first `n` characters of a path: after
/// the last slash among them, or at the front.
pub open spec fn name_start(path: Seq<char>, n: int) -> int
    decreases n,
{
    if n <= 0 {
        0
    } else if path[n - 1] == '/' {
        n
    } else {
        name_start(path, n - 1)
    }
}

/// The last component of a path.
pub open spec fn basename(path: Seq<char>) -> Seq<char> {
    path.subrange(name_start(path, path.len() as int), path.len() as int)
}

impl LocationView {
    /// The place that stands for "not known".
    pub open spec fn unknown() -> LocationView {
        LocationView { path: "unknown"@, row: 0, col: 0 }
    }

    /// How a place is printed: `@file:row:col`.
    pub open spec fn label(self) -> Seq<char> {
        "@"@ + basename(self.path) + ":"@ + decimal(self.row) + ":"@ + decimal(self.col)
    }
}

impl View for Location {
    type V = LocationView;

    open spec fn view(&self) -> LocationView {
        LocationView { path: self.path@, row: self.row as nat, col: self.col as nat }
    }
}

impl Clone for Location {
    fn clone(&self) -> (r: Self)
        ensures
            r == *self,
    {
        Location { path: self.path.clone(), row: self.row, col: self.col }
    }
}

impl PartialEq for Location {
    fn eq(&self, other: &Self) -> (r: bool) {
        self.path == other.path && self.row == other.row && self.col == other.col
    }
}

impl vstd::std_specs::cmp::PartialEqSpecImpl for Location {
    open spec fn obeys_eq_spec() -> bool {
        true
    }

    open spec fn eq_spec(&self, other: &Self) -> bool {
        self@ == other@
    }
}

impl Default for Location {
    fn default() -> (loc: Self)
        ensures
            loc@ == LocationView::unknown(),
    {
        Location { path: String::from_str("unknown"), row: 0, col: 0 }
    }
}

impl Location {
    pub fn new(path: &str, row: usize, col: usize) -> (loc: Self)
        ensures
            loc@ == (LocationView { path: path@, row: row as nat, col: col as nat }),
    {
        Location { path: String::from_str(path), row, col }
    }

    pub fn path(&self) -> (p: String)
        ensures
            p@ == self@.path,
    {
        self.path.clone()
    }

    pub fn row(&self) -> (r: usize)
        ensures
            r == self@.row,
    {
        self.row
    }

    pub fn col(&self) -> (c: usize)
        ensures
            c == self@.col,
    {
        self.col
    }

    pub fn to_string(&self) -> (s: String)
        ensures
            s@ == self@.label(),
    {
        let path = self.path.as_str();
        let n = path.unicode_len();
        let mut start: usize = n;
        while start > 0 && path.get_char(start - 1) != '/'
            invariant
                start <= n,
                n == path@.len(),
                name_start(path@, n as int) == name_start(path@, start as int),
            decreases start,
        {
            start = start - 1;
        }
        let mut s = String::from_str("@");
        s.append(path.substring_char(start, n));
        s.append(":");
        push_decimal(&mut s, self.row);
        s.append(":");
        push_decimal(&mut s, self.col);
        assert(s@ =~= self@.label());
        s
    }
}

/// The window of the lexer on its buffer: the line being read and, in it,
/// the token being read.
#[derive(Clone, Copy, Debug, PartialEq, Eq, Structural)]
pub struct Pointer {
    /// where the line starts
    pub start: usize,
    /// where the token starts
    pub prev: usize,
    /// where reading goes on
    pub current: usize,
    /// where the line ends
    pub end: usize,
}

impl Pointer {
    pub fn new() -> (p: Self)
        ensures
            p == (Pointer { start: 0, prev: 0, current: 0, end: 0 }),
    {
        Pointer { start: 0, prev: 0, current: 0, end: 0 }
    }

    /// All indices at the start of the line.
    pub fn backward(&self) -> (p: Self)
        ensures
            p == (Pointer { start: self.start, prev: self.start, current: self.start, end: self.start }),
    {
        Pointer { start: self.start, prev: self.start, current: self.start, end: self.start }
    }

    /// All indices at the end of the line.
    pub fn forward(&self) -> (p: Self)
        ensures
            p == (Pointer { start: self.end, prev: self.end, current: self.end, end: self.end }),
    {
        Pointer { start: self.end, prev: self.end, current: self.end, end: self.end }
    }

    /// The token is done: it starts anew where reading goes on.
    pub fn reset(&self) -> (p: Self)
        ensures
            p == (Pointer { prev: self.current, ..*self }),
    {
        Pointer { start: self.start, prev: self.current, current: self.current, end: self.end }
    }

    /// The bounds of the line.
    pub fn range(&self) -> (r: (usize, usize))
        ensures
            r == (self.start, self.end),
    {
        (self.start, self.end)
    }
}

/// The kinds of token. The end of the input is no token: it is the absence
/// of one.
#[derive(Clone, Copy, Debug, PartialEq, Eq, Structural, Hash)]
pub enum Token {
    Hash,
    OBracket,
    CBracket,
    OParenth,
    CParenth,
    OCurly,
    CCurly,
    Comma,
    Colon,
    Semicolon,
    Bang,
    Assign,
    Add,
    Sub,
    Mul,
    Div,
    Identifier,
    Digit,
    Qbit,
    Literal,
    Attribute,
    Function,
    Return,
    Const,
    Extern,
    Module,
    Import,
    Let,
    If,
    Else,
    Alias,
    Boolean,
    Eq,
    Neq,
    LT,
    GT,
    LTE,
    GTE,
}

impl Token {
    /// Whether a token is an operator between two operands.
    pub open spec fn is_binop(self) -> bool {
        self == Token::Add || self == Token::Sub || self == Token::Mul || self == Token::Div
            || self == Token::Eq || self == Token::Neq || self == Token::LT || self == Token::GT
            || self == Token::LTE || self == Token::GTE
    }

    /// The operators that stand between two operands.
    pub fn all_binops() -> (ops: Vec<Token>)
        ensures
            forall|t: Token| ops@.contains(t) <==> t.is_binop(),
    {
        let ops = vec![
            Token::Add,
            Token::Sub,
            Token::Mul,
            Token::Div,
            Token::Eq,
            Token::Neq,
            Token::LT,
            Token::GT,
            Token::LTE,
            Token::GTE,
        ];
        proof {
            assert(ops@[0] == Token::Add && ops@[1] == Token::Sub && ops@[2] == Token::Mul
                && ops@[3] == Token::Div && ops@[4] == Token::Eq && ops@[5] == Token::Neq
                && ops@[6] == Token::LT && ops@[7] == Token::GT && ops@[8] == Token::LTE
                && ops@[9] == Token::GTE);
        }
        ops
    }

    /// The token a byte is by itself, where it is one whatever follows it.
    pub open spec fn single(b: u8) -> Option<Token> {
        if b == HASH {
            Some(Token::Hash)
        } else if b == OPEN_BRACKET {
            Some(Token::OBracket)
        } else if b == CLOSE_BRACKET {
            Some(Token::CBracket)
        } else if b == OPEN_PAREN {
            Some(Token::OParenth)
        } else if b == CLOSE_PAREN {
            Some(Token::CParenth)
        } else if b == OPEN_BRACE {
            Some(Token::OCurly)
        } else if b == CLOSE_BRACE {
            Some(Token::CCurly)
        } else if b == COMMA {
            Some(Token::Comma)
        } else if b == COLON {
            Some(Token::Colon)
        } else if b == SEMICOLON {
            Some(Token::Semicolon)
        } else if b == PLUS {
            Some(Token::Add)
        } else if b == STAR {
            Some(Token::Mul)
        } else if b == SLASH {
            Some(Token::Div)
        } else {
            None
        }
    }

    /// The token a word is: a keyword, or else an identifier.
    pub open spec fn of_word(word: Seq<char>) -> Token {
        if word == "fn"@ {
            Token::Function
        } else if word == "return"@ {
            Token::Return
        } else if word == "const"@ {
            Token::Const
        } else if word == "extern"@ {
            Token::Extern
        } else if word == "module"@ {
            Token::Module
        } else if word == "let"@ {
            Token::Let
        } else if word == "if"@ {
            Token::If
        } else if word == "else"@ {
            Token::Else
        } else if word == "import"@ {
            Token::Import
        } else if word == "alias"@ {
            Token::Alias
        } else if word == "true"@ || word == "false"@ {
            Token::Boolean
        } else {
            Token::Identifier
        }
    }
}

/// Just past the first line feed at or after `i`; the end of the buffer if
/// there is none.
pub open spec fn line_end(buf: Seq<u8>, i: int) -> int
    decreases buf.len() - i,
{
    if i < 0 || i >= buf.len() {
        buf.len() as int
    } else if buf[i] == LINE_FEED {
        i + 1
    } else {
        line_end(buf, i + 1)
    }
}

/// Where the line that holds position `i` starts.
pub open spec fn line_start(buf: Seq<u8>, i: int) -> int
    decreases i,
{
    if i <= 0 {
        0
    } else if buf[i - 1] == LINE_FEED {
        i
    } else {
        line_start(buf, i - 1)
    }
}

/// The row of position `i`: one more than the line feeds before it.
pub open spec fn row_of(buf: Seq<u8>, i: int) -> nat
    decreases i,
{
    if i <= 0 {
        1
    } else if buf[i - 1] == LINE_FEED {
        row_of(buf, i - 1) + 1
    } else {
        row_of(buf, i - 1)
    }
}

/// The column of position `i`: one for the first byte of its line.
pub open spec fn col_of(buf: Seq<u8>, i: int) -> int {
    i - line_start(buf, i) + 1
}

/// The byte at `i`, or zero past the end.
pub open spec fn peek(buf: Seq<u8>, i: int) -> u8 {
    if 0 <= i < buf.len() {
        buf[i]
    } else {
        0
    }
}

/// The first position at or after `i` that holds neither whitespace nor a
/// comment. A comment runs from `//` to the end of its line; `inside` says
/// that position `i` lies in one.
pub open spec fn skip_blank(buf: Seq<u8>, i: int, inside: bool) -> int
    decreases buf.len() - i,
{
    if i < 0 || i >= buf.len() {
        buf.len() as int
    } else if inside {
        skip_blank(buf, i + 1, buf[i] != LINE_FEED)
    } else if is_space(buf[i]) {
        skip_blank(buf, i + 1, false)
    } else if buf[i] == SLASH && peek(buf, i + 1) == SLASH {
        skip_blank(buf, i + 1, true)
    } else {
        i
    }
}

/// The first position at or after `i` that does not hold a digit or a dot.
pub open spec fn number_end(buf: Seq<u8>, i: int) -> int
    decreases buf.len() - i,
{
    if i < 0 || i >= buf.len() {
        buf.len() as int
    } else if is_digit(buf[i]) || buf[i] == DOT {
        number_end(buf, i + 1)
    } else {
        i
    }
}

/// The first position at or after `i` that does not hold a byte of a word.
pub open spec fn word_end(buf: Seq<u8>, i: int) -> int
    decreases buf.len() - i,
{
    if i < 0 || i >= buf.len() {
        buf.len() as int
    } else if is_word(buf[i]) {
        word_end(buf, i + 1)
    } else {
        i
    }
}

/// Where a quantum literal whose body starts at `i` ends: just past its
/// closing parenthesis, or at the end of the line if it has none.
pub open spec fn qbit_end(buf: Seq<u8>, i: int) -> int
    decreases buf.len() - i,
{
    if i < 0 || i >= buf.len() {
        buf.len() as int
    } else if buf[i] == CLOSE_PAREN {
        i + 1
    } else if buf[i] == LINE_FEED {
        i
    } else {
        qbit_end(buf, i + 1)
    }
}

/// The token that starts at `s` and where it ends; `None` where no token
/// starts with the byte at `s`.
///
/// A minus sign directly before a digit belongs to the number. The
/// comparisons `==`, `!=`, `<=` and `>=` go before the tokens their first
/// byte would make alone. A digit directly before `q` starts a quantum
/// literal.
pub open spec fn token_at(buf: Seq<u8>, s: int) -> Option<(Token, int)> {
    let c = buf[s];
    let d = peek(buf, s + 1);
    if c == MINUS {
        if is_digit(d) {
            Some((Token::Digit, number_end(buf, s + 1)))
        } else {
            Some((Token::Sub, s + 1))
        }
    } else if c == EQUALS {
        if d == EQUALS {
            Some((Token::Eq, s + 2))
        } else {
            Some((Token::Assign, s + 1))
        }
    } else if c == BANG {
        if d == EQUALS {
            Some((Token::Neq, s + 2))
        } else {
            Some((Token::Bang, s + 1))
        }
    } else if c == LESS {
        if d == EQUALS {
            Some((Token::LTE, s + 2))
        } else {
            Some((Token::LT, s + 1))
        }
    } else if c == GREATER {
        if d == EQUALS {
            Some((Token::GTE, s + 2))
        } else {
            Some((Token::GT, s + 1))
        }
    } else if Token::single(c) is Some {
        Some((Token::single(c)->0, s + 1))
    } else if is_digit(c) {
        if d == LETTER_Q {
            Some((Token::Qbit, qbit_end(buf, s + 2)))
        } else {
            Some((Token::Digit, number_end(buf, s + 1)))
        }
    } else if is_word(c) {
        let e = word_end(buf, s + 1);
        Some((Token::of_word(latin(buf.subrange(s, e))), e))
    } else {
        None
    }
}

/// What the lexer finds when it reads on from a position.
pub enum Scan {
    /// nothing but whitespace and comments up to the end
    End,
    /// a byte at this position that starts no token
    Bad(int),
    /// a token of this kind, from the first position up to the second
    Found(Token, int, int),
}

/// What the lexer finds when it reads on from `from`.
pub open spec fn scan(buf: Seq<u8>, from: int) -> Scan {
    let s = skip_blank(buf, from, false);
    if s >= buf.len() {
        Scan::End
    } else {
        match token_at(buf, s) {
            Some((t, e)) => Scan::Found(t, s, e),
            None => Scan::Bad(s),
        }
    }
}

/// Passing over whitespace and comments goes forward and stays in the buffer.
pub proof fn lemma_skip_blank_bounds(buf: Seq<u8>, i: int, inside: bool)
    requires
        0 <= i <= buf.len(),
    ensures
        i <= skip_blank(buf, i, inside) <= buf.len(),
    decreases buf.len() - i,
{
    if i < buf.len() {
        if inside {
            lemma_skip_blank_bounds(buf, i + 1, buf[i] != LINE_FEED);
        } else if is_space(buf[i]) {
            lemma_skip_blank_bounds(buf, i + 1, false);
        } else if buf[i] == SLASH && peek(buf, i + 1) == SLASH {
            lemma_skip_blank_bounds(buf, i + 1, true);
        }
    }
}

/// A number ends behind where it starts and in the buffer.
pub proof fn lemma_number_end_bounds(buf: Seq<u8>, i: int)
    requires
        0 <= i <= buf.len(),
    ensures
        i <= number_end(buf, i) <= buf.len(),
    decreases buf.len() - i,
{
    if i < buf.len() && (is_digit(buf[i]) || buf[i] == DOT) {
        lemma_number_end_bounds(buf, i + 1);
    }
}

/// A word ends behind where it starts and in the buffer.
pub proof fn lemma_word_end_bounds(buf: Seq<u8>, i: int)
    requires
        0 <= i <= buf.len(),
    ensures
        i <= word_end(buf, i) <= buf.len(),
    decreases buf.len() - i,
{
    if i < buf.len() && is_word(buf[i]) {
        lemma_word_end_bounds(buf, i + 1);
    }
}

/// A quantum literal ends behind where it starts and in the buffer.
pub proof fn lemma_qbit_end_bounds(buf: Seq<u8>, i: int)
    requires
        0 <= i <= buf.len(),
    ensures
        i <= qbit_end(buf, i) <= buf.len(),
    decreases buf.len() - i,
{
    if i < buf.len() && buf[i] != CLOSE_PAREN && buf[i] != LINE_FEED {
        lemma_qbit_end_bounds(buf, i + 1);
    }
}

/// A line starts before and ends behind each of its positions, and the
/// rows count up from one.
pub proof fn lemma_line_bounds(buf: Seq<u8>, i: int)
    requires
        0 <= i <= buf.len(),
    ensures
        0 <= line_start(buf, i) <= i,
        i <= line_end(buf, i) <= buf.len(),
        1 <= row_of(buf, i) <= i + 1,
{
    lemma_line_start_bounds(buf, i);
    lemma_line_end_bounds(buf, i);
}

proof fn lemma_line_start_bounds(buf: Seq<u8>, i: int)
    requires
        0 <= i <= buf.len(),
    ensures
        0 <= line_start(buf, i) <= i,
        1 <= row_of(buf, i) <= i + 1,
    decreases i,
{
    if i > 0 {
        lemma_line_start_bounds(buf, i - 1);
    }
}

proof fn lemma_line_end_bounds(buf: Seq<u8>, i: int)
    requires
        0 <= i <= buf.len(),
    ensures
        i <= line_end(buf, i) <= buf.len(),
    decreases buf.len() - i,
{
    if i < buf.len() && buf[i] != LINE_FEED {
        lemma_line_end_bounds(buf, i + 1);
    }
}

/// A token is not empty and lies in the buffer.
pub proof fn lemma_token_bounds(buf: Seq<u8>, s: int)
    requires
        0 <= s < buf.len(),
    ensures
        token_at(buf, s) matches Some((_, e)) ==> s < e <= buf.len(),
{
    lemma_number_end_bounds(buf, s + 1);
    lemma_word_end_bounds(buf, s + 1);
    if s + 2 <= buf.len() {
        lemma_qbit_end_bounds(buf, s + 2);
    }
}

/// Reading on always ends past the position it started from, unless the
/// input is at its end.
pub proof fn lemma_scan_progress(buf: Seq<u8>, from: int)
    requires
        0 <= from <= buf.len(),
    ensures
        match scan(buf, from) {
            Scan::End => true,
            Scan::Bad(s) => from <= s < buf.len(),
            Scan::Found(_, s, e) => from <= s < e <= buf.len(),
        },
{
    lemma_skip_blank_bounds(buf, from, false);
    let s = skip_blank(buf, from, false);
    if s < buf.len() {
        lemma_token_bounds(buf, s);
    }
}

/// The lexer holds the whole source and a window on it: the line and the
/// token that were read last.
#[derive(Debug)]
pub struct Lexer {
    /// the source; never written, only read
    pub buffer: Vec<u8>,
    /// the window
    pub ptr: Pointer,
    /// the place of the token read last
    pub location: Location,
    /// the token read last; `None` before the first and after the last
    pub token: Option<Token>,
}

/// The position of the first byte from `from` on that starts no token, if
/// there is such a byte.
pub open spec fn first_bad(buf: Seq<u8>, from: int) -> Option<int>
    decreases buf.len() - from,
{
    if from < 0 || from > buf.len() {
        None
    } else {
        match scan(buf, from) {
            Scan::End => None,
            Scan::Bad(s) => Some(s),
            Scan::Found(_, _, e) => {
                proof {
                    lemma_scan_progress(buf, from);
                }
                first_bad(buf, e)
            },
        }
    }
}

/// A token together with its text and its place, as the parser reads it.
#[derive(Debug)]
pub struct Lexeme {
    pub token: Token,
    /// the bytes of the source that make the token
    pub bytes: Vec<u8>,
    pub location: Location,
    /// the bounds of the line the token stands in
    pub line: (usize, usize),
}

impl Clone for Lexeme {
    fn clone(&self) -> (r: Self)
        ensures
            r@ == self@,
    {
        Lexeme {
            token: self.token,
            bytes: self.bytes.clone(),
            location: self.location.clone(),
            line: self.line,
        }
    }
}

/// The tokens from position `from` to the end of the buffer, each with its
/// bounds; `None` if a byte on the way starts no token.
pub open spec fn spans(buf: Seq<u8>, from: int) -> Option<Seq<(Token, int, int)>>
    decreases buf.len() - from,
{
    if from < 0 || from > buf.len() {
        None
    } else {
        match scan(buf, from) {
            Scan::End => Some(Seq::empty()),
            Scan::Bad(_) => None,
            Scan::Found(t, s, e) => {
                proof {
                    lemma_scan_progress(buf, from);
                }
                match spans(buf, e) {
                    Some(rest) => Some(seq![(t, s, e)] + rest),
                    None => None,
                }
            },
        }
    }
}

pub struct LexemeView {
    pub token: Token,
    pub bytes: Seq<u8>,
    pub location: LocationView,
    pub line: (int, int),
}

impl View for Lexeme {
    type V = LexemeView;

    open spec fn view(&self) -> LexemeView {
        LexemeView {
            token: self.token,
            bytes: self.bytes@,
            location: self.location@,
            line: (self.line.0 as int, self.line.1 as int),
        }
    }
}

impl LexemeView {
    /// The text of the token.
    pub open spec fn text(self) -> Seq<char> {
        latin(self.bytes)
    }
}

impl Lexeme {
    /// The text of the token.
    pub fn text(&self) -> (s: String)
        ensures
            s@ == self@.text(),
    {
        let s = text_of(self.bytes.as_slice(), 0, self.bytes.len());
        assert(self.bytes@.subrange(0, self.bytes@.len() as int) =~= self.bytes@);
        s
    }
}

/// The models of a sequence of lexemes.
pub open spec fn lexeme_views(lexemes: Seq<Lexeme>) -> Seq<LexemeView> {
    Seq::new(lexemes.len(), |i: int| lexemes[i]@)
}

/// The lexeme of the token of kind `t` at `buf[s..e]` of the file `path`.
pub open spec fn lexeme_of(buf: Seq<u8>, path: Seq<char>, span: (Token, int, int)) -> LexemeView {
    let (t, s, e) = span;
    LexemeView {
        token: t,
        bytes: buf.subrange(s, e),
        location: LocationView { path, row: row_of(buf, s), col: col_of(buf, s) as nat },
        line: (line_start(buf, s), line_end(buf, s)),
    }
}

/// The lexemes of a whole buffer, in order; `None` if a byte of it starts
/// no token.
pub open spec fn lexemes_of(buf: Seq<u8>, path: Seq<char>) -> Option<Seq<LexemeView>> {
    match spans(buf, 0) {
        Some(found) => Some(Seq::new(found.len(), |i: int| lexeme_of(buf, path, found[i]))),
        None => None,
    }
}

impl Lexer {
    /// The window is in the buffer, and the place is that of the token's
    /// first byte.
    pub open spec fn wf(&self) -> bool {
        let buf = self.buffer@;
        &&& buf.len() < usize::MAX
        &&& self.ptr.prev <= self.ptr.current <= buf.len()
        &&& self.ptr.start == line_start(buf, self.ptr.prev as int)
        &&& self.ptr.end == line_end(buf, self.ptr.prev as int)
        &&& self.location.row == row_of(buf, self.ptr.prev as int)
        &&& self.location.col == col_of(buf, self.ptr.prev as int)
    }

    /// A lexer at the start of `buffer`, which is the content of the file
    /// `path`.
    pub fn new(buffer: Vec<u8>, path: String) -> (lexer: Self)
        requires
            buffer@.len() < usize::MAX,
        ensures
            lexer.wf(),
            lexer.buffer == buffer,
            lexer.location.path == path,
            lexer.ptr.prev == 0,
            lexer.ptr.current == 0,
            lexer.token is None,
    {
        let end = Self::find_line_end(&buffer, 0);
        Lexer {
            buffer,
            ptr: Pointer { start: 0, prev: 0, current: 0, end },
            location: Location { path, row: 1, col: 1 },
            token: None,
        }
    }

    fn find_line_end(buffer: &Vec<u8>, from: usize) -> (end: usize)
        requires
            from <= buffer@.len(),
        ensures
            end == line_end(buffer@, from as int),
            from <= end <= buffer@.len(),
    {
        let mut i = from;
        while i < buffer.len() && buffer[i] != LINE_FEED
            invariant
                from <= i <= buffer@.len(),
                line_end(buffer@, from as int) == line_end(buffer@, i as int),
            decreases buffer@.len() - i,
        {
            i = i + 1;
        }
        if i < buffer.len() {
            i + 1
        } else {
            i
        }
    }

    /// The text of `buffer[lhs..rhs]`.
    pub fn slice(&self, lhs: usize, rhs: usize) -> (s: String)
        requires
            lhs <= rhs <= self.buffer@.len(),
        ensures
            s@ == latin(self.buffer@.subrange(lhs as int, rhs as int)),
    {
        text_of(self.buffer.as_slice(), lhs, rhs)
    }

    /// The first byte of the token read last.
    pub fn previous(&self) -> (b: u8)
        requires
            self.ptr.prev < self.buffer@.len(),
        ensures
            b == self.buffer@[self.ptr.prev as int],
    {
        self.buffer[self.ptr.prev]
    }

    /// The byte at which reading goes on.
    pub fn current(&self) -> (b: u8)
        requires
            self.ptr.current < self.buffer@.len(),
        ensures
            b == self.buffer@[self.ptr.current as int],
    {
        self.buffer[self.ptr.current]
    }

    /// The text of the token read last.
    pub fn identifier(&self) -> (s: String)
        requires
            self.wf(),
        ensures
            s@ == latin(self.buffer@.subrange(self.ptr.prev as int, self.ptr.current as int)),
    {
        self.slice(self.ptr.prev, self.ptr.current)
    }

    /// The numeral that the token read last spells, if it spells one.
    pub fn digit(&self) -> (n: Option<Number>)
        requires
            self.wf(),
        ensures
            match n {
                Some(d) => numeral(
                    self.buffer@.subrange(self.ptr.prev as int, self.ptr.current as int),
                ) == Some(d@) && d@.wf(),
                None => numeral(
                    self.buffer@.subrange(self.ptr.prev as int, self.ptr.current as int),
                ) is None,
            },
    {
        Number::parse(
            vstd::slice::slice_subrange(self.buffer.as_slice(), self.ptr.prev, self.ptr.current),
        )
    }

    /// The line of the token read last, for diagnostics.
    pub fn line(&self) -> (s: String)
        requires
            self.wf(),
        ensures
            s@ == latin(
                self.buffer@.subrange(
                    line_start(self.buffer@, self.ptr.prev as int),
                    line_end(self.buffer@, self.ptr.prev as int),
                ),
            ),
    {
        proof {
            lemma_line_bounds(self.buffer@, self.ptr.prev as int);
        }
        self.slice(self.ptr.start, self.ptr.end)
    }

    /// Whether the token read last is `token`.
    pub fn is_token(&self, token: Token) -> (r: bool)
        ensures
            r == (self.token == Some(token)),
    {
        match self.token {
            Some(t) => t == token,
            None => false,
        }
    }

    /// Whether the token read last is one of `tokens`.
    pub fn is_any_token(&self, tokens: &[Token]) -> (r: bool)
        ensures
            r == (self.token is Some && tokens@.contains(self.token->0)),
    {
        match self.token {
            None => false,
            Some(t) => {
                let mut i: usize = 0;
                while i < tokens.len()
                    invariant
                        i <= tokens@.len(),
                        self.token == Some(t),
                        forall|j: int| 0 <= j < i ==> tokens@[j] != t,
                    decreases tokens@.len() - i,
                {
                    if tokens[i] == t {
                        assert(tokens@[i as int] == t);
                        return true;
                    }
                    i = i + 1;
                }
                false
            },
        }
    }

    /// Whether there is a token and it is none of `tokens`.
    pub fn is_none_token(&self, tokens: &[Token]) -> (r: bool)
        ensures
            r == (self.token is Some && !tokens@.contains(self.token->0)),
    {
        self.token.is_some() && !self.is_any_token(tokens)
    }

    fn skip(buffer: &Vec<u8>, from: usize) -> (s: usize)
        requires
            from <= buffer@.len(),
        ensures
            s == skip_blank(buffer@, from as int, false),
            from <= s <= buffer@.len(),
    {
        let mut i = from;
        let mut inside = false;
        while i < buffer.len() && (inside || byte_is_space(buffer[i]) || (buffer[i] == SLASH && i + 1
            < buffer.len() && buffer[i + 1] == SLASH))
            invariant
                from <= i <= buffer@.len(),
                skip_blank(buffer@, from as int, false) == skip_blank(buffer@, i as int, inside),
            decreases buffer@.len() - i,
        {
            if inside {
                inside = buffer[i] != LINE_FEED;
            } else if !byte_is_space(buffer[i]) {
                inside = true;
            }
            i = i + 1;
        }
        i
    }

    fn find_number_end(buffer: &Vec<u8>, from: usize) -> (e: usize)
        requires
            from <= buffer@.len(),
        ensures
            e == number_end(buffer@, from as int),
            from <= e <= buffer@.len(),
    {
        let mut i = from;
        while i < buffer.len() && (byte_is_digit(buffer[i]) || buffer[i] == DOT)
            invariant
                from <= i <= buffer@.len(),
                number_end(buffer@, from as int) == number_end(buffer@, i as int),
            decreases buffer@.len() - i,
        {
            i = i + 1;
        }
        i
    }

    fn find_word_end(buffer: &Vec<u8>, from: usize) -> (e: usize)
        requires
            from <= buffer@.len(),
        ensures
            e == word_end(buffer@, from as int),
            from <= e <= buffer@.len(),
    {
        let mut i = from;
        while i < buffer.len() && byte_is_word(buffer[i])
            invariant
                from <= i <= buffer@.len(),
                word_end(buffer@, from as int) == word_end(buffer@, i as int),
            decreases buffer@.len() - i,
        {
            i = i + 1;
        }
        i
    }

    fn find_qbit_end(buffer: &Vec<u8>, from: usize) -> (e: usize)
        requires
            from <= buffer@.len(),
        ensures
            e == qbit_end(buffer@, from as int),
            from <= e <= buffer@.len(),
    {
        let mut i = from;
        while i < buffer.len() && buffer[i] != CLOSE_PAREN && buffer[i] != LINE_FEED
            invariant
                from <= i <= buffer@.len(),
                qbit_end(buffer@, from as int) == qbit_end(buffer@, i as int),
            decreases buffer@.len() - i,
        {
            i = i + 1;
        }
        if i < buffer.len() && buffer[i] == CLOSE_PAREN {
            i + 1
        } else {
            i
        }
    }

    fn single_token(b: u8) -> (t: Option<Token>)
        ensures
            t == Token::single(b),
    {
        if b == HASH {
            Some(Token::Hash)
        } else if b == OPEN_BRACKET {
            Some(Token::OBracket)
        } else if b == CLOSE_BRACKET {
            Some(Token::CBracket)
        } else if b == OPEN_PAREN {
            Some(Token::OParenth)
        } else if b == CLOSE_PAREN {
            Some(Token::CParenth)
        } else if b == OPEN_BRACE {
            Some(Token::OCurly)
        } else if b == CLOSE_BRACE {
            Some(Token::CCurly)
        } else if b == COMMA {
            Some(Token::Comma)
        } else if b == COLON {
            Some(Token::Colon)
        } else if b == SEMICOLON {
            Some(Token::Semicolon)
        } else if b == PLUS {
            Some(Token::Add)
        } else if b == STAR {
            Some(Token::Mul)
        } else if b == SLASH {
            Some(Token::Div)
        } else {
            None
        }
    }

    fn word_token(word: &String) -> (t: Token)
        ensures
            t == Token::of_word(word@),
    {
        if *word == String::from_str("fn") {
            Token::Function
        } else if *word == String::from_str("return") {
            Token::Return
        } else if *word == String::from_str("const") {
            Token::Const
        } else if *word == String::from_str("extern") {
            Token::Extern
        } else if *word == String::from_str("module") {
            Token::Module
        } else if *word == String::from_str("let") {
            Token::Let
        } else if *word == String::from_str("if") {
            Token::If
        } else if *word == String::from_str("else") {
            Token::Else
        } else if *word == String::from_str("import") {
            Token::Import
        } else if *word == String::from_str("alias") {
            Token::Alias
        } else if *word == String::from_str("true") || *word == String::from_str("false") {
            Token::Boolean
        } else {
            Token::Identifier
        }
    }

    /// The token that starts at `s`, with its end.
    fn classify(buffer: &Vec<u8>, s: usize) -> (r: Option<(Token, usize)>)
        requires
            s < buffer@.len(),
        ensures
            match token_at(buffer@, s as int) {
                Some((t, e)) => r == Some((t, e as usize)) && s < e <= buffer@.len(),
                None => r is None,
            },
    {
        proof {
            lemma_token_bounds(buffer@, s as int);
        }
        let c = buffer[s];
        let d: u8 = if buffer.len() - s > 1 {
            buffer[s + 1]
        } else {
            0
        };
        if c == MINUS {
            if byte_is_digit(d) {
                Some((Token::Digit, Self::find_number_end(buffer, s + 1)))
            } else {
                Some((Token::Sub, s + 1))
            }
        } else if c == EQUALS {
            if d == EQUALS {
                Some((Token::Eq, s + 2))
            } else {
                Some((Token::Assign, s + 1))
            }
        } else if c == BANG {
            if d == EQUALS {
                Some((Token::Neq, s + 2))
            } else {
                Some((Token::Bang, s + 1))
            }
        } else if c == LESS {
            if d == EQUALS {
                Some((Token::LTE, s + 2))
            } else {
                Some((Token::LT, s + 1))
            }
        } else if c == GREATER {
            if d == EQUALS {
                Some((Token::GTE, s + 2))
            } else {
                Some((Token::GT, s + 1))
            }
        } else if let Some(t) = Self::single_token(c) {
            Some((t, s + 1))
        } else if byte_is_digit(c) {
            if d == LETTER_Q {
                Some((Token::Qbit, Self::find_qbit_end(buffer, s + 2)))
            } else {
                Some((Token::Digit, Self::find_number_end(buffer, s + 1)))
            }
        } else if byte_is_word(c) {
            let e = Self::find_word_end(buffer, s + 1);
            let word = text_of(buffer.as_slice(), s, e);
            Some((Self::word_token(&word), e))
        } else {
            None
        }
    }

    /// Moves the window so that the token starts at `to`.
    fn advance(&mut self, to: usize)
        requires
            old(self).wf(),
            old(self).ptr.prev <= to <= old(self).buffer@.len(),
        ensures
            final(self).wf(),
            final(self).buffer == old(self).buffer,
            final(self).location.path == old(self).location.path,
            final(self).token == old(self).token,
            final(self).ptr.prev == to,
            final(self).ptr.current == to,
    {
        let mut i = self.ptr.prev;
        let mut row = self.location.row;
        let mut start = self.ptr.start;
        let mut moved = false;
        proof {
            lemma_line_bounds(self.buffer@, i as int);
        }
        while i < to
            invariant
                i <= to <= self.buffer@.len() < usize::MAX,
                row == row_of(self.buffer@, i as int),
                row <= i + 1,
                start == line_start(self.buffer@, i as int),
                !moved ==> line_end(self.buffer@, i as int) == line_end(
                    self.buffer@,
                    old(self).ptr.prev as int,
                ),
                self.buffer == old(self).buffer,
            decreases to - i,
        {
            if self.buffer[i] == LINE_FEED {
                row = row + 1;
                start = i + 1;
                moved = true;
            }
            i = i + 1;
        }
        let end = if moved {
            Self::find_line_end(&self.buffer, to)
        } else {
            self.ptr.end
        };
        proof {
            lemma_line_bounds(self.buffer@, to as int);
        }
        self.ptr = Pointer { start, prev: to, current: to, end };
        self.location.row = row;
        self.location.col = to - start + 1;
    }

    /// Reads the next token: skips whitespace and comments, and leaves the
    /// window on the token it finds. At the end of the input there is no
    /// token; a byte that starts no token is an error, and reading goes on
    /// behind it.
    pub fn next_token(&mut self) -> (r: Result<Option<Token>, QccError>)
        requires
            old(self).wf(),
        ensures
            final(self).wf(),
            final(self).buffer == old(self).buffer,
            final(self).location.path == old(self).location.path,
            match scan(old(self).buffer@, old(self).ptr.current as int) {
                Scan::End => {
                    &&& r == Ok::<Option<Token>, QccError>(None)
                    &&& final(self).token is None
                    &&& final(self).ptr.prev == old(self).buffer@.len()
                    &&& final(self).ptr.current == old(self).buffer@.len()
                },
                Scan::Bad(s) => {
                    &&& r == Err::<Option<Token>, QccError>(QccError(QccErrorKind::LexerError))
                    &&& final(self).token is None
                    &&& final(self).ptr.prev == s
                    &&& final(self).ptr.current == s + 1
                },
                Scan::Found(t, s, e) => {
                    &&& r == Ok::<Option<Token>, QccError>(Some(t))
                    &&& final(self).token == Some(t)
                    &&& final(self).ptr.prev == s
                    &&& final(self).ptr.current == e
                },
            },
    {
        let s = Self::skip(&self.buffer, self.ptr.current);
        self.advance(s);
        if s >= self.buffer.len() {
            self.token = None;
            return Ok(None);
        }
        match Self::classify(&self.buffer, s) {
            Some((t, e)) => {
                self.ptr.current = e;
                self.token = Some(t);
                Ok(Some(t))
            },
            None => {
                self.ptr.current = s + 1;
                self.token = None;
                Err(QccError(QccErrorKind::LexerError))
            },
        }
    }

    /// Moves the window to the line behind the one it is on. Nothing
    /// happens on the last line, and `None` says so.
    pub fn next_line(&mut self) -> (r: Option<()>)
        requires
            old(self).wf(),
        ensures
            final(self).wf(),
            final(self).buffer == old(self).buffer,
            final(self).location.path == old(self).location.path,
            old(self).ptr.end >= old(self).buffer@.len() ==> r is None && *final(self) == *old(self),
            old(self).ptr.end < old(self).buffer@.len() ==> r is Some && final(self).token is None
                && final(self).ptr.prev == old(self).ptr.end && final(self).ptr.current == old(
                self,
            ).ptr.end,
    {
        if self.ptr.end >= self.buffer.len() {
            return None;
        }
        proof {
            lemma_line_bounds(self.buffer@, self.ptr.prev as int);
        }
        let to = self.ptr.end;
        self.advance(to);
        self.token = None;
        Some(())
    }

    /// The same as `next_token`.
    pub fn token(&mut self) -> (r: Result<Option<Token>, QccError>)
        requires
            old(self).wf(),
        ensures
            final(self).wf(),
            final(self).buffer == old(self).buffer,
            final(self).location.path == old(self).location.path,
            match scan(old(self).buffer@, old(self).ptr.current as int) {
                Scan::End => {
                    &&& r == Ok::<Option<Token>, QccError>(None)
                    &&& final(self).token is None
                    &&& final(self).ptr.prev == old(self).buffer@.len()
                    &&& final(self).ptr.current == old(self).buffer@.len()
                },
                Scan::Bad(s) => {
                    &&& r == Err::<Option<Token>, QccError>(QccError(QccErrorKind::LexerError))
                    &&& final(self).token is None
                    &&& final(self).ptr.prev == s
                    &&& final(self).ptr.current == s + 1
                },
                Scan::Found(t, s, e) => {
                    &&& r == Ok::<Option<Token>, QccError>(Some(t))
                    &&& final(self).token == Some(t)
                    &&& final(self).ptr.prev == s
                    &&& final(self).ptr.current == e
                },
            },
    {
        self.next_token()
    }

    /// Takes the token read last, which the caller knows to be `token`, and
    /// reads the next one. Where no token was read last, nothing happens.
    pub fn consume(&mut self, token: Token) -> (r: Result<(), QccError>)
        requires
            old(self).wf(),
            old(self).token is Some ==> old(self).token == Some(token),
        ensures
            final(self).wf(),
            final(self).buffer == old(self).buffer,
            final(self).location.path == old(self).location.path,
            old(self).token is None ==> r is Ok && *final(self) == *old(self),
            old(self).token is Some ==> match scan(old(self).buffer@, old(self).ptr.current as int) {
                Scan::End => {
                    &&& r is Ok
                    &&& final(self).token is None
                    &&& final(self).ptr.prev == old(self).buffer@.len()
                    &&& final(self).ptr.current == old(self).buffer@.len()
                },
                Scan::Bad(s) => {
                    &&& r == Err::<(), QccError>(QccError(QccErrorKind::LexerError))
                    &&& final(self).token is None
                    &&& final(self).ptr.prev == s
                    &&& final(self).ptr.current == s + 1
                },
                Scan::Found(t, s, e) => {
                    &&& r is Ok
                    &&& final(self).token == Some(t)
                    &&& final(self).ptr.prev == s
                    &&& final(self).ptr.current == e
                },
            },
    {
        if self.token.is_some() {
            match self.next_token() {
                Ok(_) => Ok(()),
                Err(e) => Err(e),
            }
        } else {
            Ok(())
        }
    }

    /// The token read last as the parser takes it.
    fn lexeme(&self) -> (l: Lexeme)
        requires
            self.wf(),
            self.token is Some,
        ensures
            l@ == lexeme_of(
                self.buffer@,
                self.location.path@,
                (self.token->0, self.ptr.prev as int, self.ptr.current as int),
            ),
    {
        proof {
            lemma_line_bounds(self.buffer@, self.ptr.prev as int);
        }
        Lexeme {
            token: self.token.unwrap(),
            bytes: vstd::slice::slice_to_vec(
                vstd::slice::slice_subrange(self.buffer.as_slice(), self.ptr.prev, self.ptr.current),
            ),
            location: self.location.clone(),
            line: (self.ptr.start, self.ptr.end),
        }
    }

    /// Reads the whole source from its start and returns its tokens. A byte
    /// that starts no token makes the whole reading fail.
    pub fn tokenize(&mut self) -> (r: Result<Vec<Lexeme>, QccError>)
        requires
            old(self).wf(),
        ensures
            final(self).wf(),
            final(self).buffer == old(self).buffer,
            final(self).location.path == old(self).location.path,
            match r {
                Ok(lexemes) => Some(lexeme_views(lexemes@)) == lexemes_of(
                    old(self).buffer@,
                    old(self).location.path@,
                ) && lexemes@.len() < usize::MAX && final(self).ptr.prev == old(self).buffer@.len(),
                Err(e) => e == QccError(QccErrorKind::LexerError) && spans(old(self).buffer@, 0) is None
                    && first_bad(old(self).buffer@, 0) == Some(final(self).ptr.prev as int)
                    && final(self).ptr.prev < old(self).buffer@.len(),
            },
    {
        let end = Self::find_line_end(&self.buffer, 0);
        self.ptr = Pointer { start: 0, prev: 0, current: 0, end };
        self.location.row = 1;
        self.location.col = 1;
        self.token = None;
        let ghost buf = self.buffer@;
        let ghost path = self.location.path@;
        let mut lexemes: Vec<Lexeme> = Vec::new();
        let ghost mut found: Seq<(Token, int, int)> = Seq::empty();
        loop
            invariant
                self.wf(),
                self.buffer@ == buf,
                self.buffer == old(self).buffer,
                self.location.path == old(self).location.path,
                self.location.path@ == path,
                lexemes@.len() == found.len(),
                forall|i: int| 0 <= i < found.len() ==> (#[trigger] lexemes@[i])@ == lexeme_of(buf, path, found[i]),
                found.len() <= self.ptr.current,
                spans(buf, 0) == match spans(buf, self.ptr.current as int) {
                    Some(rest) => Some(found + rest),
                    None => None,
                },
                first_bad(buf, 0) == first_bad(buf, self.ptr.current as int),
            decreases buf.len() - self.ptr.current,
        {
            proof {
                lemma_scan_progress(buf, self.ptr.current as int);
            }
            match self.next_token() {
                Err(e) => {
                    return Err(e);
                },
                Ok(None) => {
                    proof {
                        assert(found + Seq::<(Token, int, int)>::empty() =~= found);
                        assert(lexeme_views(lexemes@) =~= lexemes_of(buf, path)->0);
                    }
                    return Ok(lexemes);
                },
                Ok(Some(t)) => {
                    let l = self.lexeme();
                    lexemes.push(l);
                    proof {
                        let span = (t, self.ptr.prev as int, self.ptr.current as int);
                        let before = found;
                        found = found.push(span);
                        assert forall|rest: Seq<(Token, int, int)>| before + (seq![span] + rest) == found + rest by {
                            assert(before + (seq![span] + rest) =~= found + rest);
                        }
                    }
                },
            }
        }
    }
}

/// Whether no identifier among the tokens holds the character `$`.
pub open spec fn plain_tokens(tokens: Seq<LexemeView>) -> bool {
    forall|i: int|
        0 <= i < tokens.len() && (#[trigger] tokens[i]).token == Token::Identifier
            ==> !tokens[i].text().contains('$')
}

/// A word is made of the bytes of words.
pub proof fn lemma_word_end_words(buf: Seq<u8>, i: int)
    requires
        0 <= i <= buf.len(),
    ensures
        i <= word_end(buf, i) <= buf.len(),
        forall|k: int| i <= k < word_end(buf, i) ==> is_word(#[trigger] buf[k]),
    decreases buf.len() - i,
{
    if i < buf.len() && is_word(buf[i]) {
        lemma_word_end_words(buf, i + 1);
    }
}

/// Each of the tokens of a buffer is the token that starts at its first
/// byte.
pub proof fn lemma_spans_at(buf: Seq<u8>, from: int, i: int)
    requires
        spans(buf, from) is Some,
        0 <= i < spans(buf, from)->0.len(),
    ensures
        ({
            let (t, s, e) = spans(buf, from)->0[i];
            0 <= s < buf.len() && token_at(buf, s) == Some((t, e))
        }),
    decreases buf.len() - from,
{
    lemma_scan_progress(buf, from);
    match scan(buf, from) {
        Scan::Found(t, s, e) => {
            if i > 0 {
                lemma_spans_at(buf, e, i - 1);
                let rest = spans(buf, e)->0;
                assert((seq![(t, s, e)] + rest)[i] == rest[i - 1]);
            }
        },
        _ => {},
    }
}

/// No identifier of a source holds the character `$`: an identifier is a
/// word.
pub proof fn lemma_lexemes_plain(buf: Seq<u8>, path: Seq<char>)
    requires
        lexemes_of(buf, path) is Some,
    ensures
        plain_tokens(lexemes_of(buf, path)->0),
{
    let tokens = lexemes_of(buf, path)->0;
    let found = spans(buf, 0)->0;
    assert forall|i: int| 0 <= i < tokens.len() && (#[trigger] tokens[i]).token
        == Token::Identifier implies !tokens[i].text().contains('$') by {
        lemma_spans_at(buf, 0, i);
        let (t, s, e) = found[i];
        assert(tokens[i] == lexeme_of(buf, path, found[i]));
        assert(t == Token::Identifier);
        let c = buf[s];
        assert(e == word_end(buf, s + 1) && is_word(c)) by {
            assert(token_at(buf, s) == Some((t, e)));
        }
        lemma_word_end_words(buf, s + 1);
        let text = latin(buf.subrange(s, e));
        assert forall|k: int| 0 <= k < text.len() implies text[k] != '$' by {
            let b = buf.subrange(s, e)[k];
            assert(b == buf[s + k]);
            assert(is_word(b));
            assert(b != DOLLAR);
            assert(text[k] == b as char);
        }
    }
}

} // verus!
