//! Diagnostics. Three layers: `QccErrorKind` says what went wrong,
//! `QccErrorLoc` adds where, and `QccError` is what a stage hands to its
//! caller.
use crate::lexer::{Location, LocationView};
use crate::text::{decimal, push_char, push_decimal};
use vstd::prelude::*;

verus! {

#[derive(Clone, Copy, Debug, PartialEq, Eq, Structural, Hash)]
pub enum QccErrorKind {
    CmdlineErr,
    InvalidArgs,
    NoSuchArg,
    NoFile,
    ExpectedAttr,
    UnexpectedAttr,
    LexerError,
    ParseError,
    ExpectedFnForAttr,
    ExpectedFn,
    ExpectedFnName,
    ExpectedFnArgs,
    ExpectedParamType,
    ExpectedType,
    UnexpectedType,
    ExpectedFnBody,
    ExpectedFnReturnType,
    ExpectedFnBodyEnd,
    ExpectedMod,
    UnknownModName,
    ExpectedLet,
    ExpectedAssign,
    ExpectedSemicolon,
    UnexpectedStr,
    UnexpectedDigit,
    ExpectedExpr,
    ExpectedParenth,
    UnexpectedExpr,
    UnknownOpcode,
    UnknownBinaryExpr,
    ExpectedOpcode,
    ExpectedComma,
    TypeError,
    TypeMismatch,
    UnknownType,
    ExpectedQbit,
    ExpectedAmpinQbit,
    ExpectedColon,
    UnknownImport,
    RedefinedFunction,
    TranslationError,
    ExpectedOpenBracket,
    ExpectedClosedBracket,
}

impl QccErrorKind {
    /// The sentence a kind is reported with.
    pub open spec fn sentence(self) -> Seq<char> {
        match self {
            QccErrorKind::CmdlineErr => "cmdline error"@,
            QccErrorKind::InvalidArgs => "invalid number of arguments"@,
            QccErrorKind::NoSuchArg => "no such argument"@,
            QccErrorKind::NoFile => "no such file"@,
            QccErrorKind::ExpectedAttr => "expected attribute list as #[<attr>]"@,
            QccErrorKind::UnexpectedAttr => "unexpected attribute"@,
            QccErrorKind::LexerError => "lexer failed to tokenize"@,
            QccErrorKind::ParseError => "could not parse source"@,
            QccErrorKind::ExpectedFnForAttr => "expected a function for attribute"@,
            QccErrorKind::ExpectedFn => "expected a function"@,
            QccErrorKind::ExpectedFnName => "expected a function name after fn"@,
            QccErrorKind::ExpectedFnArgs => "expected function arguments in parenthesis"@,
            QccErrorKind::ExpectedParamType => "expected parameter type"@,
            QccErrorKind::ExpectedType => "expected a type"@,
            QccErrorKind::UnexpectedType => "unexpected type"@,
            QccErrorKind::ExpectedFnBody => "expected function body"@,
            QccErrorKind::ExpectedFnReturnType => "expected function return type"@,
            QccErrorKind::ExpectedFnBodyEnd => "expected end of function body"@,
            QccErrorKind::ExpectedMod => "expected a module"@,
            QccErrorKind::UnknownModName => "unknown module name given"@,
            QccErrorKind::ExpectedLet => "expected a let definition"@,
            QccErrorKind::ExpectedAssign => "expected an assignment operator"@,
            QccErrorKind::ExpectedSemicolon => "expected a ; to end line"@,
            QccErrorKind::UnexpectedStr => "unexpected string found"@,
            QccErrorKind::UnexpectedDigit => "unexpected digit found"@,
            QccErrorKind::ExpectedExpr => "expected an expression"@,
            QccErrorKind::ExpectedParenth => "expected parenthesis"@,
            QccErrorKind::UnexpectedExpr => "unexpected expression"@,
            QccErrorKind::UnknownOpcode => "unknown opcode"@,
            QccErrorKind::UnknownBinaryExpr => "unknown binary expression (unimplemented)"@,
            QccErrorKind::ExpectedOpcode => "expected one of the following operations: +,-,*,/"@,
            QccErrorKind::ExpectedComma => "expected a ',' comma"@,
            QccErrorKind::TypeError => "type error found"@,
            QccErrorKind::TypeMismatch => "a type mismatch is found"@,
            QccErrorKind::UnknownType => "type cannot be inferred"@,
            QccErrorKind::ExpectedQbit => "expected a quantum bit of the form `0q(<amplitude>, <amplitude>)`"@,
            QccErrorKind::ExpectedAmpinQbit => "expected pairs of probability amplitudes"@,
            QccErrorKind::ExpectedColon => "expected colon `:`"@,
            QccErrorKind::UnknownImport => "unknown imported function"@,
            QccErrorKind::RedefinedFunction => "function is defined more than once"@,
            QccErrorKind::TranslationError => "translation failed"@,
            QccErrorKind::ExpectedOpenBracket => "expected '['"@,
            QccErrorKind::ExpectedClosedBracket => "expected ']'"@,
        }
    }

    pub fn message(&self) -> (s: &'static str)
        ensures
            s@ == self.sentence(),
    {
        match self {
            QccErrorKind::CmdlineErr => "cmdline error",
            QccErrorKind::InvalidArgs => "invalid number of arguments",
            QccErrorKind::NoSuchArg => "no such argument",
            QccErrorKind::NoFile => "no such file",
            QccErrorKind::ExpectedAttr => "expected attribute list as #[<attr>]",
            QccErrorKind::UnexpectedAttr => "unexpected attribute",
            QccErrorKind::LexerError => "lexer failed to tokenize",
            QccErrorKind::ParseError => "could not parse source",
            QccErrorKind::ExpectedFnForAttr => "expected a function for attribute",
            QccErrorKind::ExpectedFn => "expected a function",
            QccErrorKind::ExpectedFnName => "expected a function name after fn",
            QccErrorKind::ExpectedFnArgs => "expected function arguments in parenthesis",
            QccErrorKind::ExpectedParamType => "expected parameter type",
            QccErrorKind::ExpectedType => "expected a type",
            QccErrorKind::UnexpectedType => "unexpected type",
            QccErrorKind::ExpectedFnBody => "expected function body",
            QccErrorKind::ExpectedFnReturnType => "expected function return type",
            QccErrorKind::ExpectedFnBodyEnd => "expected end of function body",
            QccErrorKind::ExpectedMod => "expected a module",
            QccErrorKind::UnknownModName => "unknown module name given",
            QccErrorKind::ExpectedLet => "expected a let definition",
            QccErrorKind::ExpectedAssign => "expected an assignment operator",
            QccErrorKind::ExpectedSemicolon => "expected a ; to end line",
            QccErrorKind::UnexpectedStr => "unexpected string found",
            QccErrorKind::UnexpectedDigit => "unexpected digit found",
            QccErrorKind::ExpectedExpr => "expected an expression",
            QccErrorKind::ExpectedParenth => "expected parenthesis",
            QccErrorKind::UnexpectedExpr => "unexpected expression",
            QccErrorKind::UnknownOpcode => "unknown opcode",
            QccErrorKind::UnknownBinaryExpr => "unknown binary expression (unimplemented)",
            QccErrorKind::ExpectedOpcode => "expected one of the following operations: +,-,*,/",
            QccErrorKind::ExpectedComma => "expected a ',' comma",
            QccErrorKind::TypeError => "type error found",
            QccErrorKind::TypeMismatch => "a type mismatch is found",
            QccErrorKind::UnknownType => "type cannot be inferred",
            QccErrorKind::ExpectedQbit => "expected a quantum bit of the form `0q(<amplitude>, <amplitude>)`",
            QccErrorKind::ExpectedAmpinQbit => "expected pairs of probability amplitudes",
            QccErrorKind::ExpectedColon => "expected colon `:`",
            QccErrorKind::UnknownImport => "unknown imported function",
            QccErrorKind::RedefinedFunction => "function is defined more than once",
            QccErrorKind::TranslationError => "translation failed",
            QccErrorKind::ExpectedOpenBracket => "expected '['",
            QccErrorKind::ExpectedClosedBracket => "expected ']'",
        }
    }

    pub fn to_string(&self) -> (s: String)
        ensures
            s@ == self.sentence(),
    {
        String::from_str(self.message())
    }
}

/// What a stage returns when it fails: the kind alone.
#[derive(Clone, Copy, Debug, PartialEq, Eq, Structural, Hash)]
pub struct QccError(pub QccErrorKind);

impl QccError {
    /// The words every error line starts with.
    pub open spec fn banner() -> Seq<char> {
        "\x1b[99;1mqcc\x1b[0m: \x1b[91;1merror:\x1b[0m "@
    }

    /// The line an error is printed as.
    pub open spec fn line(self) -> Seq<char> {
        QccError::banner() + self.0.sentence()
    }

    /// The error line followed by a remark.
    pub fn report(&self, msg: &str) -> (s: String)
        ensures
            s@ == self.line() + " "@ + msg@,
    {
        let mut s = self.to_string();
        s.append(" ");
        s.append(msg);
        s
    }

    /// Whether the error is of the given kind.
    pub fn is(&self, kind: QccErrorKind) -> (r: bool)
        ensures
            r == (self.0 == kind),
    {
        self.0 == kind
    }

    pub fn to_string(&self) -> (s: String)
        ensures
            s@ == self.line(),
    {
        let mut s = String::from_str("\x1b[99;1mqcc\x1b[0m: \x1b[91;1merror:\x1b[0m ");
        s.append(self.0.message());
        s
    }
}

impl From<QccErrorKind> for QccError {
    fn from(value: QccErrorKind) -> (e: Self) {
        QccError(value)
    }
}

impl vstd::std_specs::convert::FromSpecImpl<QccErrorKind> for QccError {
    open spec fn obeys_from_spec() -> bool {
        true
    }

    open spec fn from_spec(value: QccErrorKind) -> Self {
        QccError(value)
    }
}

impl From<QccErrorLoc> for QccError {
    fn from(err: QccErrorLoc) -> (e: Self) {
        err.0
    }
}

impl vstd::std_specs::convert::FromSpecImpl<QccErrorLoc> for QccError {
    open spec fn obeys_from_spec() -> bool {
        true
    }

    open spec fn from_spec(err: QccErrorLoc) -> Self {
        err.0
    }
}

/// An error with the place in the source it was found at.
#[derive(Debug)]
pub struct QccErrorLoc(pub QccError, pub Location);

impl Clone for QccErrorLoc {
    fn clone(&self) -> (r: Self)
        ensures
            r == *self,
    {
        QccErrorLoc(self.0, self.1.clone())
    }
}

impl PartialEq for QccErrorLoc {
    fn eq(&self, other: &Self) -> (r: bool) {
        self.0 == other.0 && self.1 == other.1
    }
}

impl vstd::std_specs::cmp::PartialEqSpecImpl for QccErrorLoc {
    open spec fn obeys_eq_spec() -> bool {
        true
    }

    open spec fn eq_spec(&self, other: &Self) -> bool {
        self.0 == other.0 && self.1@ == other.1@
    }
}

/// What stands under the source line, up to and including the caret: blanks
/// are kept so that tabs line up, every other character becomes a space, and
/// the caret takes the place of the character at `stop`. A line too short to
/// reach `stop` gets no caret.
pub open spec fn underline(line: Seq<char>, stop: nat) -> Seq<char> {
    if stop < line.len() {
        Seq::new(stop, |i: int| shade(line[i])) + "^\n"@
    } else {
        Seq::new(line.len(), |i: int| shade(line[i]))
    }
}

/// A blank stays as it is; anything else is shown as a space.
pub open spec fn shade(c: char) -> char {
    if c == ' ' || c == '\t' || c == '\n' || c == '\r' {
        c
    } else {
        ' '
    }
}

impl QccErrorLoc {
    pub fn new(kind: QccErrorKind, loc: Location) -> (e: Self)
        ensures
            e == QccErrorLoc(QccError(kind), loc),
    {
        QccErrorLoc(QccError(kind), loc)
    }

    /// An error whose place is not known.
    pub fn unplaced(kind: QccErrorKind) -> (e: Self)
        ensures
            e.0 == QccError(kind),
            e.1@ == LocationView::unknown(),
    {
        QccErrorLoc(QccError(kind), Location::default())
    }

    pub fn get_error(&self) -> (e: &QccError)
        ensures
            *e == self.0,
    {
        &self.0
    }

    pub fn get_loc(&self) -> (loc: Location)
        ensures
            loc == self.1,
    {
        self.1.clone()
    }

    pub fn set_error(&mut self, err: QccError)
        ensures
            *final(self) == QccErrorLoc(err, old(self).1),
    {
        self.0 = err;
    }

    pub fn set_loc(&mut self, loc: Location)
        ensures
            *final(self) == QccErrorLoc(old(self).0, loc),
    {
        self.1 = loc;
    }

    /// Replaces the path and keeps row and column.
    pub fn set_path(&mut self, path: &str)
        ensures
            final(self).0 == old(self).0,
            final(self).1@ == (LocationView { path: path@, ..old(self).1@ }),
    {
        let loc = Location::new(path, self.1.row(), self.1.col());
        self.1 = loc;
    }

    /// Replaces the row and keeps path and column.
    pub fn set_row(&mut self, row: usize)
        ensures
            final(self).0 == old(self).0,
            final(self).1@ == (LocationView { row: row as nat, ..old(self).1@ }),
    {
        self.1.row = row;
    }

    /// Replaces the column and keeps path and row.
    pub fn set_col(&mut self, col: usize)
        ensures
            final(self).0 == old(self).0,
            final(self).1@ == (LocationView { col: col as nat, ..old(self).1@ }),
    {
        self.1.col = col;
    }

    /// The error line with the place appended.
    pub open spec fn line(self) -> Seq<char> {
        self.0.line() + " "@ + self.1@.label()
    }

    pub fn to_string(&self) -> (s: String)
        ensures
            s@ == self.line(),
    {
        let mut s = self.0.to_string();
        s.append(" ");
        let place = self.1.to_string();
        s.append(place.as_str());
        s
    }

    /// The source line as it is shown under the error line: a tab, the row,
    /// a tab and the line itself.
    pub open spec fn preview(self, src: Seq<char>) -> Seq<char> {
        "\t"@ + decimal(self.1@.row) + "\t"@ + src
    }

    /// The whole report: the error line, the source line, and the caret
    /// under the column of the error.
    pub open spec fn report_text(self, src: Seq<char>) -> Seq<char> {
        self.line() + "\n"@ + self.preview(src) + underline(
            self.preview(src),
            self.1@.col + 1 + decimal(self.1@.row).len(),
        )
    }

    /// Renders the report for the source line `src`.
    pub fn report(&self, src: &str) -> (s: String)
        ensures
            s@ == self.report_text(src@),
    {
        let mut s = self.to_string();
        s.append("\n");
        let mut shown = String::from_str("\t");
        push_decimal(&mut shown, self.1.row());
        let ghost digits = shown@.len() - 1;
        shown.append("\t");
        shown.append(src);
        proof {
            reveal_strlit("\t");
            assert(shown@ =~= self.preview(src@));
            assert(digits == decimal(self.1@.row).len());
        }
        s.append(shown.as_str());
        let n = shown.as_str().unicode_len();
        let width = shown.as_str().unicode_len() - src.unicode_len() - 1;
        let ghost before = s@;
        let ghost line = shown@;
        let ghost stop = self.1@.col + 1 + decimal(self.1@.row).len();
        assert(before =~= self.line() + "\n"@ + self.preview(src@));
        let mut i: usize = 0;
        let mut left: usize = self.1.col();
        let mut extra: usize = width;
        // `left + extra` characters are passed over before the caret
        while i < n
            invariant
                i <= n,
                n == line.len(),
                line == shown@,
                extra <= width,
                left <= self.1@.col,
                width == decimal(self.1@.row).len() + 1,
                i == (self.1@.col - left) + (width - extra),
                extra > 0 ==> left == self.1@.col,
                stop == self.1@.col + 1 + decimal(self.1@.row).len(),
                before == self.line() + "\n"@ + self.preview(src@),
                line == self.preview(src@),
                s@ == before + Seq::new(i as nat, |k: int| shade(line[k])),
            decreases n - i,
        {
            if left == 0 && extra == 0 {
                s.append("^\n");
                proof {
                    assert(i == stop);
                    assert(s@ =~= before + underline(line, stop));
                }
                return s;
            }
            if extra > 0 {
                extra = extra - 1;
            } else {
                left = left - 1;
            }
            let c = shown.as_str().get_char(i);
            if c == ' ' || c == '\t' || c == '\n' || c == '\r' {
                push_char(&mut s, c);
            } else {
                push_char(&mut s, ' ');
            }
            i = i + 1;
            assert(s@ =~= before + Seq::new(i as nat, |k: int| shade(line[k])));
        }
        proof {
            assert(i <= stop);
            assert(s@ =~= before + underline(line, stop));
        }
        s
    }
}

impl From<(QccErrorKind, Location)> for QccErrorLoc {
    fn from(err: (QccErrorKind, Location)) -> (e: Self) {
        QccErrorLoc(QccError(err.0), err.1)
    }
}

impl vstd::std_specs::convert::FromSpecImpl<(QccErrorKind, Location)> for QccErrorLoc {
    open spec fn obeys_from_spec() -> bool {
        true
    }

    open spec fn from_spec(err: (QccErrorKind, Location)) -> Self {
        QccErrorLoc(QccError(err.0), err.1)
    }
}

impl From<(QccError, Location)> for QccErrorLoc {
    fn from(err: (QccError, Location)) -> (e: Self) {
        QccErrorLoc(err.0, err.1)
    }
}

impl vstd::std_specs::convert::FromSpecImpl<(QccError, Location)> for QccErrorLoc {
    open spec fn obeys_from_spec() -> bool {
        true
    }

    open spec fn from_spec(err: (QccError, Location)) -> Self {
        QccErrorLoc(err.0, err.1)
    }
}

impl From<(QccErrorLoc, Location)> for QccErrorLoc {
    fn from(err: (QccErrorLoc, Location)) -> (e: Self) {
        QccErrorLoc(err.0.0, err.1)
    }
}

impl vstd::std_specs::convert::FromSpecImpl<(QccErrorLoc, Location)> for QccErrorLoc {
    open spec fn obeys_from_spec() -> bool {
        true
    }

    open spec fn from_spec(err: (QccErrorLoc, Location)) -> Self {
        QccErrorLoc(err.0.0, err.1)
    }
}

} // verus!
