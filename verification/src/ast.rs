//! The abstract syntax tree of a Quale program, and the mathematical model
//! that the contracts of the later stages speak of.
use crate::attributes::{Attribute, Attributes};
use crate::error::{QccError, QccErrorKind};
use crate::lexer::{Location, LocationView, Token};
use crate::number::{numeral, Number, NumberView};
use crate::text::{find_byte, is_digit, is_space, latin, position, trim, trimmed};
use crate::types::Type;
use vstd::prelude::*;
use vstd::slice::slice_subrange;
use vstd::string::StringSliceAdditionalSpecFns;
use crate::text::{CLOSE_PAREN, COMMA, DOT, LETTER_Q, MINUS, OPEN_PAREN, QUOTE, ZERO};

verus! {

/// Names of modules, functions and variables.
pub type Ident = String;

/// The operators between two operands.
#[derive(Clone, Copy, Debug, PartialEq, Eq, Structural, Hash)]
pub enum Opcode {
    Add,
    Sub,
    Mul,
    Div,
    Eq,
    Neq,
    LT,
    GT,
    LTE,
    GTE,
}

impl Opcode {
    /// How an operator is written.
    pub open spec fn label(self) -> Seq<char> {
        match self {
            Opcode::Add => "+"@,
            Opcode::Sub => "-"@,
            Opcode::Mul => "*"@,
            Opcode::Div => "/"@,
            Opcode::Eq => "=="@,
            Opcode::Neq => "!="@,
            Opcode::LT => "<"@,
            Opcode::GT => ">"@,
            Opcode::LTE => "<="@,
            Opcode::GTE => ">="@,
        }
    }

    /// The operator a text spells, if any.
    pub open spec fn named(text: Seq<char>) -> Option<Opcode> {
        if text == "+"@ {
            Some(Opcode::Add)
        } else if text == "-"@ {
            Some(Opcode::Sub)
        } else if text == "*"@ {
            Some(Opcode::Mul)
        } else if text == "/"@ {
            Some(Opcode::Div)
        } else if text == "=="@ {
            Some(Opcode::Eq)
        } else if text == "!="@ {
            Some(Opcode::Neq)
        } else if text == "<"@ {
            Some(Opcode::LT)
        } else if text == ">"@ {
            Some(Opcode::GT)
        } else if text == "<="@ {
            Some(Opcode::LTE)
        } else if text == ">="@ {
            Some(Opcode::GTE)
        } else {
            None
        }
    }

    /// The operator a token stands for, if it is one.
    pub open spec fn of(token: Token) -> Option<Opcode> {
        match token {
            Token::Add => Some(Opcode::Add),
            Token::Sub => Some(Opcode::Sub),
            Token::Mul => Some(Opcode::Mul),
            Token::Div => Some(Opcode::Div),
            Token::Eq => Some(Opcode::Eq),
            Token::Neq => Some(Opcode::Neq),
            Token::LT => Some(Opcode::LT),
            Token::GT => Some(Opcode::GT),
            Token::LTE => Some(Opcode::LTE),
            Token::GTE => Some(Opcode::GTE),
            _ => None,
        }
    }

    pub fn of_token(token: Token) -> (r: Option<Opcode>)
        ensures
            r == Opcode::of(token),
            r is Some <==> token.is_binop(),
    {
        match token {
            Token::Add => Some(Opcode::Add),
            Token::Sub => Some(Opcode::Sub),
            Token::Mul => Some(Opcode::Mul),
            Token::Div => Some(Opcode::Div),
            Token::Eq => Some(Opcode::Eq),
            Token::Neq => Some(Opcode::Neq),
            Token::LT => Some(Opcode::LT),
            Token::GT => Some(Opcode::GT),
            Token::LTE => Some(Opcode::LTE),
            Token::GTE => Some(Opcode::GTE),
            _ => None,
        }
    }

    /// Reads an operator; any other text is an unknown opcode.
    pub fn from_str(s: &str) -> (r: Result<Opcode, QccError>)
        ensures
            r == match Opcode::named(s@) {
                Some(op) => Ok::<Opcode, QccError>(op),
                None => Err(QccError(QccErrorKind::UnknownOpcode)),
            },
    {
        let text = String::from_str(s);
        if text == String::from_str("+") {
            Ok(Opcode::Add)
        } else if text == String::from_str("-") {
            Ok(Opcode::Sub)
        } else if text == String::from_str("*") {
            Ok(Opcode::Mul)
        } else if text == String::from_str("/") {
            Ok(Opcode::Div)
        } else if text == String::from_str("==") {
            Ok(Opcode::Eq)
        } else if text == String::from_str("!=") {
            Ok(Opcode::Neq)
        } else if text == String::from_str("<") {
            Ok(Opcode::LT)
        } else if text == String::from_str(">") {
            Ok(Opcode::GT)
        } else if text == String::from_str("<=") {
            Ok(Opcode::LTE)
        } else if text == String::from_str(">=") {
            Ok(Opcode::GTE)
        } else {
            Err(QccError(QccErrorKind::UnknownOpcode))
        }
    }

    pub fn symbol(&self) -> (s: &'static str)
        ensures
            s@ == self.label(),
    {
        match self {
            Opcode::Add => "+",
            Opcode::Sub => "-",
            Opcode::Mul => "*",
            Opcode::Div => "/",
            Opcode::Eq => "==",
            Opcode::Neq => "!=",
            Opcode::LT => "<",
            Opcode::GT => ">",
            Opcode::LTE => "<=",
            Opcode::GTE => ">=",
        }
    }

    pub fn to_string(&self) -> (s: String)
        ensures
            s@ == self.label(),
    {
        String::from_str(self.symbol())
    }
}

/// A quantum bit literal `0q(a, b)`: the amplitudes of the two basis
/// states.
#[derive(Debug)]
pub struct Qbit {
    pub amp_0: Number,
    pub amp_1: Number,
}

pub struct QbitView {
    pub amp_0: NumberView,
    pub amp_1: NumberView,
}

impl View for Qbit {
    type V = QbitView;

    open spec fn view(&self) -> QbitView {
        QbitView { amp_0: self.amp_0@, amp_1: self.amp_1@ }
    }
}

impl Clone for Qbit {
    fn clone(&self) -> (r: Self)
        ensures
            r@ == self@,
    {
        Qbit { amp_0: self.amp_0.clone(), amp_1: self.amp_1.clone() }
    }
}

impl QbitView {
    /// How a quantum bit is printed: `0q<a>_<b>`.
    pub open spec fn label(self) -> Seq<char> {
        "0q"@ + self.amp_0.label() + "_"@ + self.amp_1.label()
    }

    /// Both amplitudes are in their shortest form.
    pub open spec fn wf(self) -> bool {
        self.amp_0.wf() && self.amp_1.wf()
    }
}

/// The quantum bit that `text` spells, or what is wrong with it. The text
/// has to start with `0q`; what follows has to stand in parentheses; in
/// them, a comma separates two numerals, which may have whitespace around
/// them.
pub open spec fn qbit_of(text: Seq<u8>) -> Result<QbitView, QccErrorKind> {
    if !(text.len() >= 2 && text[0] == ZERO && text[1] == LETTER_Q) {
        Err(QccErrorKind::ExpectedQbit)
    } else if !(text.len() >= 4 && text[2] == OPEN_PAREN && text.last() == CLOSE_PAREN) {
        Err(QccErrorKind::ExpectedParenth)
    } else {
        let inner = text.subrange(3, text.len() - 1);
        let comma = find_byte(inner, COMMA, 0);
        if comma >= inner.len() {
            Err(QccErrorKind::ExpectedComma)
        } else {
            let first = numeral(trimmed(inner.subrange(0, comma)));
            let second = numeral(trimmed(inner.subrange(comma + 1, inner.len() as int)));
            if first is Some && second is Some {
                Ok(QbitView { amp_0: first->0, amp_1: second->0 })
            } else {
                Err(QccErrorKind::ExpectedAmpinQbit)
            }
        }
    }
}

/// A quantum bit as it is written in a source: `0q(a,b)`, with the
/// amplitudes as they are printed.
pub open spec fn qbit_source(q: QbitView) -> Seq<u8> {
    seq![ZERO, LETTER_Q, OPEN_PAREN] + q.amp_0.bytes() + seq![COMMA] + q.amp_1.bytes() + seq![CLOSE_PAREN]
}

/// The bytes of a printed numeral: a sign, digits and a point, and one
/// byte at least.
pub proof fn lemma_number_bytes(n: NumberView)
    requires
        n.wf(),
    ensures
        n.bytes().len() >= 1,
        forall|k: int|
            0 <= k < n.bytes().len() ==> {
                let b = #[trigger] n.bytes()[k];
                b == MINUS || b == DOT || is_digit(b)
            },
{
    let text = n.bytes();
    let from: int = if n.negative {
        1
    } else {
        0
    };
    assert forall|k: int| 0 <= k < text.len() implies {
        let b = #[trigger] text[k];
        b == MINUS || b == DOT || is_digit(b)
    } by {
        if k < from {
            assert(text[k] == MINUS);
        } else if k < from + n.whole.len() {
            assert(text[k] == n.whole[k - from]);
        } else if k == from + n.whole.len() {
            assert(text[k] == DOT);
        } else {
            assert(text[k] == n.fraction[k - from - n.whole.len() - 1]);
        }
    }
}

/// A text that neither starts nor ends with whitespace is trimmed already.
pub proof fn lemma_trimmed_same(s: Seq<u8>)
    requires
        s.len() >= 1,
        !is_space(s[0]),
        !is_space(s.last()),
    ensures
        trimmed(s) == s,
{
    assert(s.subrange(0, s.len() as int) =~= s);
}

/// The first occurrence of a byte is found.
pub proof fn lemma_find_first(s: Seq<u8>, b: u8, i: int, j: int)
    requires
        0 <= i <= j < s.len(),
        forall|k: int| i <= k < j ==> #[trigger] s[k] != b,
        s[j] == b,
    ensures
        find_byte(s, b, i) == j,
    decreases j - i,
{
    if i < j {
        lemma_find_first(s, b, i + 1, j);
    }
}

/// A quantum bit that is written with its amplitudes as they are printed
/// is read as the same quantum bit: the printed form of the amplitudes is
/// stable under reading and printing again.
pub proof fn lemma_qbit_round_trip(q: QbitView)
    requires
        q.wf(),
    ensures
        qbit_of(qbit_source(q)) == Ok::<QbitView, QccErrorKind>(q),
{
    let text = qbit_source(q);
    let a = q.amp_0.bytes();
    let b = q.amp_1.bytes();
    lemma_number_bytes(q.amp_0);
    lemma_number_bytes(q.amp_1);
    crate::number::lemma_numeral_round_trip(q.amp_0);
    crate::number::lemma_numeral_round_trip(q.amp_1);
    assert(text.len() == a.len() + b.len() + 5);
    assert(text[0] == ZERO && text[1] == LETTER_Q && text[2] == OPEN_PAREN);
    assert(text.last() == CLOSE_PAREN);
    let inner = text.subrange(3, text.len() - 1);
    assert(inner =~= a + seq![COMMA] + b);
    assert forall|k: int| 0 <= k < a.len() implies #[trigger] inner[k] != COMMA by {
        assert(inner[k] == a[k]);
    }
    assert(inner[a.len() as int] == COMMA);
    lemma_find_first(inner, COMMA, 0, a.len() as int);
    assert(inner.subrange(0, a.len() as int) =~= a);
    assert(inner.subrange(a.len() as int + 1, inner.len() as int) =~= b);
    assert(!is_space(a[0]) && !is_space(a.last()));
    assert(!is_space(b[0]) && !is_space(b.last()));
    lemma_trimmed_same(a);
    lemma_trimmed_same(b);
}

impl Qbit {
    /// Reads a quantum bit literal.
    pub fn parse(text: &[u8]) -> (r: Result<Qbit, QccErrorKind>)
        ensures
            match qbit_of(text@) {
                Ok(q) => r is Ok && r->Ok_0@ == q && q.wf(),
                Err(kind) => r == Err::<Qbit, QccErrorKind>(kind),
            },
    {
        let n = text.len();
        if !(n >= 2 && text[0] == ZERO && text[1] == LETTER_Q) {
            return Err(QccErrorKind::ExpectedQbit);
        }
        if !(n >= 4 && text[2] == OPEN_PAREN && text[n - 1] == CLOSE_PAREN) {
            return Err(QccErrorKind::ExpectedParenth);
        }
        let inner = slice_subrange(text, 3, n - 1);
        let comma = position(inner, COMMA, 0);
        if comma >= inner.len() {
            return Err(QccErrorKind::ExpectedComma);
        }
        let left = slice_subrange(inner, 0, comma);
        let (a, b) = trim(left);
        let first = Number::parse(slice_subrange(left, a, b));
        let right = slice_subrange(inner, comma + 1, inner.len());
        let (c, d) = trim(right);
        let second = Number::parse(slice_subrange(right, c, d));
        match (first, second) {
            (Some(amp_0), Some(amp_1)) => Ok(Qbit { amp_0, amp_1 }),
            _ => Err(QccErrorKind::ExpectedAmpinQbit),
        }
    }

    /// Reads a quantum bit literal.
    pub fn from_str(s: &str) -> (r: Result<Qbit, QccErrorKind>)
        ensures
            match qbit_of(s.spec_bytes()) {
                Ok(q) => r is Ok && r->Ok_0@ == q && q.wf(),
                Err(kind) => r == Err::<Qbit, QccErrorKind>(kind),
            },
    {
        Qbit::parse(s.as_bytes())
    }

    /// Appends the text of the literal to `s`.
    pub fn push_to(&self, s: &mut String)
        ensures
            final(s)@ == old(s)@ + self@.label(),
    {
        s.append("0q");
        self.amp_0.push_to(s);
        s.append("_");
        self.amp_1.push_to(s);
        assert(final(s)@ =~= old(s)@ + self@.label());
    }

    pub fn to_string(&self) -> (s: String)
        ensures
            s@ == self@.label(),
    {
        let mut s = String::new();
        self.push_to(&mut s);
        assert(s@ =~= self@.label());
        s
    }
}

/// A literal of the source.
#[derive(Debug)]
pub enum LiteralAST {
    Qbit(Qbit),
    Digit(Number),
    Boolean(bool),
    /// a string, without the quotation marks around it
    Str(Vec<u8>),
}

pub enum LiteralView {
    Qbit(QbitView),
    Digit(NumberView),
    Boolean(bool),
    Str(Seq<u8>),
}

impl View for LiteralAST {
    type V = LiteralView;

    open spec fn view(&self) -> LiteralView {
        match self {
            LiteralAST::Qbit(q) => LiteralView::Qbit(q@),
            LiteralAST::Digit(d) => LiteralView::Digit(d@),
            LiteralAST::Boolean(b) => LiteralView::Boolean(*b),
            LiteralAST::Str(s) => LiteralView::Str(s@),
        }
    }
}

impl Clone for LiteralAST {
    fn clone(&self) -> (r: Self)
        ensures
            r@ == self@,
    {
        match self {
            LiteralAST::Qbit(q) => LiteralAST::Qbit(q.clone()),
            LiteralAST::Digit(d) => LiteralAST::Digit(d.clone()),
            LiteralAST::Boolean(b) => LiteralAST::Boolean(*b),
            LiteralAST::Str(s) => LiteralAST::Str(s.clone()),
        }
    }
}

/// The literal that `text` spells, or what is wrong with it. A text that
/// starts with a quotation mark is a string, and strings are not accepted;
/// one that starts with `0q` has to be a quantum bit; `true` and `false`
/// are the booleans; anything else has to be a numeral.
pub open spec fn literal_of(text: Seq<u8>) -> Result<LiteralView, QccErrorKind> {
    if text.len() >= 1 && text[0] == QUOTE {
        Err(QccErrorKind::UnexpectedStr)
    } else if text.len() >= 2 && text[0] == ZERO && text[1] == LETTER_Q {
        match qbit_of(text) {
            Ok(q) => Ok(LiteralView::Qbit(q)),
            Err(kind) => Err(kind),
        }
    } else if latin(text) == "true"@ {
        Ok(LiteralView::Boolean(true))
    } else if latin(text) == "false"@ {
        Ok(LiteralView::Boolean(false))
    } else {
        match numeral(text) {
            Some(n) => Ok(LiteralView::Digit(n)),
            None => Err(QccErrorKind::UnexpectedDigit),
        }
    }
}

impl LiteralView {
    /// The type a literal has by itself.
    pub open spec fn type_of(self) -> Type {
        match self {
            LiteralView::Qbit(_) => Type::Qbit,
            LiteralView::Digit(_) => Type::F64,
            LiteralView::Boolean(_) => Type::Bit,
            LiteralView::Str(_) => Type::Bottom,
        }
    }

    /// How a literal is printed.
    pub open spec fn label(self) -> Seq<char> {
        match self {
            LiteralView::Qbit(q) => q.label(),
            LiteralView::Digit(d) => d.label(),
            LiteralView::Boolean(b) => if b {
                "true"@
            } else {
                "false"@
            },
            LiteralView::Str(s) => "\""@ + latin(s) + "\""@,
        }
    }
}

impl LiteralAST {
    /// Reads a literal.
    pub fn parse(text: &[u8]) -> (r: Result<LiteralAST, QccErrorKind>)
        ensures
            match literal_of(text@) {
                Ok(l) => r is Ok && r->Ok_0@ == l,
                Err(kind) => r == Err::<LiteralAST, QccErrorKind>(kind),
            },
    {
        let n = text.len();
        let word = crate::text::text_of(text, 0, n);
        assert(text@.subrange(0, n as int) =~= text@);
        if n >= 1 && text[0] == QUOTE {
            Err(QccErrorKind::UnexpectedStr)
        } else if n >= 2 && text[0] == ZERO && text[1] == LETTER_Q {
            match Qbit::parse(text) {
                Ok(q) => Ok(LiteralAST::Qbit(q)),
                Err(kind) => Err(kind),
            }
        } else if word == String::from_str("true") {
            Ok(LiteralAST::Boolean(true))
        } else if word == String::from_str("false") {
            Ok(LiteralAST::Boolean(false))
        } else {
            match Number::parse(text) {
                Some(d) => Ok(LiteralAST::Digit(d)),
                None => Err(QccErrorKind::UnexpectedDigit),
            }
        }
    }

    /// Reads a literal.
    pub fn from_str(s: &str) -> (r: Result<LiteralAST, QccErrorKind>)
        ensures
            match literal_of(s.spec_bytes()) {
                Ok(l) => r is Ok && r->Ok_0@ == l,
                Err(kind) => r == Err::<LiteralAST, QccErrorKind>(kind),
            },
    {
        LiteralAST::parse(s.as_bytes())
    }

    /// The type the literal has by itself.
    pub fn get_type(&self) -> (t: Type)
        ensures
            t == self@.type_of(),
    {
        match self {
            LiteralAST::Qbit(_) => Type::Qbit,
            LiteralAST::Digit(_) => Type::F64,
            LiteralAST::Boolean(_) => Type::Bit,
            LiteralAST::Str(_) => Type::Bottom,
        }
    }

    /// Appends the text of the literal to `s`.
    pub fn push_to(&self, s: &mut String)
        ensures
            final(s)@ == old(s)@ + self@.label(),
    {
        match self {
            LiteralAST::Qbit(q) => q.push_to(s),
            LiteralAST::Digit(d) => d.push_to(s),
            LiteralAST::Boolean(b) => {
                if *b {
                    s.append("true");
                } else {
                    s.append("false");
                }
            },
            LiteralAST::Str(text) => {
                s.append("\"");
                crate::text::push_bytes(s, text.as_slice(), 0, text.len());
                s.append("\"");
                proof {
                    assert(text@.subrange(0, text@.len() as int) =~= text@);
                    assert(final(s)@ =~= old(s)@ + self@.label());
                }
            },
        }
    }

    pub fn to_string(&self) -> (s: String)
        ensures
            s@ == self@.label(),
    {
        let mut s = String::new();
        self.push_to(&mut s);
        assert(s@ =~= self@.label());
        s
    }
}

/// A variable: its name, where it stands, its type, and whether a minus
/// sign stands before it.
#[derive(Debug)]
pub struct VarAST {
    pub name: Ident,
    pub location: Location,
    pub type_: Type,
    pub unary_negative: bool,
}

pub struct VarView {
    pub name: Seq<char>,
    pub location: LocationView,
    pub type_: Type,
    pub unary_negative: bool,
}

impl View for VarAST {
    type V = VarView;

    open spec fn view(&self) -> VarView {
        VarView {
            name: self.name@,
            location: self.location@,
            type_: self.type_,
            unary_negative: self.unary_negative,
        }
    }
}

impl Clone for VarAST {
    fn clone(&self) -> (r: Self)
        ensures
            r@ == self@,
    {
        VarAST {
            name: self.name.clone(),
            location: self.location.clone(),
            type_: self.type_,
            unary_negative: self.unary_negative,
        }
    }
}

impl PartialEq for VarAST {
    fn eq(&self, other: &Self) -> (r: bool) {
        self.name == other.name && self.location == other.location && self.type_ == other.type_
            && self.unary_negative == other.unary_negative
    }
}

impl vstd::std_specs::cmp::PartialEqSpecImpl for VarAST {
    open spec fn obeys_eq_spec() -> bool {
        true
    }

    open spec fn eq_spec(&self, other: &Self) -> bool {
        self@ == other@
    }
}

impl VarView {
    /// Whether the type of the variable is known.
    pub open spec fn is_typed(self) -> bool {
        self.type_ != Type::Bottom
    }

    /// How a variable is printed: the sign, the name, and the type where
    /// it is known.
    pub open spec fn label(self) -> Seq<char> {
        (if self.unary_negative {
            "-"@
        } else {
            Seq::<char>::empty()
        }) + self.name + (if self.type_ != Type::Bottom {
            ": "@ + self.type_.label()
        } else {
            Seq::<char>::empty()
        })
    }
}

impl VarAST {
    /// A variable of unknown type.
    pub fn new(name: Ident, location: Location) -> (v: Self)
        ensures
            v@ == (VarView {
                name: name@,
                location: location@,
                type_: Type::Bottom,
                unary_negative: false,
            }),
    {
        VarAST { name, location, type_: Type::Bottom, unary_negative: false }
    }

    pub fn new_with_type(name: Ident, location: Location, type_: Type) -> (v: Self)
        ensures
            v@ == (VarView { name: name@, location: location@, type_, unary_negative: false }),
    {
        VarAST { name, location, type_, unary_negative: false }
    }

    pub fn new_with_sign(name: Ident, location: Location, unary_negative: bool) -> (v: Self)
        ensures
            v@ == (VarView { name: name@, location: location@, type_: Type::Bottom, unary_negative }),
    {
        VarAST { name, location, type_: Type::Bottom, unary_negative }
    }

    pub fn set_type(&mut self, type_: Type)
        ensures
            final(self)@ == (VarView { type_, ..old(self)@ }),
    {
        self.type_ = type_;
    }

    pub fn name(&self) -> (n: &Ident)
        ensures
            n@ == self@.name,
    {
        &self.name
    }

    pub fn location(&self) -> (l: &Location)
        ensures
            l@ == self@.location,
    {
        &self.location
    }

    pub fn is_typed(&self) -> (r: bool)
        ensures
            r == self@.is_typed(),
    {
        self.type_ != Type::Bottom
    }

    pub fn get_type(&self) -> (t: Type)
        ensures
            t == self@.type_,
    {
        self.type_
    }

    /// Appends the text of the variable to `s`.
    pub fn push_to(&self, s: &mut String)
        ensures
            final(s)@ == old(s)@ + self@.label(),
    {
        if self.unary_negative {
            s.append("-");
        }
        s.append(self.name.as_str());
        if self.type_ != Type::Bottom {
            s.append(": ");
            s.append(self.type_.to_string().as_str());
        }
        assert(final(s)@ =~= old(s)@ + self@.label());
    }

    pub fn to_string(&self) -> (s: String)
        ensures
            s@ == self@.label(),
    {
        let mut s = String::new();
        self.push_to(&mut s);
        assert(s@ =~= self@.label());
        s
    }
}

/// The function a call refers to: its name, where the call stands, and
/// what inference has found out of its types.
#[derive(Debug)]
pub struct FunctionRef {
    pub name: Ident,
    pub location: Location,
    pub input_types: Vec<Type>,
    pub output_type: Type,
}

pub struct FunctionRefView {
    pub name: Seq<char>,
    pub location: LocationView,
    pub input_types: Seq<Type>,
    pub output_type: Type,
}

impl View for FunctionRef {
    type V = FunctionRefView;

    open spec fn view(&self) -> FunctionRefView {
        FunctionRefView {
            name: self.name@,
            location: self.location@,
            input_types: self.input_types@,
            output_type: self.output_type,
        }
    }
}

impl Clone for FunctionRef {
    fn clone(&self) -> (r: Self)
        ensures
            r@ == self@,
    {
        FunctionRef {
            name: self.name.clone(),
            location: self.location.clone(),
            input_types: self.input_types.clone(),
            output_type: self.output_type,
        }
    }
}

impl FunctionRef {
    /// A reference of which nothing but name and place is known.
    pub fn new(name: Ident, location: Location) -> (f: Self)
        ensures
            f@ == (FunctionRefView {
                name: name@,
                location: location@,
                input_types: Seq::empty(),
                output_type: Type::Bottom,
            }),
    {
        FunctionRef { name, location, input_types: Vec::new(), output_type: Type::Bottom }
    }

    pub fn get_name(&self) -> (n: &Ident)
        ensures
            n@ == self@.name,
    {
        &self.name
    }

    pub fn get_loc(&self) -> (l: &Location)
        ensures
            l@ == self@.location,
    {
        &self.location
    }

    pub fn get_output_type(&self) -> (t: Type)
        ensures
            t == self@.output_type,
    {
        self.output_type
    }
}

/// An expression or statement.
#[derive(Debug)]
pub enum Expr {
    Var(VarAST),
    Literal(LiteralAST),
    BinaryExpr(Box<Expr>, Opcode, Box<Expr>),
    Tensor(Vec<Expr>),
    FnCall(FunctionRef, Vec<Expr>),
    Let(VarAST, Box<Expr>),
    Assign(VarAST, Box<Expr>),
    Conditional(Box<Expr>, Vec<Expr>, Vec<Expr>),
}

pub enum ExprView {
    Var(VarView),
    Literal(LiteralView),
    BinaryExpr(Box<ExprView>, Opcode, Box<ExprView>),
    Tensor(Seq<ExprView>),
    FnCall(FunctionRefView, Seq<ExprView>),
    Let(VarView, Box<ExprView>),
    Assign(VarView, Box<ExprView>),
    Conditional(Box<ExprView>, Seq<ExprView>, Seq<ExprView>),
}

/// The model of an expression.
pub open spec fn expr_view(e: Expr) -> ExprView
    decreases e,
{
    match e {
        Expr::Var(v) => ExprView::Var(v@),
        Expr::Literal(l) => ExprView::Literal(l@),
        Expr::BinaryExpr(lhs, op, rhs) => ExprView::BinaryExpr(
            Box::new(expr_view(*lhs)),
            op,
            Box::new(expr_view(*rhs)),
        ),
        Expr::Tensor(items) => ExprView::Tensor(
            Seq::new(
                items@.len(),
                |i: int|
                    if 0 <= i < items@.len() {
                        expr_view(items@[i])
                    } else {
                        arbitrary()
                    },
            ),
        ),
        Expr::FnCall(f, args) => ExprView::FnCall(
            f@,
            Seq::new(
                args@.len(),
                |i: int|
                    if 0 <= i < args@.len() {
                        expr_view(args@[i])
                    } else {
                        arbitrary()
                    },
            ),
        ),
        Expr::Let(var, val) => ExprView::Let(var@, Box::new(expr_view(*val))),
        Expr::Assign(var, val) => ExprView::Assign(var@, Box::new(expr_view(*val))),
        Expr::Conditional(cond, yes, no) => ExprView::Conditional(
            Box::new(expr_view(*cond)),
            Seq::new(
                yes@.len(),
                |i: int|
                    if 0 <= i < yes@.len() {
                        expr_view(yes@[i])
                    } else {
                        arbitrary()
                    },
            ),
            Seq::new(
                no@.len(),
                |i: int|
                    if 0 <= i < no@.len() {
                        expr_view(no@[i])
                    } else {
                        arbitrary()
                    },
            ),
        ),
    }
}

impl View for Expr {
    type V = ExprView;

    open spec fn view(&self) -> ExprView {
        expr_view(*self)
    }
}

/// The models of a sequence of expressions.
pub open spec fn views(items: Seq<Expr>) -> Seq<ExprView> {
    Seq::new(items.len(), |i: int| items[i]@)
}

/// The model of an expression with children is made of the models of the
/// children.
pub proof fn lemma_expr_view(e: Expr)
    ensures
        match e {
            Expr::Var(v) => e@ == ExprView::Var(v@),
            Expr::Literal(l) => e@ == ExprView::Literal(l@),
            Expr::BinaryExpr(lhs, op, rhs) => e@ == ExprView::BinaryExpr(Box::new(lhs@), op, Box::new(rhs@)),
            Expr::Tensor(items) => e@ == ExprView::Tensor(views(items@)),
            Expr::FnCall(f, args) => e@ == ExprView::FnCall(f@, views(args@)),
            Expr::Let(var, val) => e@ == ExprView::Let(var@, Box::new(val@)),
            Expr::Assign(var, val) => e@ == ExprView::Assign(var@, Box::new(val@)),
            Expr::Conditional(cond, yes, no) => e@ == ExprView::Conditional(
                Box::new(cond@),
                views(yes@),
                views(no@),
            ),
        },
{
    match e {
        Expr::Tensor(items) => {
            assert(e@->Tensor_0 =~= views(items@));
        },
        Expr::FnCall(f, args) => {
            assert(e@->FnCall_1 =~= views(args@));
        },
        Expr::Conditional(cond, yes, no) => {
            assert(e@->Conditional_1 =~= views(yes@));
            assert(e@->Conditional_2 =~= views(no@));
        },
        _ => {},
    }
}

/// The type of two operands taken together: their common type; a quantum
/// bit where a quantum bit meets a float; unknown otherwise.
pub open spec fn combined(lhs: Type, rhs: Type) -> Type {
    if lhs == rhs {
        lhs
    } else if (lhs == Type::F64 && rhs == Type::Qbit) || (lhs == Type::Qbit && rhs == Type::F64) {
        Type::Qbit
    } else {
        Type::Bottom
    }
}

/// The type an expression shows by its structure. A tensor has the type of
/// its first item; a conditional that has both branches has the type of the
/// last expression of its first branch.
pub open spec fn type_of(e: ExprView) -> Type
    decreases e,
{
    match e {
        ExprView::Var(v) => v.type_,
        ExprView::Literal(l) => l.type_of(),
        ExprView::BinaryExpr(lhs, _, rhs) => combined(type_of(*lhs), type_of(*rhs)),
        ExprView::Tensor(items) => if items.len() == 0 {
            Type::Bottom
        } else {
            type_of(items[0])
        },
        ExprView::FnCall(f, _) => f.output_type,
        ExprView::Let(var, _) => var.type_,
        ExprView::Assign(var, _) => var.type_,
        ExprView::Conditional(_, yes, no) => if yes.len() == 0 || no.len() == 0 {
            Type::Bottom
        } else {
            type_of(yes.last())
        },
    }
}

/// The place an expression stands at: that of its first part. A literal
/// has no place of its own.
pub open spec fn location_of(e: ExprView) -> LocationView
    decreases e,
{
    match e {
        ExprView::Var(v) => v.location,
        ExprView::Literal(_) => LocationView::unknown(),
        ExprView::BinaryExpr(lhs, _, _) => location_of(*lhs),
        ExprView::Tensor(items) => if items.len() == 0 {
            LocationView::unknown()
        } else {
            location_of(items[0])
        },
        ExprView::FnCall(f, _) => f.location,
        ExprView::Let(var, _) => var.location,
        ExprView::Assign(var, _) => var.location,
        ExprView::Conditional(cond, _, _) => location_of(*cond),
    }
}

/// Copies a list of expressions.
pub fn clone_all(items: &Vec<Expr>) -> (r: Vec<Expr>)
    ensures
        views(r@) == views(items@),
    decreases items,
{
    let mut out: Vec<Expr> = Vec::new();
    let mut i: usize = 0;
    while i < items.len()
        invariant
            i <= items@.len(),
            out@.len() == i,
            forall|j: int| 0 <= j < i ==> out@[j]@ == items@[j]@,
        decreases items@.len() - i,
    {
        out.push(items[i].clone());
        i = i + 1;
    }
    assert(views(out@) =~= views(items@));
    out
}

impl Clone for Expr {
    fn clone(&self) -> (r: Self)
        ensures
            r@ == self@,
        decreases self,
    {
        proof {
            lemma_expr_view(*self);
        }
        let r = match self {
            Expr::Var(v) => Expr::Var(v.clone()),
            Expr::Literal(l) => Expr::Literal(l.clone()),
            Expr::BinaryExpr(lhs, op, rhs) => Expr::BinaryExpr(
                Box::new((**lhs).clone()),
                *op,
                Box::new((**rhs).clone()),
            ),
            Expr::Tensor(items) => Expr::Tensor(clone_all(items)),
            Expr::FnCall(f, args) => Expr::FnCall(f.clone(), clone_all(args)),
            Expr::Let(var, val) => Expr::Let(var.clone(), Box::new((**val).clone())),
            Expr::Assign(var, val) => Expr::Assign(var.clone(), Box::new((**val).clone())),
            Expr::Conditional(cond, yes, no) => Expr::Conditional(
                Box::new((**cond).clone()),
                clone_all(yes),
                clone_all(no),
            ),
        };
        proof {
            lemma_expr_view(r);
        }
        r
    }
}

impl Expr {
    /// The place the expression stands at.
    pub fn get_location(&self) -> (loc: Location)
        ensures
            loc@ == location_of(self@),
        decreases self,
    {
        proof {
            lemma_expr_view(*self);
        }
        match self {
            Expr::Var(v) => v.location.clone(),
            Expr::Literal(_) => Location::default(),
            Expr::BinaryExpr(lhs, _, _) => lhs.get_location(),
            Expr::Tensor(items) => if items.len() == 0 {
                Location::default()
            } else {
                items[0].get_location()
            },
            Expr::FnCall(f, _) => f.location.clone(),
            Expr::Let(var, _) => var.location.clone(),
            Expr::Assign(var, _) => var.location.clone(),
            Expr::Conditional(cond, _, _) => cond.get_location(),
        }
    }

    /// The type the expression shows by its structure.
    pub fn get_type(&self) -> (t: Type)
        ensures
            t == type_of(self@),
        decreases self,
    {
        proof {
            lemma_expr_view(*self);
        }
        match self {
            Expr::Var(v) => v.type_,
            Expr::Literal(l) => l.get_type(),
            Expr::BinaryExpr(lhs, _, rhs) => combine(lhs.get_type(), rhs.get_type()),
            Expr::Tensor(items) => if items.len() == 0 {
                Type::Bottom
            } else {
                items[0].get_type()
            },
            Expr::FnCall(f, _) => f.output_type,
            Expr::Let(var, _) => var.type_,
            Expr::Assign(var, _) => var.type_,
            Expr::Conditional(_, yes, no) => if yes.len() == 0 || no.len() == 0 {
                Type::Bottom
            } else {
                yes[yes.len() - 1].get_type()
            },
        }
    }
}

/// The type of two operands taken together.
pub fn combine(lhs: Type, rhs: Type) -> (t: Type)
    ensures
        t == combined(lhs, rhs),
{
    if lhs == rhs {
        lhs
    } else if (lhs == Type::F64 && rhs == Type::Qbit) || (lhs == Type::Qbit && rhs == Type::F64) {
        Type::Qbit
    } else {
        Type::Bottom
    }
}

/// A function definition.
#[derive(Debug)]
pub struct FunctionAST {
    pub name: Ident,
    pub location: Location,
    pub params: Vec<VarAST>,
    pub input_type: Vec<Type>,
    pub output_type: Type,
    pub attrs: Attributes,
    pub body: Vec<Expr>,
}

pub struct FunctionView {
    pub name: Seq<char>,
    pub location: LocationView,
    pub params: Seq<VarView>,
    pub input_type: Seq<Type>,
    pub output_type: Type,
    pub attrs: Seq<Attribute>,
    pub body: Seq<ExprView>,
}

/// The models of a sequence of variables.
pub open spec fn var_views(vars: Seq<VarAST>) -> Seq<VarView> {
    Seq::new(vars.len(), |i: int| vars[i]@)
}

impl View for FunctionAST {
    type V = FunctionView;

    open spec fn view(&self) -> FunctionView {
        FunctionView {
            name: self.name@,
            location: self.location@,
            params: var_views(self.params@),
            input_type: self.input_type@,
            output_type: self.output_type,
            attrs: self.attrs@,
            body: views(self.body@),
        }
    }
}

/// Copies a list of variables.
pub fn clone_vars(vars: &Vec<VarAST>) -> (r: Vec<VarAST>)
    ensures
        var_views(r@) == var_views(vars@),
{
    let mut out: Vec<VarAST> = Vec::new();
    let mut i: usize = 0;
    while i < vars.len()
        invariant
            i <= vars@.len(),
            out@.len() == i,
            forall|j: int| 0 <= j < i ==> out@[j]@ == vars@[j]@,
        decreases vars@.len() - i,
    {
        out.push(vars[i].clone());
        i = i + 1;
    }
    assert(var_views(out@) =~= var_views(vars@));
    out
}

impl Clone for FunctionAST {
    fn clone(&self) -> (r: Self)
        ensures
            r@ == self@,
    {
        FunctionAST {
            name: self.name.clone(),
            location: self.location.clone(),
            params: clone_vars(&self.params),
            input_type: self.input_type.clone(),
            output_type: self.output_type,
            attrs: self.attrs.clone(),
            body: clone_all(&self.body),
        }
    }
}

impl FunctionAST {
    pub fn new(
        name: Ident,
        location: Location,
        params: Vec<VarAST>,
        input_type: Vec<Type>,
        output_type: Type,
        attrs: Attributes,
        body: Vec<Expr>,
    ) -> (f: Self)
        ensures
            f@ == (FunctionView {
                name: name@,
                location: location@,
                params: var_views(params@),
                input_type: input_type@,
                output_type,
                attrs: attrs@,
                body: views(body@),
            }),
    {
        FunctionAST { name, location, params, input_type, output_type, attrs, body }
    }

    /// Adds the type of one more parameter.
    pub fn insert_input_type(&mut self, type_: Type)
        ensures
            final(self)@ == (FunctionView { input_type: old(self)@.input_type.push(type_), ..old(self)@ }),
    {
        self.input_type.push(type_);
    }

    pub fn set_output_type(&mut self, type_: Type)
        ensures
            final(self)@ == (FunctionView { output_type: type_, ..old(self)@ }),
    {
        self.output_type = type_;
    }

    pub fn set_name(&mut self, name: Ident)
        ensures
            final(self)@ == (FunctionView { name: name@, ..old(self)@ }),
    {
        self.name = name;
    }

    pub fn get_name(&self) -> (n: &Ident)
        ensures
            n@ == self@.name,
    {
        &self.name
    }

    pub fn get_loc(&self) -> (l: &Location)
        ensures
            l@ == self@.location,
    {
        &self.location
    }

    pub fn get_input_type(&self) -> (t: &Vec<Type>)
        ensures
            t@ == self@.input_type,
    {
        &self.input_type
    }

    pub fn get_output_type(&self) -> (t: &Type)
        ensures
            *t == self@.output_type,
    {
        &self.output_type
    }

    pub fn get_attrs(&self) -> (a: &Attributes)
        ensures
            a@ == self@.attrs,
    {
        &self.attrs
    }

    /// The last expression of the body, if the body has any.
    pub fn last(&self) -> (e: Option<&Expr>)
        ensures
            match e {
                Some(x) => self@.body.len() > 0 && x@ == self@.body.last(),
                None => self@.body.len() == 0,
            },
    {
        if self.body.len() == 0 {
            None
        } else {
            Some(&self.body[self.body.len() - 1])
        }
    }

    /// The parameters, in order.
    pub fn iter_params(&self) -> (p: &Vec<VarAST>)
        ensures
            var_views(p@) == self@.params,
    {
        &self.params
    }

    /// The expressions of the body, in order.
    pub fn instructions(&self) -> (b: &Vec<Expr>)
        ensures
            views(b@) == self@.body,
    {
        &self.body
    }
}

/// A module: a named list of functions.
#[derive(Debug)]
pub struct ModuleAST {
    pub name: Ident,
    pub location: Location,
    pub functions: Vec<FunctionAST>,
}

pub struct ModuleView {
    pub name: Seq<char>,
    pub location: LocationView,
    pub functions: Seq<FunctionView>,
}

/// The models of a sequence of functions.
pub open spec fn function_views(functions: Seq<FunctionAST>) -> Seq<FunctionView> {
    Seq::new(functions.len(), |i: int| functions[i]@)
}

impl View for ModuleAST {
    type V = ModuleView;

    open spec fn view(&self) -> ModuleView {
        ModuleView {
            name: self.name@,
            location: self.location@,
            functions: function_views(self.functions@),
        }
    }
}

impl ModuleView {
    /// Whether a function of this name is defined in the module.
    pub open spec fn defines(self, name: Seq<char>) -> bool {
        exists|i: int| 0 <= i < self.functions.len() && #[trigger] self.functions[i].name == name
    }

    /// No two functions of the module have the same name.
    pub open spec fn distinct(self) -> bool {
        forall|i: int, j: int|
            0 <= i < j < self.functions.len() ==> #[trigger] self.functions[i].name
                != #[trigger] self.functions[j].name
    }
}

impl Clone for ModuleAST {
    fn clone(&self) -> (r: Self)
        ensures
            r@ == self@,
    {
        let mut functions: Vec<FunctionAST> = Vec::new();
        let mut i: usize = 0;
        while i < self.functions.len()
            invariant
                i <= self.functions@.len(),
                functions@.len() == i,
                forall|j: int| 0 <= j < i ==> functions@[j]@ == self.functions@[j]@,
            decreases self.functions@.len() - i,
        {
            functions.push(self.functions[i].clone());
            i = i + 1;
        }
        assert(function_views(functions@) =~= function_views(self.functions@));
        ModuleAST { name: self.name.clone(), location: self.location.clone(), functions }
    }
}

impl ModuleAST {
    pub fn new(name: Ident, location: Location, functions: Vec<FunctionAST>) -> (m: Self)
        ensures
            m@ == (ModuleView {
                name: name@,
                location: location@,
                functions: function_views(functions@),
            }),
    {
        ModuleAST { name, location, functions }
    }

    /// Whether a function of this name is defined in the module.
    pub fn defines(&self, name: &Ident) -> (r: bool)
        ensures
            r == self@.defines(name@),
    {
        let mut i: usize = 0;
        while i < self.functions.len()
            invariant
                i <= self.functions@.len(),
                forall|j: int| 0 <= j < i ==> self@.functions[j].name != name@,
            decreases self.functions@.len() - i,
        {
            if self.functions[i].name == *name {
                assert(self@.functions[i as int].name == name@);
                return true;
            }
            i = i + 1;
        }
        false
    }

    /// Adds a function at the end, unless the module has one of that name
    /// already: then the module stays as it is and the function is refused.
    pub fn append_function(&mut self, function: FunctionAST) -> (r: Result<(), QccErrorKind>)
        ensures
            old(self)@.defines(function@.name) ==> r == Err::<(), QccErrorKind>(
                QccErrorKind::RedefinedFunction,
            ) && final(self)@ == old(self)@,
            !old(self)@.defines(function@.name) ==> r is Ok && final(self)@ == (ModuleView {
                functions: old(self)@.functions.push(function@),
                ..old(self)@
            }),
            old(self)@.distinct() ==> final(self)@.distinct(),
    {
        if self.defines(&function.name) {
            return Err(QccErrorKind::RedefinedFunction);
        }
        self.functions.push(function);
        proof {
            assert(final(self)@.functions =~= old(self)@.functions.push(function@));
            if old(self)@.distinct() {
                let now = final(self)@.functions;
                assert forall|i: int, j: int| 0 <= i < j < now.len() implies #[trigger] now[i].name
                    != #[trigger] now[j].name by {
                    if j < old(self)@.functions.len() {
                        assert(old(self)@.functions[i].name != old(self)@.functions[j].name);
                    } else {
                        assert(old(self)@.functions[i].name != function@.name);
                    }
                }
            }
        }
        Ok(())
    }

    pub fn get_name(&self) -> (n: Ident)
        ensures
            n@ == self@.name,
    {
        self.name.clone()
    }

    /// The functions, in order.
    pub fn iter(&self) -> (f: &Vec<FunctionAST>)
        ensures
            function_views(f@) == self@.functions,
    {
        &self.functions
    }
}

/// A program: its modules in the order they were found.
#[derive(Debug)]
pub struct Qast {
    pub modules: Vec<ModuleAST>,
}

/// The models of a sequence of modules.
pub open spec fn module_views(modules: Seq<ModuleAST>) -> Seq<ModuleView> {
    Seq::new(modules.len(), |i: int| modules[i]@)
}

impl View for Qast {
    type V = Seq<ModuleView>;

    open spec fn view(&self) -> Seq<ModuleView> {
        module_views(self.modules@)
    }
}

impl Default for Qast {
    fn default() -> (q: Self)
        ensures
            q@ == Seq::<ModuleView>::empty(),
    {
        let q = Qast { modules: Vec::new() };
        assert(q@ =~= Seq::<ModuleView>::empty());
        q
    }
}

impl Clone for Qast {
    fn clone(&self) -> (r: Self)
        ensures
            r@ == self@,
    {
        let mut modules: Vec<ModuleAST> = Vec::new();
        let mut i: usize = 0;
        while i < self.modules.len()
            invariant
                i <= self.modules@.len(),
                modules@.len() == i,
                forall|j: int| 0 <= j < i ==> modules@[j]@ == self.modules@[j]@,
            decreases self.modules@.len() - i,
        {
            modules.push(self.modules[i].clone());
            i = i + 1;
        }
        let r = Qast { modules };
        assert(r@ =~= self@);
        r
    }
}

impl Qast {
    pub fn new(modules: Vec<ModuleAST>) -> (q: Self)
        ensures
            q.modules == modules,
    {
        Qast { modules }
    }

    /// Adds a module at the end.
    pub fn append_module(&mut self, module: ModuleAST)
        ensures
            final(self)@ == old(self)@.push(module@),
    {
        self.modules.push(module);
        assert(final(self)@ =~= old(self)@.push(module@));
    }

    /// The modules, in order.
    pub fn iter(&self) -> (m: &Vec<ModuleAST>)
        ensures
            *m == self.modules,
    {
        &self.modules
    }
}

} // verus!
