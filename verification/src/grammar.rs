//! The grammar of Quale over the tokens of the lexer: what each production
//! makes of the tokens from a position on, and where it stops.
//!
//! Each production is given twice: as a function of the model, which says
//! what the production is, and as a function of the parser, which computes
//! it. A production that reads on behind another one asks that the other
//! one has moved on; that is what makes the definitions well founded, and a
//! production that succeeds always has moved on.
use crate::ast::{
    function_views, lemma_expr_view, qbit_of, var_views, views, Expr, ExprView, FunctionAST,
    FunctionRef, FunctionRefView, FunctionView, Ident, LiteralAST, LiteralView, ModuleAST,
    ModuleView, Opcode, Qbit, VarAST, VarView,
};
use crate::attributes::{Attribute, Attributes};
use crate::mangler::{sanitize_bytes, sanitized};
use crate::error::QccErrorKind;
use crate::lexer::{lexeme_views, plain_tokens, Lexeme, LexemeView, Location, LocationView, Token};
use crate::number::{numeral, Number, NumberView};
use crate::parser::Parser;
use crate::types::Type;
use vstd::prelude::*;
use crate::text::ZERO;

verus! {

/// What a production makes of the tokens: a value or the kind of error,
/// and the position of the first token it did not take.
pub struct Parsed<T> {
    pub value: Result<T, QccErrorKind>,
    pub next: int,
}

/// The same, as the parser computes it.
pub struct Step<T> {
    pub value: Result<T, QccErrorKind>,
    pub next: usize,
}

/// A production that took the tokens up to `next` and made `value`.
pub open spec fn done<T>(value: T, next: int) -> Parsed<T> {
    Parsed { value: Ok(value), next }
}

/// A production that failed at `next`.
pub open spec fn failed<T>(kind: QccErrorKind, next: int) -> Parsed<T> {
    Parsed { value: Err(kind), next }
}

/// Whether the parser computed what the grammar says.
pub open spec fn agrees<T: View>(step: Step<T>, parsed: Parsed<T::V>) -> bool {
    &&& step.next == parsed.next
    &&& match parsed.value {
        Ok(v) => step.value is Ok && step.value->Ok_0@ == v,
        Err(kind) => step.value == Err::<T, QccErrorKind>(kind),
    }
}

/// The kind of the token at `pos`, if there is a token.
pub open spec fn kind_at(tokens: Seq<LexemeView>, pos: int) -> Option<Token> {
    if 0 <= pos < tokens.len() {
        Some(tokens[pos].token)
    } else {
        None
    }
}

/// Whether the token at `pos` is of kind `t`.
pub open spec fn is_at(tokens: Seq<LexemeView>, pos: int, t: Token) -> bool {
    kind_at(tokens, pos) == Some(t)
}

/// Whether an operator between two operands stands at `pos`.
pub open spec fn binop_at(tokens: Seq<LexemeView>, pos: int) -> bool {
    0 <= pos < tokens.len() && tokens[pos].token.is_binop()
}

/// The literal zero that stands before a minus sign without a left side.
pub open spec fn zero() -> ExprView {
    ExprView::Literal(
        LiteralView::Digit(NumberView { negative: false, whole: seq![ZERO], fraction: Seq::empty() }),
    )
}

/// An operand with the minus sign that stood before it: zero minus the
/// operand.
pub open spec fn signed(e: ExprView, negative: bool) -> ExprView {
    if negative {
        ExprView::BinaryExpr(Box::new(zero()), Opcode::Sub, Box::new(e))
    } else {
        e
    }
}

/// The error for a list that ends before its closing token.
pub open spec fn unclosed(close: Token) -> QccErrorKind {
    if close == Token::CBracket {
        QccErrorKind::ExpectedClosedBracket
    } else {
        QccErrorKind::ExpectedParenth
    }
}

/// The expression that starts at `pos`.
///
/// A quantum bit literal is an expression by itself. Otherwise a minus sign
/// may come first, and then an operand.
pub open spec fn expr_at(tokens: Seq<LexemeView>, pos: int) -> Parsed<ExprView>
    decreases tokens.len() - pos, 2nat,
{
    if pos < 0 || pos >= tokens.len() {
        failed(QccErrorKind::ExpectedExpr, pos)
    } else if tokens[pos].token == Token::Qbit {
        match qbit_of(tokens[pos].bytes) {
            Ok(q) => done(ExprView::Literal(LiteralView::Qbit(q)), pos + 1),
            Err(kind) => failed(kind, pos),
        }
    } else if tokens[pos].token == Token::Sub {
        operand_at(tokens, pos + 1, true)
    } else {
        operand_at(tokens, pos, false)
    }
}

/// The operand that starts at `pos`, before which a minus sign stood if
/// `negative` says so.
///
/// A name before a parenthesis is a call; any other name is a variable,
/// which carries the sign itself. A numeral, a boolean, a tensor and an
/// expression in parentheses are operands too. Behind a variable, a
/// numeral, a boolean and a closing parenthesis, operators may go on.
pub open spec fn operand_at(tokens: Seq<LexemeView>, pos: int, negative: bool) -> Parsed<ExprView>
    decreases tokens.len() - pos, 1nat,
{
    if pos < 0 || pos >= tokens.len() {
        failed(QccErrorKind::ExpectedExpr, pos)
    } else {
        let t = tokens[pos];
        match t.token {
            Token::Identifier => if is_at(tokens, pos + 1, Token::OParenth) {
                let call = call_at(tokens, pos + 1, t.text(), t.location);
                match call.value {
                    Ok(e) => done(signed(e, negative), call.next),
                    Err(kind) => failed(kind, call.next),
                }
            } else {
                let var = ExprView::Var(
                    VarView {
                        name: t.text(),
                        location: t.location,
                        type_: Type::Bottom,
                        unary_negative: negative,
                    },
                );
                if binop_at(tokens, pos + 1) {
                    tail_at(tokens, pos + 1, var)
                } else {
                    done(var, pos + 1)
                }
            },
            Token::Digit => match numeral(t.bytes) {
                None => failed(QccErrorKind::UnexpectedDigit, pos),
                Some(n) => {
                    let lit = signed(ExprView::Literal(LiteralView::Digit(n)), negative);
                    if binop_at(tokens, pos + 1) {
                        tail_at(tokens, pos + 1, lit)
                    } else {
                        done(lit, pos + 1)
                    }
                },
            },
            Token::Boolean => {
                let lit = signed(ExprView::Literal(LiteralView::Boolean(t.text() == "true"@)), negative);
                if binop_at(tokens, pos + 1) {
                    tail_at(tokens, pos + 1, lit)
                } else {
                    done(lit, pos + 1)
                }
            },
            Token::OBracket => {
                let tensor = tensor_at(tokens, pos);
                match tensor.value {
                    Ok(e) => done(signed(e, negative), tensor.next),
                    Err(kind) => failed(kind, tensor.next),
                }
            },
            Token::OParenth => {
                let inner = expr_at(tokens, pos + 1);
                match inner.value {
                    Err(kind) => failed(kind, inner.next),
                    Ok(e) => if inner.next <= pos || !is_at(tokens, inner.next, Token::CParenth) {
                        failed(QccErrorKind::ExpectedParenth, inner.next)
                    } else if binop_at(tokens, inner.next + 1) {
                        tail_at(tokens, inner.next + 1, signed(e, negative))
                    } else {
                        done(signed(e, negative), inner.next + 1)
                    },
                }
            },
            _ => failed(QccErrorKind::ExpectedExpr, pos),
        }
    }
}

/// The expression that `lhs` makes with the operators from `pos` on. Each
/// operator takes the whole expression behind it as its right side; what
/// was read so far is the left side of the next one.
pub open spec fn tail_at(tokens: Seq<LexemeView>, pos: int, lhs: ExprView) -> Parsed<ExprView>
    decreases tokens.len() - pos, 0nat,
{
    if !binop_at(tokens, pos) {
        failed(QccErrorKind::ExpectedOpcode, pos)
    } else {
        let op = Opcode::of(tokens[pos].token)->0;
        let rhs = expr_at(tokens, pos + 1);
        match rhs.value {
            Err(kind) => failed(kind, rhs.next),
            Ok(r) => {
                let e = ExprView::BinaryExpr(Box::new(lhs), op, Box::new(r));
                if rhs.next > pos && binop_at(tokens, rhs.next) {
                    tail_at(tokens, rhs.next, e)
                } else {
                    done(e, rhs.next)
                }
            },
        }
    }
}

/// The call of function `name` whose arguments start with the parenthesis
/// at `pos`.
pub open spec fn call_at(tokens: Seq<LexemeView>, pos: int, name: Seq<char>, location: LocationView) -> Parsed<
    ExprView,
>
    decreases tokens.len() - pos, 4nat,
{
    let f = FunctionRefView { name, location, input_types: Seq::empty(), output_type: Type::Bottom };
    if !is_at(tokens, pos, Token::OParenth) {
        failed(QccErrorKind::ExpectedParenth, pos)
    } else if is_at(tokens, pos + 1, Token::CParenth) {
        done(ExprView::FnCall(f, Seq::empty()), pos + 2)
    } else {
        let list = list_at(tokens, pos + 1, Token::CParenth, Seq::empty());
        match list.value {
            Ok(args) => done(ExprView::FnCall(f, args), list.next),
            Err(kind) => failed(kind, list.next),
        }
    }
}

/// The tensor that starts with the bracket at `pos`.
pub open spec fn tensor_at(tokens: Seq<LexemeView>, pos: int) -> Parsed<ExprView>
    decreases tokens.len() - pos, 0nat,
{
    if !is_at(tokens, pos, Token::OBracket) {
        failed(QccErrorKind::ExpectedOpenBracket, pos)
    } else if is_at(tokens, pos + 1, Token::CBracket) {
        done(ExprView::Tensor(Seq::empty()), pos + 2)
    } else {
        let list = list_at(tokens, pos + 1, Token::CBracket, Seq::empty());
        match list.value {
            Ok(items) => done(ExprView::Tensor(items), list.next),
            Err(kind) => failed(kind, list.next),
        }
    }
}

/// The expressions from `pos` up to the token `close`, which are separated
/// by commas, added to `seen`. At least one expression is read. Where
/// neither a comma nor the closing token follows an expression, a comma is
/// missing; where nothing follows, the closing token is.
pub open spec fn list_at(tokens: Seq<LexemeView>, pos: int, close: Token, seen: Seq<ExprView>) -> Parsed<
    Seq<ExprView>,
>
    decreases tokens.len() - pos, 3nat,
{
    if pos < 0 || pos > tokens.len() {
        failed(QccErrorKind::ExpectedExpr, pos)
    } else {
        let e = expr_at(tokens, pos);
        match e.value {
            Err(kind) => failed(kind, e.next),
            Ok(x) => if is_at(tokens, e.next, close) {
                done(seen.push(x), e.next + 1)
            } else if is_at(tokens, e.next, Token::Comma) && e.next >= pos {
                list_at(tokens, e.next + 1, close, seen.push(x))
            } else if kind_at(tokens, e.next) is None {
                failed(unclosed(close), e.next)
            } else {
                failed(QccErrorKind::ExpectedComma, e.next)
            },
        }
    }
}

/// The kind of the token at `pos`, if there is a token.
pub fn kind(tokens: &Vec<Lexeme>, pos: usize) -> (t: Option<Token>)
    ensures
        t == kind_at(lexeme_views(tokens@), pos as int),
{
    if pos < tokens.len() {
        Some(tokens[pos].token)
    } else {
        None
    }
}

/// Whether the token at `pos` is of kind `t`.
pub fn at(tokens: &Vec<Lexeme>, pos: usize, t: Token) -> (r: bool)
    ensures
        r == is_at(lexeme_views(tokens@), pos as int, t),
        r ==> pos < tokens@.len() <= usize::MAX,
{
    pos < tokens.len() && tokens[pos].token == t
}

/// Whether an operator between two operands stands at `pos`.
pub fn is_binop(tokens: &Vec<Lexeme>, pos: usize) -> (r: bool)
    ensures
        r == binop_at(lexeme_views(tokens@), pos as int),
        r ==> pos < tokens@.len() <= usize::MAX,
{
    pos < tokens.len() && Opcode::of_token(tokens[pos].token).is_some()
}

/// An operand with the minus sign that stood before it.
fn sign(e: Expr, negative: bool) -> (r: Expr)
    ensures
        r@ == signed(e@, negative),
{
    if negative {
        let mut whole: Vec<u8> = Vec::new();
        whole.push(ZERO);
        let nought = Expr::Literal(
            LiteralAST::Digit(Number { negative: false, whole, fraction: Vec::new() }),
        );
        let r = Expr::BinaryExpr(Box::new(nought), Opcode::Sub, Box::new(e));
        proof {
            lemma_expr_view(nought);
            lemma_expr_view(r);
            assert(whole@ =~= seq![ZERO]);
        }
        r
    } else {
        e
    }
}

impl Parser {
    /// Parses the expression that starts at `pos`.
    pub fn parse_expr(tokens: &Vec<Lexeme>, pos: usize) -> (r: Step<Expr>)
        requires
            pos <= tokens@.len(),
        ensures
            agrees(r, expr_at(lexeme_views(tokens@), pos as int)),
            pos <= r.next <= tokens@.len(),
            r.value is Ok ==> r.next > pos,
        decreases tokens@.len() - pos, 2nat,
    {
        if pos >= tokens.len() {
            return Step { value: Err(QccErrorKind::ExpectedExpr), next: pos };
        }
        if tokens[pos].token == Token::Qbit {
            return match Qbit::parse(tokens[pos].bytes.as_slice()) {
                Ok(q) => {
                    let e = Expr::Literal(LiteralAST::Qbit(q));
                    proof {
                        lemma_expr_view(e);
                    }
                    Step { value: Ok(e), next: pos + 1 }
                },
                Err(kind) => Step { value: Err(kind), next: pos },
            };
        }
        if tokens[pos].token == Token::Sub {
            Self::parse_operand(tokens, pos + 1, true)
        } else {
            Self::parse_operand(tokens, pos, false)
        }
    }

    /// Parses the operand that starts at `pos`.
    fn parse_operand(tokens: &Vec<Lexeme>, pos: usize, negative: bool) -> (r: Step<Expr>)
        requires
            pos <= tokens@.len(),
        ensures
            agrees(r, operand_at(lexeme_views(tokens@), pos as int, negative)),
            pos <= r.next <= tokens@.len(),
            r.value is Ok ==> r.next > pos,
        decreases tokens@.len() - pos, 1nat,
    {
        if pos >= tokens.len() {
            return Step { value: Err(QccErrorKind::ExpectedExpr), next: pos };
        }
        let t = &tokens[pos];
        match t.token {
            Token::Identifier => {
                if at(tokens, pos + 1, Token::OParenth) {
                    let call = Self::parse_fn_call_args(
                        tokens,
                        pos + 1,
                        t.text(),
                        t.location.clone(),
                    );
                    match call.value {
                        Ok(e) => Step { value: Ok(sign(e, negative)), next: call.next },
                        Err(kind) => Step { value: Err(kind), next: call.next },
                    }
                } else {
                    let var = Expr::Var(
                        VarAST::new_with_sign(t.text(), t.location.clone(), negative),
                    );
                    proof {
                        lemma_expr_view(var);
                    }
                    if is_binop(tokens, pos + 1) {
                        Self::parse_binary_expr_with_lhs(tokens, pos + 1, var)
                    } else {
                        Step { value: Ok(var), next: pos + 1 }
                    }
                }
            },
            Token::Digit => {
                match Number::parse(t.bytes.as_slice()) {
                    None => Step { value: Err(QccErrorKind::UnexpectedDigit), next: pos },
                    Some(n) => {
                        let plain = Expr::Literal(LiteralAST::Digit(n));
                        proof {
                            lemma_expr_view(plain);
                        }
                        let lit = sign(plain, negative);
                        if is_binop(tokens, pos + 1) {
                            Self::parse_binary_expr_with_lhs(tokens, pos + 1, lit)
                        } else {
                            Step { value: Ok(lit), next: pos + 1 }
                        }
                    },
                }
            },
            Token::Boolean => {
                let plain = Expr::Literal(LiteralAST::Boolean(t.text() == String::from_str("true")));
                proof {
                    lemma_expr_view(plain);
                }
                let lit = sign(plain, negative);
                if is_binop(tokens, pos + 1) {
                    Self::parse_binary_expr_with_lhs(tokens, pos + 1, lit)
                } else {
                    Step { value: Ok(lit), next: pos + 1 }
                }
            },
            Token::OBracket => {
                let tensor = Self::parse_tensor(tokens, pos);
                match tensor.value {
                    Ok(e) => Step { value: Ok(sign(e, negative)), next: tensor.next },
                    Err(kind) => Step { value: Err(kind), next: tensor.next },
                }
            },
            Token::OParenth => {
                let inner = Self::parse_expr(tokens, pos + 1);
                match inner.value {
                    Err(kind) => Step { value: Err(kind), next: inner.next },
                    Ok(e) => {
                        if !at(tokens, inner.next, Token::CParenth) {
                            Step { value: Err(QccErrorKind::ExpectedParenth), next: inner.next }
                        } else if is_binop(tokens, inner.next + 1) {
                            Self::parse_binary_expr_with_lhs(tokens, inner.next + 1, sign(e, negative))
                        } else {
                            Step { value: Ok(sign(e, negative)), next: inner.next + 1 }
                        }
                    },
                }
            },
            _ => Step { value: Err(QccErrorKind::ExpectedExpr), next: pos },
        }
    }

    /// Parses the operators from `pos` on, with `lhs` as the left side of
    /// the first.
    pub fn parse_binary_expr_with_lhs(tokens: &Vec<Lexeme>, pos: usize, lhs: Expr) -> (r: Step<Expr>)
        requires
            pos <= tokens@.len(),
        ensures
            agrees(r, tail_at(lexeme_views(tokens@), pos as int, lhs@)),
            pos <= r.next <= tokens@.len(),
            r.value is Ok ==> r.next > pos,
        decreases tokens@.len() - pos, 0nat,
    {
        if !is_binop(tokens, pos) {
            return Step { value: Err(QccErrorKind::ExpectedOpcode), next: pos };
        }
        let op = match Opcode::of_token(tokens[pos].token) {
            Some(op) => op,
            None => Opcode::Add,
        };
        let rhs = Self::parse_expr(tokens, pos + 1);
        match rhs.value {
            Err(kind) => Step { value: Err(kind), next: rhs.next },
            Ok(r) => {
                let e = Expr::BinaryExpr(Box::new(lhs), op, Box::new(r));
                proof {
                    lemma_expr_view(e);
                }
                if is_binop(tokens, rhs.next) {
                    Self::parse_binary_expr_with_lhs(tokens, rhs.next, e)
                } else {
                    Step { value: Ok(e), next: rhs.next }
                }
            },
        }
    }

    /// Parses an expression that has an operator: a left side and the
    /// operators behind it.
    pub fn parse_binary_expr(tokens: &Vec<Lexeme>, pos: usize) -> (r: Step<Expr>)
        requires
            pos <= tokens@.len(),
        ensures
            pos <= r.next <= tokens@.len(),
            match kind_at(lexeme_views(tokens@), pos as int) {
                Some(Token::Sub) | Some(Token::Identifier) | Some(Token::Digit) => agrees(
                    r,
                    expr_at(lexeme_views(tokens@), pos as int),
                ),
                _ => r.value == Err::<Expr, QccErrorKind>(QccErrorKind::ExpectedExpr) && r.next == pos,
            },
    {
        match kind(tokens, pos) {
            Some(Token::Sub) | Some(Token::Identifier) | Some(Token::Digit) => Self::parse_expr(
                tokens,
                pos,
            ),
            _ => Step { value: Err(QccErrorKind::ExpectedExpr), next: pos },
        }
    }

    /// Parses the arguments of a call of `name`, which start with the
    /// parenthesis at `pos`.
    pub fn parse_fn_call_args(tokens: &Vec<Lexeme>, pos: usize, name: Ident, location: Location) -> (r:
        Step<Expr>)
        requires
            pos <= tokens@.len(),
        ensures
            agrees(r, call_at(lexeme_views(tokens@), pos as int, name@, location@)),
            pos <= r.next <= tokens@.len(),
            r.value is Ok ==> r.next > pos,
        decreases tokens@.len() - pos, 4nat,
    {
        if !at(tokens, pos, Token::OParenth) {
            return Step { value: Err(QccErrorKind::ExpectedParenth), next: pos };
        }
        let f = FunctionRef::new(name, location);
        if at(tokens, pos + 1, Token::CParenth) {
            let e = Expr::FnCall(f, Vec::new());
            proof {
                lemma_expr_view(e);
                assert(views(Seq::<Expr>::empty()) =~= Seq::<ExprView>::empty());
            }
            return Step { value: Ok(e), next: pos + 2 };
        }
        let list = Self::parse_list(tokens, pos + 1, Token::CParenth, Vec::new());
        proof {
            assert(views(Seq::<Expr>::empty()) =~= Seq::<ExprView>::empty());
        }
        match list.value {
            Ok(args) => {
                let e = Expr::FnCall(f, args);
                proof {
                    lemma_expr_view(e);
                }
                Step { value: Ok(e), next: list.next }
            },
            Err(kind) => Step { value: Err(kind), next: list.next },
        }
    }

    /// Parses a call: a name and the arguments in parentheses.
    pub fn parse_fn_call(tokens: &Vec<Lexeme>, pos: usize) -> (r: Step<Expr>)
        requires
            pos <= tokens@.len(),
        ensures
            pos <= r.next <= tokens@.len(),
            !is_at(lexeme_views(tokens@), pos as int, Token::Identifier) ==> r.value == Err::<Expr, QccErrorKind>(
                QccErrorKind::ExpectedFn,
            ) && r.next == pos,
            is_at(lexeme_views(tokens@), pos as int, Token::Identifier) ==> agrees(
                r,
                call_at(lexeme_views(tokens@), pos + 1, tokens@[pos as int]@.text(), tokens@[pos as int]@.location),
            ),
    {
        if !at(tokens, pos, Token::Identifier) {
            return Step { value: Err(QccErrorKind::ExpectedFn), next: pos };
        }
        let t = &tokens[pos];
        Self::parse_fn_call_args(tokens, pos + 1, t.text(), t.location.clone())
    }

    /// Parses the tensor that starts with the bracket at `pos`.
    pub fn parse_tensor(tokens: &Vec<Lexeme>, pos: usize) -> (r: Step<Expr>)
        requires
            pos <= tokens@.len(),
        ensures
            agrees(r, tensor_at(lexeme_views(tokens@), pos as int)),
            pos <= r.next <= tokens@.len(),
            r.value is Ok ==> r.next > pos,
        decreases tokens@.len() - pos, 0nat,
    {
        if !at(tokens, pos, Token::OBracket) {
            return Step { value: Err(QccErrorKind::ExpectedOpenBracket), next: pos };
        }
        if at(tokens, pos + 1, Token::CBracket) {
            let e = Expr::Tensor(Vec::new());
            proof {
                lemma_expr_view(e);
                assert(views(Seq::<Expr>::empty()) =~= Seq::<ExprView>::empty());
            }
            return Step { value: Ok(e), next: pos + 2 };
        }
        let list = Self::parse_list(tokens, pos + 1, Token::CBracket, Vec::new());
        proof {
            assert(views(Seq::<Expr>::empty()) =~= Seq::<ExprView>::empty());
        }
        match list.value {
            Ok(items) => {
                let e = Expr::Tensor(items);
                proof {
                    lemma_expr_view(e);
                }
                Step { value: Ok(e), next: list.next }
            },
            Err(kind) => Step { value: Err(kind), next: list.next },
        }
    }

    /// Parses the expressions from `pos` up to the token `close`.
    fn parse_list(tokens: &Vec<Lexeme>, pos: usize, close: Token, seen: Vec<Expr>) -> (r: Step<Vec<Expr>>)
        requires
            pos <= tokens@.len(),
        ensures
            r.next == list_at(lexeme_views(tokens@), pos as int, close, views(seen@)).next,
            match list_at(lexeme_views(tokens@), pos as int, close, views(seen@)).value {
                Ok(items) => r.value is Ok && views(r.value->Ok_0@) == items,
                Err(kind) => r.value == Err::<Vec<Expr>, QccErrorKind>(kind),
            },
            pos <= r.next <= tokens@.len(),
            r.value is Ok ==> r.next > pos,
        decreases tokens@.len() - pos, 3nat,
    {
        let e = Self::parse_expr(tokens, pos);
        match e.value {
            Err(kind) => Step { value: Err(kind), next: e.next },
            Ok(x) => {
                let mut seen = seen;
                let ghost before = views(seen@);
                seen.push(x);
                proof {
                    assert(views(seen@) =~= before.push(x@));
                }
                if at(tokens, e.next, close) {
                    Step { value: Ok(seen), next: e.next + 1 }
                } else if at(tokens, e.next, Token::Comma) {
                    Self::parse_list(tokens, e.next + 1, close, seen)
                } else if e.next >= tokens.len() {
                    let kind = if close == Token::CBracket {
                        QccErrorKind::ExpectedClosedBracket
                    } else {
                        QccErrorKind::ExpectedParenth
                    };
                    Step { value: Err(kind), next: e.next }
                } else {
                    Step { value: Err(QccErrorKind::ExpectedComma), next: e.next }
                }
            },
        }
    }
}

/// A `let` with its variable `var`, whose value follows the assignment
/// sign at `pos`.
pub open spec fn let_value_at(tokens: Seq<LexemeView>, pos: int, var: VarView) -> Parsed<ExprView> {
    if !is_at(tokens, pos, Token::Assign) {
        failed(QccErrorKind::ExpectedAssign, pos)
    } else {
        let v = expr_at(tokens, pos + 1);
        match v.value {
            Ok(e) => done(ExprView::Let(var, Box::new(e)), v.next),
            Err(kind) => failed(kind, v.next),
        }
    }
}

/// The `let` that starts at `pos`: the keyword, a name, a type behind a
/// colon if one is given, the assignment sign and the value.
pub open spec fn let_at(tokens: Seq<LexemeView>, pos: int) -> Parsed<ExprView> {
    if !is_at(tokens, pos, Token::Let) {
        failed(QccErrorKind::ExpectedLet, pos)
    } else if !is_at(tokens, pos + 1, Token::Identifier) {
        failed(QccErrorKind::ExpectedLet, pos + 1)
    } else {
        let var = VarView {
            name: tokens[pos + 1].text(),
            location: tokens[pos + 1].location,
            type_: Type::Bottom,
            unary_negative: false,
        };
        if is_at(tokens, pos + 2, Token::Colon) {
            if !is_at(tokens, pos + 3, Token::Identifier) {
                failed(QccErrorKind::ExpectedType, pos + 3)
            } else {
                match Type::named(tokens[pos + 3].text()) {
                    None => failed(QccErrorKind::UnexpectedType, pos + 3),
                    Some(t) => let_value_at(tokens, pos + 4, VarView { type_: t, ..var }),
                }
            }
        } else {
            let_value_at(tokens, pos + 2, var)
        }
    }
}

/// The first position at or after `pos` that holds no semicolon.
pub open spec fn semis_end(tokens: Seq<LexemeView>, pos: int) -> int
    decreases tokens.len() - pos,
{
    if is_at(tokens, pos, Token::Semicolon) {
        semis_end(tokens, pos + 1)
    } else {
        pos
    }
}

/// The conditional that starts with the `if` at `pos`: the condition, a
/// block, and behind `else` either another conditional, which is then the
/// only expression of the second block, or a block.
pub open spec fn cond_at(tokens: Seq<LexemeView>, pos: int) -> Parsed<ExprView>
    decreases tokens.len() - pos, 0nat,
{
    if !is_at(tokens, pos, Token::If) {
        failed(QccErrorKind::ExpectedExpr, pos)
    } else {
        let c = expr_at(tokens, pos + 1);
        match c.value {
            Err(kind) => failed(kind, c.next),
            Ok(cond) => if c.next <= pos || c.next > tokens.len() {
                failed(QccErrorKind::ExpectedFnBody, c.next)
            } else {
                let yes = block_at(tokens, c.next);
                match yes.value {
                    Err(kind) => failed(kind, yes.next),
                    Ok(first) => if !(c.next < yes.next && is_at(tokens, yes.next, Token::Else)) {
                        done(ExprView::Conditional(Box::new(cond), first, Seq::empty()), yes.next)
                    } else if is_at(tokens, yes.next + 1, Token::If) {
                        let other = cond_at(tokens, yes.next + 1);
                        match other.value {
                            Err(kind) => failed(kind, other.next),
                            Ok(e) => done(
                                ExprView::Conditional(Box::new(cond), first, seq![e]),
                                other.next,
                            ),
                        }
                    } else {
                        let no = block_at(tokens, yes.next + 1);
                        match no.value {
                            Err(kind) => failed(kind, no.next),
                            Ok(second) => done(
                                ExprView::Conditional(Box::new(cond), first, second),
                                no.next,
                            ),
                        }
                    },
                }
            },
        }
    }
}

/// The block that starts with the brace at `pos`.
pub open spec fn block_at(tokens: Seq<LexemeView>, pos: int) -> Parsed<Seq<ExprView>>
    decreases tokens.len() - pos, 2nat,
{
    if !is_at(tokens, pos, Token::OCurly) {
        failed(QccErrorKind::ExpectedFnBody, pos)
    } else {
        items_at(tokens, pos + 1, Seq::empty())
    }
}

/// The statements from `pos` up to the closing brace, added to `seen`.
///
/// A statement is a `let`, a `return` with its expression, a conditional,
/// or an expression. Semicolons between statements are passed over. An
/// expression without a keyword has to be the last statement of its block.
pub open spec fn items_at(tokens: Seq<LexemeView>, pos: int, seen: Seq<ExprView>) -> Parsed<Seq<ExprView>>
    decreases tokens.len() - pos, 1nat,
{
    if pos < 0 || pos >= tokens.len() {
        failed(QccErrorKind::ExpectedFnBodyEnd, pos)
    } else {
        match tokens[pos].token {
            Token::CCurly => done(seen, pos + 1),
            Token::Semicolon => items_at(tokens, pos + 1, seen),
            Token::Let => {
                let s = let_at(tokens, pos);
                match s.value {
                    Err(kind) => failed(kind, s.next),
                    Ok(e) => if s.next <= pos || s.next > tokens.len() {
                        failed(QccErrorKind::ExpectedFnBodyEnd, s.next)
                    } else {
                        items_at(tokens, s.next, seen.push(e))
                    },
                }
            },
            Token::Return => {
                let s = expr_at(tokens, pos + 1);
                match s.value {
                    Err(kind) => failed(kind, s.next),
                    Ok(e) => if s.next <= pos || s.next > tokens.len() {
                        failed(QccErrorKind::ExpectedFnBodyEnd, s.next)
                    } else {
                        items_at(tokens, s.next, seen.push(e))
                    },
                }
            },
            Token::If => {
                let s = cond_at(tokens, pos);
                match s.value {
                    Err(kind) => failed(kind, s.next),
                    Ok(e) => if s.next <= pos || s.next > tokens.len() {
                        failed(QccErrorKind::ExpectedFnBodyEnd, s.next)
                    } else {
                        items_at(tokens, s.next, seen.push(e))
                    },
                }
            },
            _ => {
                let s = expr_at(tokens, pos);
                match s.value {
                    Err(kind) => failed(kind, s.next),
                    Ok(e) => {
                        let end = semis_end(tokens, s.next);
                        if is_at(tokens, end, Token::CCurly) {
                            done(seen.push(e), end + 1)
                        } else {
                            failed(QccErrorKind::ExpectedFnBodyEnd, end)
                        }
                    },
                }
            },
        }
    }
}

/// The names of attributes from `pos` up to the closing bracket, added to
/// `seen`. A comma may follow each name.
pub open spec fn attr_names_at(tokens: Seq<LexemeView>, pos: int, seen: Seq<Attribute>) -> Parsed<
    Seq<Attribute>,
>
    decreases tokens.len() - pos,
{
    if pos < 0 || pos >= tokens.len() {
        failed(QccErrorKind::ExpectedAttr, pos)
    } else {
        match tokens[pos].token {
            Token::CBracket => done(seen, pos + 1),
            Token::Comma => attr_names_at(tokens, pos + 1, seen),
            Token::Identifier => match Attribute::named(tokens[pos].text()) {
                None => failed(QccErrorKind::UnexpectedAttr, pos),
                Some(a) => if is_at(tokens, pos + 1, Token::Comma) {
                    attr_names_at(tokens, pos + 2, seen.push(a))
                } else if is_at(tokens, pos + 1, Token::CBracket) {
                    done(seen.push(a), pos + 2)
                } else {
                    failed(QccErrorKind::ExpectedAttr, pos + 1)
                },
            },
            _ => failed(QccErrorKind::ExpectedAttr, pos),
        }
    }
}

/// The list of attributes that starts with the hash at `pos`: `#[` or
/// `#![`, one name at least, and `]`.
pub open spec fn attrs_at(tokens: Seq<LexemeView>, pos: int) -> Parsed<Seq<Attribute>> {
    if !is_at(tokens, pos, Token::Hash) {
        failed(QccErrorKind::ExpectedAttr, pos)
    } else {
        let p = if is_at(tokens, pos + 1, Token::Bang) {
            pos + 2
        } else {
            pos + 1
        };
        if !is_at(tokens, p, Token::OBracket) {
            failed(QccErrorKind::ExpectedAttr, p)
        } else if !is_at(tokens, p + 1, Token::Identifier) {
            failed(QccErrorKind::ExpectedAttr, p + 1)
        } else {
            attr_names_at(tokens, p + 1, Seq::empty())
        }
    }
}

/// The parameters from `pos` up to the closing parenthesis, added to
/// `seen`: each a name, a colon and a type; a comma may follow each.
pub open spec fn params_at(tokens: Seq<LexemeView>, pos: int, seen: Seq<VarView>) -> Parsed<Seq<VarView>>
    decreases tokens.len() - pos,
{
    if pos < 0 || pos >= tokens.len() {
        failed(QccErrorKind::ExpectedAttr, pos)
    } else {
        match tokens[pos].token {
            Token::CParenth => done(seen, pos + 1),
            Token::Comma => params_at(tokens, pos + 1, seen),
            Token::Identifier => if !is_at(tokens, pos + 1, Token::Colon) {
                failed(QccErrorKind::ExpectedParamType, pos + 1)
            } else if !is_at(tokens, pos + 2, Token::Identifier) {
                failed(QccErrorKind::ExpectedParamType, pos + 2)
            } else {
                match Type::named(tokens[pos + 2].text()) {
                    None => failed(QccErrorKind::UnexpectedType, pos + 2),
                    Some(t) => {
                        let var = VarView {
                            name: tokens[pos].text(),
                            location: tokens[pos].location,
                            type_: t,
                            unary_negative: false,
                        };
                        if is_at(tokens, pos + 3, Token::Comma) {
                            params_at(tokens, pos + 4, seen.push(var))
                        } else if is_at(tokens, pos + 3, Token::CParenth) {
                            done(seen.push(var), pos + 4)
                        } else {
                            failed(QccErrorKind::ExpectedAttr, pos + 3)
                        }
                    },
                }
            },
            _ => failed(QccErrorKind::ExpectedAttr, pos),
        }
    }
}

/// The result type that a function declares at `pos`: behind a colon, and
/// an exclamation mark if there is one, the name of a type. Where no colon
/// stands, the type is not known.
pub open spec fn result_type_at(tokens: Seq<LexemeView>, pos: int) -> Parsed<Type> {
    if !is_at(tokens, pos, Token::Colon) {
        done(Type::Bottom, pos)
    } else {
        let p = if is_at(tokens, pos + 1, Token::Bang) {
            pos + 2
        } else {
            pos + 1
        };
        if !is_at(tokens, p, Token::Identifier) {
            failed(QccErrorKind::ExpectedFnReturnType, p)
        } else {
            match Type::named(tokens[p].text()) {
                None => failed(QccErrorKind::UnexpectedType, p),
                Some(t) => done(t, p + 1),
            }
        }
    }
}

/// The types of a list of variables.
pub open spec fn types_of(vars: Seq<VarView>) -> Seq<Type> {
    Seq::new(vars.len(), |i: int| vars[i].type_)
}

/// The function that starts at `pos`: attributes if a hash stands there,
/// `fn`, the name, the parameters in parentheses, the result type if one is
/// declared, and the body in braces.
pub open spec fn function_at(tokens: Seq<LexemeView>, pos: int) -> Parsed<FunctionView> {
    let a = if is_at(tokens, pos, Token::Hash) {
        attrs_at(tokens, pos)
    } else {
        done(Seq::empty(), pos)
    };
    match a.value {
        Err(kind) => failed(kind, a.next),
        Ok(attrs) => {
            let p = a.next;
            if !is_at(tokens, p, Token::Function) {
                failed(QccErrorKind::ExpectedFn, p)
            } else if !is_at(tokens, p + 1, Token::Identifier) {
                failed(QccErrorKind::ExpectedFnName, p + 1)
            } else if !is_at(tokens, p + 2, Token::OParenth) {
                failed(QccErrorKind::ExpectedFnArgs, p + 2)
            } else {
                let ps = params_at(tokens, p + 3, Seq::empty());
                match ps.value {
                    Err(kind) => failed(kind, ps.next),
                    Ok(params) => {
                        let out = result_type_at(tokens, ps.next);
                        match out.value {
                            Err(kind) => failed(kind, out.next),
                            Ok(output_type) => {
                                let b = block_at(tokens, out.next);
                                match b.value {
                                    Err(kind) => failed(kind, b.next),
                                    Ok(body) => done(
                                        FunctionView {
                                            name: tokens[p + 1].text(),
                                            location: tokens[p + 1].location,
                                            params,
                                            input_type: types_of(params),
                                            output_type,
                                            attrs,
                                            body,
                                        },
                                        b.next,
                                    ),
                                }
                            },
                        }
                    },
                }
            }
        },
    }
}

/// Whether one of `functions` has the name `name`.
pub open spec fn has_name(functions: Seq<FunctionView>, name: Seq<char>) -> bool {
    exists|i: int| 0 <= i < functions.len() && #[trigger] functions[i].name == name
}

/// The functions from `pos` up to the closing brace of their module, added
/// to `seen`. A function whose name was seen already is refused.
pub open spec fn functions_at(tokens: Seq<LexemeView>, pos: int, seen: Seq<FunctionView>) -> Parsed<
    Seq<FunctionView>,
>
    decreases tokens.len() - pos,
{
    if pos < 0 || pos > tokens.len() {
        failed(QccErrorKind::ExpectedFn, pos)
    } else if is_at(tokens, pos, Token::CCurly) {
        done(seen, pos + 1)
    } else {
        let f = function_at(tokens, pos);
        match f.value {
            Err(kind) => failed(kind, f.next),
            Ok(x) => if has_name(seen, x.name) {
                failed(QccErrorKind::RedefinedFunction, f.next)
            } else if f.next <= pos || f.next > tokens.len() {
                failed(QccErrorKind::ExpectedFn, f.next)
            } else {
                functions_at(tokens, f.next, seen.push(x))
            },
        }
    }
}

/// The module that starts with the keyword at `pos`: `module`, a name,
/// which is sanitized, and functions in braces. A module without a name is
/// called `unnamed`.
pub open spec fn module_at(tokens: Seq<LexemeView>, pos: int) -> Parsed<ModuleView> {
    if !is_at(tokens, pos, Token::Module) {
        failed(QccErrorKind::ExpectedMod, pos)
    } else {
        let named = is_at(tokens, pos + 1, Token::Identifier);
        let p = if named {
            pos + 2
        } else {
            pos + 1
        };
        if !is_at(tokens, p, Token::OCurly) {
            failed(QccErrorKind::ExpectedMod, p)
        } else {
            let fs = functions_at(tokens, p + 1, Seq::empty());
            match fs.value {
                Err(kind) => failed(kind, fs.next),
                Ok(functions) => done(
                    ModuleView {
                        name: if named {
                            sanitized(tokens[pos + 1].bytes)
                        } else {
                            "unnamed"@
                        },
                        location: tokens[pos].location,
                        functions,
                    },
                    fs.next,
                ),
            }
        }
    }
}

/// An import as it is written: the module and the function it names, each
/// with its place.
pub struct Import {
    pub module: Ident,
    pub module_location: Location,
    pub function: Ident,
    pub function_location: Location,
}

pub struct ImportView {
    pub module: Seq<char>,
    pub module_location: LocationView,
    pub function: Seq<char>,
    pub function_location: LocationView,
}

impl View for Import {
    type V = ImportView;

    open spec fn view(&self) -> ImportView {
        ImportView {
            module: self.module@,
            module_location: self.module_location@,
            function: self.function@,
            function_location: self.function_location@,
        }
    }
}

/// The import that starts with the keyword at `pos`:
/// `import Module::function;`.
pub open spec fn import_at(tokens: Seq<LexemeView>, pos: int) -> Parsed<ImportView> {
    if !is_at(tokens, pos, Token::Import) {
        failed(QccErrorKind::ExpectedMod, pos)
    } else if !is_at(tokens, pos + 1, Token::Identifier) {
        failed(QccErrorKind::ExpectedMod, pos + 1)
    } else if !is_at(tokens, pos + 2, Token::Colon) {
        failed(QccErrorKind::ExpectedColon, pos + 2)
    } else if !is_at(tokens, pos + 3, Token::Colon) {
        failed(QccErrorKind::ExpectedColon, pos + 3)
    } else if !is_at(tokens, pos + 4, Token::Identifier) {
        failed(QccErrorKind::ExpectedFnName, pos + 4)
    } else if !is_at(tokens, pos + 5, Token::Semicolon) {
        failed(QccErrorKind::ExpectedSemicolon, pos + 5)
    } else {
        done(
            ImportView {
                module: tokens[pos + 1].text(),
                module_location: tokens[pos + 1].location,
                function: tokens[pos + 4].text(),
                function_location: tokens[pos + 4].location,
            },
            pos + 6,
        )
    }
}

impl Parser {
    /// Parses the value of a `let` whose variable is `var`.
    fn parse_let_value(tokens: &Vec<Lexeme>, pos: usize, var: VarAST) -> (r: Step<Expr>)
        requires
            pos <= tokens@.len(),
        ensures
            agrees(r, let_value_at(lexeme_views(tokens@), pos as int, var@)),
            pos <= r.next <= tokens@.len(),
            r.value is Ok ==> r.next > pos,
    {
        if !at(tokens, pos, Token::Assign) {
            return Step { value: Err(QccErrorKind::ExpectedAssign), next: pos };
        }
        let v = Self::parse_expr(tokens, pos + 1);
        match v.value {
            Ok(e) => {
                let whole = Expr::Let(var, Box::new(e));
                proof {
                    lemma_expr_view(whole);
                }
                Step { value: Ok(whole), next: v.next }
            },
            Err(kind) => Step { value: Err(kind), next: v.next },
        }
    }

    /// Parses the `let` that starts at `pos`.
    pub fn parse_let(tokens: &Vec<Lexeme>, pos: usize) -> (r: Step<Expr>)
        requires
            pos <= tokens@.len(),
        ensures
            agrees(r, let_at(lexeme_views(tokens@), pos as int)),
            pos <= r.next <= tokens@.len(),
            r.value is Ok ==> r.next > pos,
    {
        if !at(tokens, pos, Token::Let) {
            return Step { value: Err(QccErrorKind::ExpectedLet), next: pos };
        }
        if !at(tokens, pos + 1, Token::Identifier) {
            return Step { value: Err(QccErrorKind::ExpectedLet), next: pos + 1 };
        }
        let name = &tokens[pos + 1];
        let mut var = VarAST::new(name.text(), name.location.clone());
        if at(tokens, pos + 2, Token::Colon) {
            if !at(tokens, pos + 3, Token::Identifier) {
                return Step { value: Err(QccErrorKind::ExpectedType), next: pos + 3 };
            }
            match Type::from_str(tokens[pos + 3].text().as_str()) {
                Err(kind) => Step { value: Err(kind), next: pos + 3 },
                Ok(t) => {
                    var.set_type(t);
                    Self::parse_let_value(tokens, pos + 4, var)
                },
            }
        } else {
            Self::parse_let_value(tokens, pos + 2, var)
        }
    }

    /// Parses the expression behind the `return` at `pos`.
    pub fn parse_return(tokens: &Vec<Lexeme>, pos: usize) -> (r: Step<Expr>)
        requires
            pos <= tokens@.len(),
        ensures
            is_at(lexeme_views(tokens@), pos as int, Token::Return) ==> agrees(r, expr_at(lexeme_views(tokens@), pos + 1)) && pos
                < r.next,
            !is_at(lexeme_views(tokens@), pos as int, Token::Return) ==> r.value == Err::<Expr, QccErrorKind>(
                QccErrorKind::ExpectedExpr,
            ) && r.next == pos,
            pos <= r.next <= tokens@.len(),
    {
        if !at(tokens, pos, Token::Return) {
            return Step { value: Err(QccErrorKind::ExpectedExpr), next: pos };
        }
        Self::parse_expr(tokens, pos + 1)
    }

    /// Passes over semicolons.
    fn skip_semicolons(tokens: &Vec<Lexeme>, pos: usize) -> (r: usize)
        requires
            pos <= tokens@.len(),
        ensures
            r == semis_end(lexeme_views(tokens@), pos as int),
            pos <= r <= tokens@.len(),
    {
        let mut i = pos;
        while at(tokens, i, Token::Semicolon)
            invariant
                pos <= i <= tokens@.len(),
                semis_end(lexeme_views(tokens@), pos as int) == semis_end(lexeme_views(tokens@), i as int),
            decreases tokens@.len() - i,
        {
            i = i + 1;
        }
        i
    }

    /// Parses the conditional that starts with the `if` at `pos`.
    pub fn parse_conditional(tokens: &Vec<Lexeme>, pos: usize) -> (r: Step<Expr>)
        requires
            pos <= tokens@.len(),
        ensures
            agrees(r, cond_at(lexeme_views(tokens@), pos as int)),
            pos <= r.next <= tokens@.len(),
            r.value is Ok ==> r.next > pos,
        decreases tokens@.len() - pos, 0nat,
    {
        if !at(tokens, pos, Token::If) {
            return Step { value: Err(QccErrorKind::ExpectedExpr), next: pos };
        }
        let c = Self::parse_expr(tokens, pos + 1);
        let cond = match c.value {
            Err(kind) => {
                return Step { value: Err(kind), next: c.next };
            },
            Ok(cond) => cond,
        };
        let yes = Self::parse_block(tokens, c.next);
        let first = match yes.value {
            Err(kind) => {
                return Step { value: Err(kind), next: yes.next };
            },
            Ok(first) => first,
        };
        if !at(tokens, yes.next, Token::Else) {
            let e = Expr::Conditional(Box::new(cond), first, Vec::new());
            proof {
                lemma_expr_view(e);
                assert(views(Seq::<Expr>::empty()) =~= Seq::<ExprView>::empty());
            }
            return Step { value: Ok(e), next: yes.next };
        }
        if at(tokens, yes.next + 1, Token::If) {
            let other = Self::parse_conditional(tokens, yes.next + 1);
            match other.value {
                Err(kind) => Step { value: Err(kind), next: other.next },
                Ok(inner) => {
                    let mut second: Vec<Expr> = Vec::new();
                    second.push(inner);
                    let e = Expr::Conditional(Box::new(cond), first, second);
                    proof {
                        lemma_expr_view(e);
                        assert(views(second@) =~= seq![inner@]);
                    }
                    Step { value: Ok(e), next: other.next }
                },
            }
        } else {
            let no = Self::parse_block(tokens, yes.next + 1);
            match no.value {
                Err(kind) => Step { value: Err(kind), next: no.next },
                Ok(second) => {
                    let e = Expr::Conditional(Box::new(cond), first, second);
                    proof {
                        lemma_expr_view(e);
                    }
                    Step { value: Ok(e), next: no.next }
                },
            }
        }
    }

    /// Parses the block that starts with the brace at `pos`.
    pub fn parse_block(tokens: &Vec<Lexeme>, pos: usize) -> (r: Step<Vec<Expr>>)
        requires
            pos <= tokens@.len(),
        ensures
            r.next == block_at(lexeme_views(tokens@), pos as int).next,
            match block_at(lexeme_views(tokens@), pos as int).value {
                Ok(items) => r.value is Ok && views(r.value->Ok_0@) == items,
                Err(kind) => r.value == Err::<Vec<Expr>, QccErrorKind>(kind),
            },
            pos <= r.next <= tokens@.len(),
            r.value is Ok ==> r.next > pos,
        decreases tokens@.len() - pos, 2nat,
    {
        if !at(tokens, pos, Token::OCurly) {
            return Step { value: Err(QccErrorKind::ExpectedFnBody), next: pos };
        }
        proof {
            assert(views(Seq::<Expr>::empty()) =~= Seq::<ExprView>::empty());
        }
        Self::parse_items(tokens, pos + 1, Vec::new())
    }

    /// Parses the statements from `pos` up to the closing brace.
    fn parse_items(tokens: &Vec<Lexeme>, pos: usize, seen: Vec<Expr>) -> (r: Step<Vec<Expr>>)
        requires
            pos <= tokens@.len(),
        ensures
            r.next == items_at(lexeme_views(tokens@), pos as int, views(seen@)).next,
            match items_at(lexeme_views(tokens@), pos as int, views(seen@)).value {
                Ok(items) => r.value is Ok && views(r.value->Ok_0@) == items,
                Err(kind) => r.value == Err::<Vec<Expr>, QccErrorKind>(kind),
            },
            pos <= r.next <= tokens@.len(),
            r.value is Ok ==> r.next > pos,
        decreases tokens@.len() - pos, 1nat,
    {
        if pos >= tokens.len() {
            return Step { value: Err(QccErrorKind::ExpectedFnBodyEnd), next: pos };
        }
        let mut seen = seen;
        let ghost before = views(seen@);
        match tokens[pos].token {
            Token::CCurly => Step { value: Ok(seen), next: pos + 1 },
            Token::Semicolon => Self::parse_items(tokens, pos + 1, seen),
            Token::Let => {
                let s = Self::parse_let(tokens, pos);
                match s.value {
                    Err(kind) => Step { value: Err(kind), next: s.next },
                    Ok(e) => {
                        seen.push(e);
                        proof {
                            assert(views(seen@) =~= before.push(e@));
                        }
                        Self::parse_items(tokens, s.next, seen)
                    },
                }
            },
            Token::Return => {
                let s = Self::parse_return(tokens, pos);
                match s.value {
                    Err(kind) => Step { value: Err(kind), next: s.next },
                    Ok(e) => {
                        seen.push(e);
                        proof {
                            assert(views(seen@) =~= before.push(e@));
                        }
                        Self::parse_items(tokens, s.next, seen)
                    },
                }
            },
            Token::If => {
                let s = Self::parse_conditional(tokens, pos);
                match s.value {
                    Err(kind) => Step { value: Err(kind), next: s.next },
                    Ok(e) => {
                        seen.push(e);
                        proof {
                            assert(views(seen@) =~= before.push(e@));
                        }
                        Self::parse_items(tokens, s.next, seen)
                    },
                }
            },
            _ => {
                let s = Self::parse_expr(tokens, pos);
                match s.value {
                    Err(kind) => Step { value: Err(kind), next: s.next },
                    Ok(e) => {
                        let end = Self::skip_semicolons(tokens, s.next);
                        if at(tokens, end, Token::CCurly) {
                            seen.push(e);
                            proof {
                                assert(views(seen@) =~= before.push(e@));
                            }
                            Step { value: Ok(seen), next: end + 1 }
                        } else {
                            Step { value: Err(QccErrorKind::ExpectedFnBodyEnd), next: end }
                        }
                    },
                }
            },
        }
    }

    /// Parses the names of a list of attributes, up to the closing
    /// bracket.
    fn parse_attr_names(tokens: &Vec<Lexeme>, pos: usize, seen: Attributes) -> (r: Step<Attributes>)
        requires
            pos <= tokens@.len(),
        ensures
            agrees(r, attr_names_at(lexeme_views(tokens@), pos as int, seen@)),
            pos <= r.next <= tokens@.len(),
            r.value is Ok ==> r.next > pos,
        decreases tokens@.len() - pos,
    {
        if pos >= tokens.len() {
            return Step { value: Err(QccErrorKind::ExpectedAttr), next: pos };
        }
        let mut seen = seen;
        match tokens[pos].token {
            Token::CBracket => Step { value: Ok(seen), next: pos + 1 },
            Token::Comma => Self::parse_attr_names(tokens, pos + 1, seen),
            Token::Identifier => {
                match Attribute::parse(tokens[pos].bytes.as_slice()) {
                    Err(kind) => Step { value: Err(kind), next: pos },
                    Ok(a) => {
                        seen.push(a);
                        if at(tokens, pos + 1, Token::Comma) {
                            Self::parse_attr_names(tokens, pos + 2, seen)
                        } else if at(tokens, pos + 1, Token::CBracket) {
                            Step { value: Ok(seen), next: pos + 2 }
                        } else {
                            Step { value: Err(QccErrorKind::ExpectedAttr), next: pos + 1 }
                        }
                    },
                }
            },
            _ => Step { value: Err(QccErrorKind::ExpectedAttr), next: pos },
        }
    }

    /// Parses the list of attributes that starts with the hash at `pos`.
    pub fn parse_attributes(tokens: &Vec<Lexeme>, pos: usize) -> (r: Step<Attributes>)
        requires
            pos <= tokens@.len(),
        ensures
            agrees(r, attrs_at(lexeme_views(tokens@), pos as int)),
            pos <= r.next <= tokens@.len(),
            r.value is Ok ==> r.next > pos,
    {
        if !at(tokens, pos, Token::Hash) {
            return Step { value: Err(QccErrorKind::ExpectedAttr), next: pos };
        }
        let p: usize = if at(tokens, pos + 1, Token::Bang) {
            pos + 2
        } else {
            pos + 1
        };
        if !at(tokens, p, Token::OBracket) {
            return Step { value: Err(QccErrorKind::ExpectedAttr), next: p };
        }
        if !at(tokens, p + 1, Token::Identifier) {
            return Step { value: Err(QccErrorKind::ExpectedAttr), next: p + 1 };
        }
        Self::parse_attr_names(tokens, p + 1, Attributes(Vec::new()))
    }

    /// Parses the parameters of a function, up to the closing parenthesis.
    fn parse_params(tokens: &Vec<Lexeme>, pos: usize, seen: Vec<VarAST>) -> (r: Step<Vec<VarAST>>)
        requires
            pos <= tokens@.len(),
        ensures
            r.next == params_at(lexeme_views(tokens@), pos as int, var_views(seen@)).next,
            match params_at(lexeme_views(tokens@), pos as int, var_views(seen@)).value {
                Ok(params) => r.value is Ok && var_views(r.value->Ok_0@) == params,
                Err(kind) => r.value == Err::<Vec<VarAST>, QccErrorKind>(kind),
            },
            pos <= r.next <= tokens@.len(),
            r.value is Ok ==> r.next > pos,
        decreases tokens@.len() - pos,
    {
        if pos >= tokens.len() {
            return Step { value: Err(QccErrorKind::ExpectedAttr), next: pos };
        }
        let mut seen = seen;
        let ghost before = var_views(seen@);
        match tokens[pos].token {
            Token::CParenth => Step { value: Ok(seen), next: pos + 1 },
            Token::Comma => Self::parse_params(tokens, pos + 1, seen),
            Token::Identifier => {
                if !at(tokens, pos + 1, Token::Colon) {
                    return Step { value: Err(QccErrorKind::ExpectedParamType), next: pos + 1 };
                }
                if !at(tokens, pos + 2, Token::Identifier) {
                    return Step { value: Err(QccErrorKind::ExpectedParamType), next: pos + 2 };
                }
                match Type::from_str(tokens[pos + 2].text().as_str()) {
                    Err(kind) => Step { value: Err(kind), next: pos + 2 },
                    Ok(t) => {
                        let var = VarAST::new_with_type(
                            tokens[pos].text(),
                            tokens[pos].location.clone(),
                            t,
                        );
                        seen.push(var);
                        proof {
                            assert(var_views(seen@) =~= before.push(var@));
                        }
                        if at(tokens, pos + 3, Token::Comma) {
                            Self::parse_params(tokens, pos + 4, seen)
                        } else if at(tokens, pos + 3, Token::CParenth) {
                            Step { value: Ok(seen), next: pos + 4 }
                        } else {
                            Step { value: Err(QccErrorKind::ExpectedAttr), next: pos + 3 }
                        }
                    },
                }
            },
            _ => Step { value: Err(QccErrorKind::ExpectedAttr), next: pos },
        }
    }

    /// Parses the result type that a function declares, if it declares
    /// one.
    fn parse_result_type(tokens: &Vec<Lexeme>, pos: usize) -> (r: Step<Type>)
        requires
            pos <= tokens@.len(),
        ensures
            r.next == result_type_at(lexeme_views(tokens@), pos as int).next,
            r.value == result_type_at(lexeme_views(tokens@), pos as int).value,
            pos <= r.next <= tokens@.len(),
    {
        if !at(tokens, pos, Token::Colon) {
            return Step { value: Ok(Type::Bottom), next: pos };
        }
        let p: usize = if at(tokens, pos + 1, Token::Bang) {
            pos + 2
        } else {
            pos + 1
        };
        if !at(tokens, p, Token::Identifier) {
            return Step { value: Err(QccErrorKind::ExpectedFnReturnType), next: p };
        }
        match Type::from_str(tokens[p].text().as_str()) {
            Err(kind) => Step { value: Err(kind), next: p },
            Ok(t) => Step { value: Ok(t), next: p + 1 },
        }
    }

    /// Parses the function that starts at `pos`.
    pub fn parse_function(tokens: &Vec<Lexeme>, pos: usize) -> (r: Step<FunctionAST>)
        requires
            pos <= tokens@.len(),
        ensures
            agrees(r, function_at(lexeme_views(tokens@), pos as int)),
            pos <= r.next <= tokens@.len(),
            r.value is Ok ==> r.next > pos,
            is_at(lexeme_views(tokens@), pos as int, Token::Hash) || is_at(lexeme_views(tokens@), pos as int, Token::Function)
                ==> r.next > pos,
    {
        let a = if at(tokens, pos, Token::Hash) {
            Self::parse_attributes(tokens, pos)
        } else {
            Step { value: Ok(Attributes(Vec::new())), next: pos }
        };
        let attrs = match a.value {
            Err(kind) => {
                proof {
                    Self::lemma_attrs_progress(lexeme_views(tokens@), pos as int);
                }
                return Step { value: Err(kind), next: a.next };
            },
            Ok(attrs) => attrs,
        };
        let p = a.next;
        if !at(tokens, p, Token::Function) {
            return Step { value: Err(QccErrorKind::ExpectedFn), next: p };
        }
        if !at(tokens, p + 1, Token::Identifier) {
            return Step { value: Err(QccErrorKind::ExpectedFnName), next: p + 1 };
        }
        if !at(tokens, p + 2, Token::OParenth) {
            return Step { value: Err(QccErrorKind::ExpectedFnArgs), next: p + 2 };
        }
        proof {
            assert(var_views(Seq::<VarAST>::empty()) =~= Seq::<VarView>::empty());
        }
        let ps = Self::parse_params(tokens, p + 3, Vec::new());
        let params = match ps.value {
            Err(kind) => {
                return Step { value: Err(kind), next: ps.next };
            },
            Ok(params) => params,
        };
        let out = Self::parse_result_type(tokens, ps.next);
        let output_type = match out.value {
            Err(kind) => {
                return Step { value: Err(kind), next: out.next };
            },
            Ok(t) => t,
        };
        let b = Self::parse_block(tokens, out.next);
        let body = match b.value {
            Err(kind) => {
                return Step { value: Err(kind), next: b.next };
            },
            Ok(body) => body,
        };
        let mut input_type: Vec<Type> = Vec::new();
        let mut i: usize = 0;
        while i < params.len()
            invariant
                i <= params@.len(),
                input_type@.len() == i,
                forall|j: int| 0 <= j < i ==> input_type@[j] == params@[j]@.type_,
            decreases params@.len() - i,
        {
            input_type.push(params[i].type_);
            i = i + 1;
        }
        proof {
            assert(input_type@ =~= types_of(var_views(params@)));
        }
        let name = &tokens[p + 1];
        Step {
            value: Ok(
                FunctionAST::new(
                    name.text(),
                    name.location.clone(),
                    params,
                    input_type,
                    output_type,
                    attrs,
                    body,
                ),
            ),
            next: b.next,
        }
    }

    /// A list of attributes that fails has still taken its hash.
    proof fn lemma_attrs_progress(tokens: Seq<LexemeView>, pos: int)
        requires
            is_at(tokens, pos, Token::Hash),
        ensures
            attrs_at(tokens, pos).next > pos,
    {
        let p = if is_at(tokens, pos + 1, Token::Bang) {
            pos + 2
        } else {
            pos + 1
        };
        if is_at(tokens, p, Token::OBracket) && is_at(tokens, p + 1, Token::Identifier) {
            Self::lemma_attr_names_progress(tokens, p + 1, Seq::empty());
        }
    }

    /// The names of a list of attributes end at or behind where they start.
    proof fn lemma_attr_names_progress(tokens: Seq<LexemeView>, pos: int, seen: Seq<Attribute>)
        requires
            0 <= pos,
        ensures
            attr_names_at(tokens, pos, seen).next >= pos,
        decreases tokens.len() - pos,
    {
        if pos < tokens.len() {
            match tokens[pos].token {
                Token::Comma => {
                    Self::lemma_attr_names_progress(tokens, pos + 1, seen);
                },
                Token::Identifier => {
                    match Attribute::named(tokens[pos].text()) {
                        None => {},
                        Some(a) => {
                            if is_at(tokens, pos + 1, Token::Comma) {
                                Self::lemma_attr_names_progress(tokens, pos + 2, seen.push(a));
                            }
                        },
                    }
                },
                _ => {},
            }
        }
    }

    /// Parses the functions of a module, up to its closing brace.
    fn parse_functions(tokens: &Vec<Lexeme>, pos: usize, seen: Vec<FunctionAST>) -> (r: Step<
        Vec<FunctionAST>,
    >)
        requires
            pos <= tokens@.len(),
        ensures
            r.next == functions_at(lexeme_views(tokens@), pos as int, function_views(seen@)).next,
            match functions_at(lexeme_views(tokens@), pos as int, function_views(seen@)).value {
                Ok(functions) => r.value is Ok && function_views(r.value->Ok_0@) == functions,
                Err(kind) => r.value == Err::<Vec<FunctionAST>, QccErrorKind>(kind),
            },
            pos <= r.next <= tokens@.len(),
            r.value is Ok ==> r.next > pos,
        decreases tokens@.len() - pos,
    {
        if at(tokens, pos, Token::CCurly) {
            return Step { value: Ok(seen), next: pos + 1 };
        }
        let f = Self::parse_function(tokens, pos);
        match f.value {
            Err(kind) => Step { value: Err(kind), next: f.next },
            Ok(x) => {
                let mut seen = seen;
                let ghost before = function_views(seen@);
                let mut known = false;
                let mut i: usize = 0;
                while i < seen.len()
                    invariant
                        i <= seen@.len(),
                        before == function_views(seen@),
                        known == exists|j: int| 0 <= j < i && #[trigger] before[j].name == x@.name,
                    decreases seen@.len() - i,
                {
                    if seen[i].name == x.name {
                        assert(before[i as int].name == x@.name);
                        known = true;
                    }
                    i = i + 1;
                }
                if known {
                    return Step { value: Err(QccErrorKind::RedefinedFunction), next: f.next };
                }
                seen.push(x);
                proof {
                    assert(function_views(seen@) =~= before.push(x@));
                }
                Self::parse_functions(tokens, f.next, seen)
            },
        }
    }

    /// Parses the module that starts with the keyword at `pos`.
    pub fn parse_module(tokens: &Vec<Lexeme>, pos: usize) -> (r: Step<ModuleAST>)
        requires
            pos <= tokens@.len(),
        ensures
            agrees(r, module_at(lexeme_views(tokens@), pos as int)),
            pos <= r.next <= tokens@.len(),
            is_at(lexeme_views(tokens@), pos as int, Token::Module) ==> r.next > pos,
    {
        if !at(tokens, pos, Token::Module) {
            return Step { value: Err(QccErrorKind::ExpectedMod), next: pos };
        }
        let named = at(tokens, pos + 1, Token::Identifier);
        let p: usize = if named {
            pos + 2
        } else {
            pos + 1
        };
        if !at(tokens, p, Token::OCurly) {
            return Step { value: Err(QccErrorKind::ExpectedMod), next: p };
        }
        proof {
            assert(function_views(Seq::<FunctionAST>::empty()) =~= Seq::<FunctionView>::empty());
        }
        let fs = Self::parse_functions(tokens, p + 1, Vec::new());
        match fs.value {
            Err(kind) => Step { value: Err(kind), next: fs.next },
            Ok(functions) => {
                let name = if named {
                    sanitize_bytes(tokens[pos + 1].bytes.as_slice())
                } else {
                    String::from_str("unnamed")
                };
                Step {
                    value: Ok(ModuleAST::new(name, tokens[pos].location.clone(), functions)),
                    next: fs.next,
                }
            },
        }
    }

    /// Parses the import that starts with the keyword at `pos`.
    pub fn parse_import(tokens: &Vec<Lexeme>, pos: usize) -> (r: Step<Import>)
        requires
            pos <= tokens@.len(),
        ensures
            agrees(r, import_at(lexeme_views(tokens@), pos as int)),
            pos <= r.next <= tokens@.len(),
            is_at(lexeme_views(tokens@), pos as int, Token::Import) ==> r.next > pos,
    {
        if !at(tokens, pos, Token::Import) {
            return Step { value: Err(QccErrorKind::ExpectedMod), next: pos };
        }
        if !at(tokens, pos + 1, Token::Identifier) {
            return Step { value: Err(QccErrorKind::ExpectedMod), next: pos + 1 };
        }
        if !at(tokens, pos + 2, Token::Colon) {
            return Step { value: Err(QccErrorKind::ExpectedColon), next: pos + 2 };
        }
        if !at(tokens, pos + 3, Token::Colon) {
            return Step { value: Err(QccErrorKind::ExpectedColon), next: pos + 3 };
        }
        if !at(tokens, pos + 4, Token::Identifier) {
            return Step { value: Err(QccErrorKind::ExpectedFnName), next: pos + 4 };
        }
        if !at(tokens, pos + 5, Token::Semicolon) {
            return Step { value: Err(QccErrorKind::ExpectedSemicolon), next: pos + 5 };
        }
        let m = &tokens[pos + 1];
        let f = &tokens[pos + 4];
        Step {
            value: Ok(
                Import {
                    module: m.text(),
                    module_location: m.location.clone(),
                    function: f.text(),
                    function_location: f.location.clone(),
                },
            ),
            next: pos + 6,
        }
    }
}

/// Whether no function of a list has the character `$` in its name.
pub open spec fn plain_functions(functions: Seq<FunctionView>) -> bool {
    forall|i: int| 0 <= i < functions.len() ==> !(#[trigger] functions[i]).name.contains('$')
}

/// The name of a function is an identifier of the source.
pub proof fn lemma_function_name(tokens: Seq<LexemeView>, pos: int)
    requires
        plain_tokens(tokens),
        function_at(tokens, pos).value is Ok,
    ensures
        !function_at(tokens, pos).value->Ok_0.name.contains('$'),
{
    let a = if is_at(tokens, pos, Token::Hash) {
        attrs_at(tokens, pos)
    } else {
        done(Seq::empty(), pos)
    };
    let p = a.next;
    assert(is_at(tokens, p + 1, Token::Identifier));
    assert(tokens[p + 1].token == Token::Identifier);
    assert(function_at(tokens, pos).value->Ok_0.name == tokens[p + 1].text());
}

/// The functions of a module have identifiers of the source as names.
pub proof fn lemma_functions_plain(tokens: Seq<LexemeView>, pos: int, seen: Seq<FunctionView>)
    requires
        plain_tokens(tokens),
        plain_functions(seen),
        functions_at(tokens, pos, seen).value is Ok,
    ensures
        plain_functions(functions_at(tokens, pos, seen).value->Ok_0),
    decreases tokens.len() - pos,
{
    if 0 <= pos <= tokens.len() && !is_at(tokens, pos, Token::CCurly) {
        let f = function_at(tokens, pos);
        lemma_function_name(tokens, pos);
        let x = f.value->Ok_0;
        let more = seen.push(x);
        assert forall|i: int| 0 <= i < more.len() implies !(#[trigger] more[i]).name.contains('$') by {
            if i < seen.len() {
                assert(more[i] == seen[i]);
            }
        }
        lemma_functions_plain(tokens, f.next, more);
    }
}

/// The functions of a module of the source have identifiers of the source
/// as names.
pub proof fn lemma_module_plain(tokens: Seq<LexemeView>, pos: int)
    requires
        plain_tokens(tokens),
        module_at(tokens, pos).value is Ok,
    ensures
        plain_functions(module_at(tokens, pos).value->Ok_0.functions),
{
    let named = is_at(tokens, pos + 1, Token::Identifier);
    let p = if named {
        pos + 2
    } else {
        pos + 1
    };
    lemma_functions_plain(tokens, p + 1, Seq::empty());
}

} // verus!
