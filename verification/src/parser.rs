//! The parser: from tokens to the syntax tree of a one-function program.
//!
//! The grammar is
//! `program = "int" identifier "(" "void" ")" "{" "return" expr ";" "}"`, with
//! expressions parsed by precedence climbing: `*`, `/` and `%` bind tighter than `+`
//! and `-`, and operators of equal precedence associate to the left. A factor is a
//! constant, `~` or `-` applied to a factor, or a parenthesized expression.
use crate::lexer::{Token, TokenView, is_binary_operator_spec, precedence_spec};
use crate::util::read_usize;
use vstd::prelude::*;

verus! {

broadcast use vstd::string::group_string_axioms;

/// The lowest precedence an expression may start from.
const MIN_PREC: usize = 0;

/// What can go wrong while parsing; the strings describe tokens as `Debug` prints them.
#[derive(Default, Clone, PartialEq, Debug)]
pub enum ParseError {
    #[default]
    UnknownToken,
    UnexpectedToken { expected: String, found: String },
    UnexpectedEof,
    InvalidInteger { int: String },
    ExpectedEof { found: String },
    MalformedExpression { found: String },
    MalformedFactor,
}

/// A parse error as a mathematical value.
pub enum ParseErrorView {
    UnknownToken,
    UnexpectedToken { expected: Seq<char>, found: Seq<char> },
    UnexpectedEof,
    InvalidInteger { int: Seq<char> },
    ExpectedEof { found: Seq<char> },
    MalformedExpression { found: Seq<char> },
    MalformedFactor,
}

impl View for ParseError {
    type V = ParseErrorView;

    open spec fn view(&self) -> ParseErrorView {
        match self {
            ParseError::UnknownToken => ParseErrorView::UnknownToken,
            ParseError::UnexpectedToken { expected, found } => ParseErrorView::UnexpectedToken {
                expected: expected@,
                found: found@,
            },
            ParseError::UnexpectedEof => ParseErrorView::UnexpectedEof,
            ParseError::InvalidInteger { int: s } => ParseErrorView::InvalidInteger { int: s@ },
            ParseError::ExpectedEof { found } => ParseErrorView::ExpectedEof { found: found@ },
            ParseError::MalformedExpression { found } => ParseErrorView::MalformedExpression {
                found: found@,
            },
            ParseError::MalformedFactor => ParseErrorView::MalformedFactor,
        }
    }
}

/// A whole program: one function definition.
#[derive(Debug, PartialEq)]
pub struct Program {
    pub function_def: FunctionDef,
}

/// A function definition: its name and its one statement.
#[derive(Debug, PartialEq)]
pub struct FunctionDef {
    pub name: String,
    pub body: Statement,
}

#[derive(Debug, PartialEq)]
pub enum Statement {
    Return(Expr),
}

#[derive(Debug, PartialEq)]
pub enum UnaryOperator {
    Complement,
    Negate,
}

#[derive(Debug, PartialEq)]
pub enum BinaryOperator {
    Add,
    Subtract,
    Multiply,
    Divide,
    Remainder,
}

#[derive(Debug, PartialEq)]
pub enum Expr {
    Constant(isize),
    Unary(UnaryOperator, Box<Expr>),
    Binary(BinaryOperator, Box<Expr>, Box<Expr>),
}

/// A program as a mathematical value.
pub struct ProgramView {
    pub name: Seq<char>,
    pub body: Statement,
}

impl View for Program {
    type V = ProgramView;

    open spec fn view(&self) -> ProgramView {
        ProgramView { name: self.function_def.name@, body: self.function_def.body }
    }
}

/// How std's `Debug` writes a string slice: between double quotes, with quotes,
/// backslashes and characters that do not print escaped. Nothing more of it is stated.
pub uninterp spec fn str_debug_text(s: Seq<char>) -> Seq<char>;

/// `format!("{:?}", s)` for a string slice (std's `Debug` for `str`); the contract only
/// says that the text depends on the characters of `s` alone, under the name
/// `str_debug_text`.
#[verifier::external_body]
fn debug_str(s: &str) -> (r: String)
    ensures
        r@ == str_debug_text(s@),
{
    format!("{:?}", s)
}

/// The `Debug` text of a token: the variant's name, and for identifiers and constants
/// the quoted text in parentheses.
pub open spec fn token_debug(t: TokenView) -> Seq<char> {
    match t {
        TokenView::Int => "Int"@,
        TokenView::Void => "Void"@,
        TokenView::Return => "Return"@,
        TokenView::OpenParen => "OpenParen"@,
        TokenView::CloseParen => "CloseParen"@,
        TokenView::OpenBrace => "OpenBrace"@,
        TokenView::CloseBrace => "CloseBrace"@,
        TokenView::Semicolon => "Semicolon"@,
        TokenView::BitwiseComplement => "BitwiseComplement"@,
        TokenView::Negation => "Negation"@,
        TokenView::Plus => "Plus"@,
        TokenView::Asterisk => "Asterisk"@,
        TokenView::ForwardSlash => "ForwardSlash"@,
        TokenView::Percent => "Percent"@,
        TokenView::Identifier(s) => "Identifier("@ + str_debug_text(s) + ")"@,
        TokenView::Constant(s) => "Constant("@ + str_debug_text(s) + ")"@,
        TokenView::InvalidIdentifier => "InvalidIdentifier"@,
    }
}

/// Text for a token as `Debug` writes it.
fn describe_token(t: &Token) -> (r: String)
    ensures
        r@ == token_debug(t@),
{
    match t {
        Token::Int => String::from_str("Int"),
        Token::Void => String::from_str("Void"),
        Token::Return => String::from_str("Return"),
        Token::OpenParen => String::from_str("OpenParen"),
        Token::CloseParen => String::from_str("CloseParen"),
        Token::OpenBrace => String::from_str("OpenBrace"),
        Token::CloseBrace => String::from_str("CloseBrace"),
        Token::Semicolon => String::from_str("Semicolon"),
        Token::BitwiseComplement => String::from_str("BitwiseComplement"),
        Token::Negation => String::from_str("Negation"),
        Token::Plus => String::from_str("Plus"),
        Token::Asterisk => String::from_str("Asterisk"),
        Token::ForwardSlash => String::from_str("ForwardSlash"),
        Token::Percent => String::from_str("Percent"),
        Token::Identifier(s) => {
            let mut r = String::from_str("Identifier(");
            let q = debug_str(s);
            r.append(q.as_str());
            r.append(")");
            r
        },
        Token::Constant(s) => {
            let mut r = String::from_str("Constant(");
            let q = debug_str(s);
            r.append(q.as_str());
            r.append(")");
            r
        },
        Token::InvalidIdentifier => String::from_str("InvalidIdentifier"),
    }
}

/// Whether two string slices hold the same characters.
fn str_eq(a: &str, b: &str) -> (r: bool)
    ensures
        r == (a@ == b@),
{
    let n = a.unicode_len();
    if n != b.unicode_len() {
        return false;
    }
    let mut k: usize = 0;
    while k < n
        invariant
            n == a@.len(),
            n == b@.len(),
            k <= n,
            forall|m: int| 0 <= m < k ==> a@[m] == b@[m],
        decreases n - k,
    {
        if a.get_char(k) != b.get_char(k) {
            return false;
        }
        k = k + 1;
    }
    assert(a@ =~= b@);
    true
}

/// Whether two tokens are the same token.
fn same_token(a: &Token, b: &Token) -> (r: bool)
    ensures
        r == (a@ == b@),
{
    match (a, b) {
        (Token::Int, Token::Int) => true,
        (Token::Void, Token::Void) => true,
        (Token::Return, Token::Return) => true,
        (Token::OpenParen, Token::OpenParen) => true,
        (Token::CloseParen, Token::CloseParen) => true,
        (Token::OpenBrace, Token::OpenBrace) => true,
        (Token::CloseBrace, Token::CloseBrace) => true,
        (Token::Semicolon, Token::Semicolon) => true,
        (Token::BitwiseComplement, Token::BitwiseComplement) => true,
        (Token::Negation, Token::Negation) => true,
        (Token::Plus, Token::Plus) => true,
        (Token::Asterisk, Token::Asterisk) => true,
        (Token::ForwardSlash, Token::ForwardSlash) => true,
        (Token::Percent, Token::Percent) => true,
        (Token::Identifier(x), Token::Identifier(y)) => str_eq(x, y),
        (Token::Constant(x), Token::Constant(y)) => str_eq(x, y),
        (Token::InvalidIdentifier, Token::InvalidIdentifier) => true,
        _ => false,
    }
}

/// The result of parsing one construct at a position: the value and the position just
/// after it, an error and the position of the next token left after it, or `Aborted` where parsing stops without an answer (a constant
/// that fits a `usize` but not an `isize`).
pub enum Outcome<T> {
    Done(T, int),
    Failed(ParseErrorView, int),
    Aborted,
}

/// Why parsing stopped: an error, or a constant that fits a `usize` but not an `isize`.
pub enum Stop {
    Error(ParseError),
    Abort,
}

/// Whether an executable result agrees with a parse outcome that ends at `pos`.
pub open spec fn agrees<T>(r: Result<T, Stop>, o: Outcome<T>, pos: int) -> bool {
    match r {
        Ok(v) => o == Outcome::Done(v, pos),
        Err(Stop::Error(e)) => o == Outcome::<T>::Failed(e@, pos),
        Err(Stop::Abort) => o is Aborted,
    }
}

/// Expecting `expected` at `pos`.
pub open spec fn expect_spec(t: Seq<TokenView>, pos: int, expected: TokenView) -> Outcome<()> {
    if pos < 0 || pos >= t.len() {
        Outcome::Failed(ParseErrorView::UnexpectedEof, pos)
    } else if t[pos] == expected {
        Outcome::Done((), pos + 1)
    } else {
        Outcome::Failed(
            ParseErrorView::UnexpectedToken {
                expected: token_debug(expected),
                found: token_debug(t[pos]),
            },
            pos + 1,
        )
    }
}

/// After `o`, expecting `expected`; the value of `o` is kept.
pub open spec fn then_expect<T>(t: Seq<TokenView>, o: Outcome<T>, expected: TokenView) -> Outcome<
    T,
> {
    match o {
        Outcome::Done(v, p) => match expect_spec(t, p, expected) {
            Outcome::Done(_, p2) => Outcome::Done(v, p2),
            Outcome::Failed(e, q) => Outcome::Failed(e, q),
            Outcome::Aborted => Outcome::Aborted,
        },
        Outcome::Failed(e, q) => Outcome::Failed(e, q),
        Outcome::Aborted => Outcome::Aborted,
    }
}

/// Expecting an identifier at `pos`; its text is the value.
pub open spec fn expect_identifier_spec(t: Seq<TokenView>, pos: int) -> Outcome<Seq<char>> {
    if pos < 0 || pos >= t.len() {
        Outcome::Failed(ParseErrorView::UnexpectedEof, pos)
    } else {
        match t[pos] {
            TokenView::Identifier(s) => Outcome::Done(s, pos + 1),
            other => Outcome::Failed(
                ParseErrorView::UnexpectedToken {
                    expected: "Token::Identifier(ident)"@,
                    found: token_debug(other),
                },
                pos + 1,
            ),
        }
    }
}

/// Expecting the end of the tokens at `pos`.
pub open spec fn expect_eof_spec(t: Seq<TokenView>, pos: int) -> Outcome<()> {
    if pos < 0 || pos >= t.len() {
        Outcome::Done((), pos)
    } else {
        Outcome::Failed(ParseErrorView::ExpectedEof { found: token_debug(t[pos]) }, pos + 1)
    }
}

/// The unary operator that a prefix token stands for.
pub open spec fn unary_op_spec(t: TokenView) -> UnaryOperator {
    match t {
        TokenView::BitwiseComplement => UnaryOperator::Complement,
        _ => UnaryOperator::Negate,
    }
}

/// The binary operator that an infix token stands for.
pub open spec fn binary_op_spec(t: TokenView) -> BinaryOperator {
    match t {
        TokenView::Asterisk => BinaryOperator::Multiply,
        TokenView::Percent => BinaryOperator::Remainder,
        TokenView::Plus => BinaryOperator::Add,
        TokenView::Negation => BinaryOperator::Subtract,
        _ => BinaryOperator::Divide,
    }
}

/// Parsing a factor at `pos`.
pub open spec fn factor_spec(t: Seq<TokenView>, pos: int) -> Outcome<Expr>
    decreases t.len() - pos, 0int,
{
    if pos < 0 || pos >= t.len() {
        Outcome::Failed(ParseErrorView::UnexpectedEof, pos)
    } else {
        match t[pos] {
            TokenView::Constant(s) => match read_usize(s) {
                Some(v) => if v <= isize::MAX {
                    Outcome::Done(Expr::Constant(v as isize), pos + 1)
                } else {
                    Outcome::Aborted
                },
                None => Outcome::Failed(ParseErrorView::InvalidInteger { int: s }, pos + 1),
            },
            TokenView::BitwiseComplement | TokenView::Negation => match factor_spec(t, pos + 1) {
                Outcome::Done(e, p) => Outcome::Done(
                    Expr::Unary(unary_op_spec(t[pos]), Box::new(e)),
                    p,
                ),
                Outcome::Failed(e, q) => Outcome::Failed(e, q),
                Outcome::Aborted => Outcome::Aborted,
            },
            TokenView::OpenParen => then_expect(
                t,
                expr_spec(t, pos + 1, 0),
                TokenView::CloseParen,
            ),
            _ => Outcome::Failed(ParseErrorView::MalformedFactor, pos),
        }
    }
}

/// Parsing an expression at `pos` whose operators bind at least as tightly as `min_prec`.
/// (The test `pos < p` only shows that the recursion ends: a parsed factor always ends
/// after its start, as `lemma_factor_advances` proves, so the `Aborted` branch there is
/// never taken.)
pub open spec fn expr_spec(t: Seq<TokenView>, pos: int, min_prec: nat) -> Outcome<Expr>
    decreases t.len() - pos, 1int,
{
    if pos < 0 || pos >= t.len() {
        Outcome::Failed(ParseErrorView::UnexpectedEof, pos)
    } else {
        match factor_spec(t, pos) {
            Outcome::Done(left, p) => if p >= t.len() {
                Outcome::Failed(ParseErrorView::UnexpectedEof, p)
            } else if pos < p {
                climb_spec(t, left, p, min_prec)
            } else {
                Outcome::Aborted
            },
            Outcome::Failed(e, q) => Outcome::Failed(e, q),
            Outcome::Aborted => Outcome::Aborted,
        }
    }
}

/// Extending `left`, which ends at `pos`, with the operators at `pos` and after that bind
/// at least as tightly as `min_prec`. (As in `expr_spec`, the test `pos < p` always
/// holds; see `lemma_expr_advances`.)
pub open spec fn climb_spec(t: Seq<TokenView>, left: Expr, pos: int, min_prec: nat) -> Outcome<
    Expr,
>
    decreases t.len() - pos, 2int,
{
    if pos < 0 || pos >= t.len() {
        Outcome::Done(left, pos)
    } else if is_binary_operator_spec(t[pos]) && precedence_spec(t[pos]) >= min_prec {
        match expr_spec(t, pos + 1, precedence_spec(t[pos]) + 1) {
            Outcome::Done(right, p) => {
                let joined = Expr::Binary(binary_op_spec(t[pos]), Box::new(left), Box::new(right));
                if p >= t.len() {
                    Outcome::Done(joined, p)
                } else if pos < p {
                    climb_spec(t, joined, p, min_prec)
                } else {
                    Outcome::Aborted
                }
            },
            Outcome::Failed(e, q) => Outcome::Failed(e, q),
            Outcome::Aborted => Outcome::Aborted,
        }
    } else {
        Outcome::Done(left, pos)
    }
}

/// Parsing the statement `return expr ;` at `pos`.
pub open spec fn statement_spec(t: Seq<TokenView>, pos: int) -> Outcome<Statement> {
    match expect_spec(t, pos, TokenView::Return) {
        Outcome::Done(_, p) => match then_expect(
            t,
            expr_spec(t, p, 0),
            TokenView::Semicolon,
        ) {
            Outcome::Done(e, p2) => Outcome::Done(Statement::Return(e), p2),
            Outcome::Failed(e, q) => Outcome::Failed(e, q),
            Outcome::Aborted => Outcome::Aborted,
        },
        Outcome::Failed(e, q) => Outcome::Failed(e, q),
        Outcome::Aborted => Outcome::Aborted,
    }
}

/// Parsing `int name ( void ) { statement }` at `pos`.
pub open spec fn function_def_spec(t: Seq<TokenView>, pos: int) -> Outcome<ProgramView> {
    match expect_spec(t, pos, TokenView::Int) {
        Outcome::Done(_, p1) => match expect_identifier_spec(t, p1) {
            Outcome::Done(name, p2) => {
                let head = then_expect(
                    t,
                    then_expect(
                        t,
                        then_expect(
                            t,
                            then_expect(t, Outcome::Done((), p2), TokenView::OpenParen),
                            TokenView::Void,
                        ),
                        TokenView::CloseParen,
                    ),
                    TokenView::OpenBrace,
                );
                match head {
                    Outcome::Done(_, p3) => match then_expect(
                        t,
                        statement_spec(t, p3),
                        TokenView::CloseBrace,
                    ) {
                        Outcome::Done(body, p4) => Outcome::Done(
                            ProgramView { name, body },
                            p4,
                        ),
                        Outcome::Failed(e, q) => Outcome::Failed(e, q),
                        Outcome::Aborted => Outcome::Aborted,
                    },
                    Outcome::Failed(e, q) => Outcome::Failed(e, q),
                    Outcome::Aborted => Outcome::Aborted,
                }
            },
            Outcome::Failed(e, q) => Outcome::Failed(e, q),
            Outcome::Aborted => Outcome::Aborted,
        },
        Outcome::Failed(e, q) => Outcome::Failed(e, q),
        Outcome::Aborted => Outcome::Aborted,
    }
}

/// Parsing a whole program: a function definition and then the end of the tokens.
pub open spec fn program_spec(t: Seq<TokenView>) -> Outcome<ProgramView> {
    match function_def_spec(t, 0) {
        Outcome::Done(p, pos) => match expect_eof_spec(t, pos) {
            Outcome::Done(_, end) => Outcome::Done(p, end),
            Outcome::Failed(e, q) => Outcome::Failed(e, q),
            Outcome::Aborted => Outcome::Aborted,
        },
        Outcome::Failed(e, q) => Outcome::Failed(e, q),
        Outcome::Aborted => Outcome::Aborted,
    }
}

/// The tokens as mathematical values.
pub open spec fn tokens_view(tokens: Seq<Token>) -> Seq<TokenView> {
    tokens.map_values(|t: Token| t@)
}

/// Whether parsing `tokens` comes to an answer: it stops without one only at a
/// constant that the parser reaches and that fits a `usize` but not an `isize`.
pub open spec fn parse_defined(tokens: Seq<TokenView>) -> bool {
    !(program_spec(tokens) is Aborted)
}

/// What parsing `tokens` gives, where `parse_defined(tokens)` holds (elsewhere its value
/// has no meaning).
pub open spec fn parse_result(tokens: Seq<TokenView>) -> Result<ProgramView, ParseErrorView> {
    match program_spec(tokens) {
        Outcome::Done(p, _) => Ok(p),
        Outcome::Failed(e, _) => Err(e),
        Outcome::Aborted => Err(ParseErrorView::UnknownToken),
    }
}

/// A successful parse of a construct ends after its start and within the tokens.
pub proof fn lemma_factor_advances(t: Seq<TokenView>, pos: int)
    ensures
        factor_spec(t, pos) matches Outcome::Done(_, p) ==> pos < p <= t.len(),
    decreases t.len() - pos, 0int,
{
    if 0 <= pos < t.len() {
        match t[pos] {
            TokenView::BitwiseComplement | TokenView::Negation => {
                lemma_factor_advances(t, pos + 1);
            },
            TokenView::OpenParen => {
                lemma_expr_advances(t, pos + 1, 0);
            },
            _ => {},
        }
    }
}

/// A successful parse of an expression ends after its start and within the tokens.
pub proof fn lemma_expr_advances(t: Seq<TokenView>, pos: int, min_prec: nat)
    ensures
        expr_spec(t, pos, min_prec) matches Outcome::Done(_, p) ==> pos < p <= t.len(),
    decreases t.len() - pos, 1int,
{
    if 0 <= pos < t.len() {
        lemma_factor_advances(t, pos);
        if let Outcome::Done(left, p) = factor_spec(t, pos) {
            if pos < p < t.len() {
                lemma_climb_advances(t, left, p, min_prec);
            }
        }
    }
}

/// Climbing never moves back.
pub proof fn lemma_climb_advances(t: Seq<TokenView>, left: Expr, pos: int, min_prec: nat)
    requires
        0 <= pos <= t.len(),
    ensures
        climb_spec(t, left, pos, min_prec) matches Outcome::Done(_, p) ==> pos <= p <= t.len(),
    decreases t.len() - pos, 2int,
{
    if 0 <= pos < t.len() && is_binary_operator_spec(t[pos]) && precedence_spec(t[pos])
        >= min_prec {
        let q = precedence_spec(t[pos]) + 1;
        lemma_expr_advances(t, pos + 1, q);
        if let Outcome::Done(right, p) = expr_spec(t, pos + 1, q) {
            if p < t.len() {
                let joined = Expr::Binary(binary_op_spec(t[pos]), Box::new(left), Box::new(right));
                lemma_climb_advances(t, joined, p, min_prec);
            }
        }
    }
}

/// A parser over a vector of tokens and the position of the next token.
struct Parser<'src> {
    tokens: Vec<Token<'src>>,
    pos: usize,
}

impl<'src> Parser<'src> {
    /// The tokens as mathematical values.
    spec fn toks(&self) -> Seq<TokenView> {
        tokens_view(self.tokens@)
    }

    fn new(tokens: Vec<Token<'src>>) -> (p: Self)
        ensures
            p.tokens == tokens,
            p.pos == 0,
    {
        Parser { tokens, pos: 0 }
    }

    /// The next token, consumed.
    fn take_one(&mut self) -> (t: Token<'src>)
        requires
            old(self).pos < old(self).tokens@.len(),
        ensures
            final(self).tokens == old(self).tokens,
            final(self).pos == old(self).pos + 1,
            t == old(self).tokens@[old(self).pos as int],
    {
        let n = self.tokens.len();
        let t = self.tokens[self.pos];
        assert(self.pos < n);
        self.pos = self.pos + 1;
        t
    }

    /// Consumes the next token, which must be `expected`.
    fn expect(&mut self, expected: Token<'src>) -> (r: Result<(), Stop>)
        requires
            old(self).pos <= old(self).tokens@.len(),
        ensures
            final(self).tokens == old(self).tokens,
            final(self).pos <= final(self).tokens@.len(),
            agrees(r, expect_spec(old(self).toks(), old(self).pos as int, expected@), final(self).pos as int),
    {
        if self.pos >= self.tokens.len() {
            return Err(Stop::Error(ParseError::UnexpectedEof));
        }
        let next = self.take_one();
        if same_token(&next, &expected) {
            return Ok(());
        }
        Err(
            Stop::Error(
                ParseError::UnexpectedToken {
                    expected: describe_token(&expected),
                    found: describe_token(&next),
                },
            ),
        )
    }

    /// Consumes the next token, which must be an identifier, and gives its text.
    fn expect_identifier(&mut self) -> (r: Result<String, Stop>)
        requires
            old(self).pos <= old(self).tokens@.len(),
        ensures
            final(self).tokens == old(self).tokens,
            final(self).pos <= final(self).tokens@.len(),
            match r {
                Ok(s) => expect_identifier_spec(old(self).toks(), old(self).pos as int)
                    == Outcome::Done(s@, final(self).pos as int),
                Err(Stop::Error(e)) => expect_identifier_spec(old(self).toks(), old(self).pos as int)
                    == Outcome::<Seq<char>>::Failed(e@, final(self).pos as int),
                Err(Stop::Abort) => false,
            },
    {
        if self.pos >= self.tokens.len() {
            return Err(Stop::Error(ParseError::UnexpectedEof));
        }
        let next = self.take_one();
        match next {
            Token::Identifier(ident) => Ok(ident.to_string()),
            t => Err(
                Stop::Error(
                    ParseError::UnexpectedToken {
                        expected: String::from_str("Token::Identifier(ident)"),
                        found: describe_token(&t),
                    },
                ),
            ),
        }
    }

    /// Consumes nothing and succeeds when the tokens are used up.
    fn expect_eof(&mut self) -> (r: Result<(), Stop>)
        requires
            old(self).pos <= old(self).tokens@.len(),
        ensures
            final(self).tokens == old(self).tokens,
            final(self).pos <= final(self).tokens@.len(),
            agrees(r, expect_eof_spec(old(self).toks(), old(self).pos as int), final(self).pos as int),
    {
        if self.pos >= self.tokens.len() {
            return Ok(());
        }
        let t = self.take_one();
        Err(Stop::Error(ParseError::ExpectedEof { found: describe_token(&t) }))
    }

    /// Parses a constant, a unary operator applied to a factor, or a parenthesized
    /// expression.
    fn parse_factor(&mut self) -> (r: Result<Expr, Stop>)
        requires
            old(self).pos <= old(self).tokens@.len(),
        ensures
            final(self).tokens == old(self).tokens,
            final(self).pos <= final(self).tokens@.len(),
            agrees(r, factor_spec(old(self).toks(), old(self).pos as int), final(self).pos as int),
        decreases old(self).tokens@.len() - old(self).pos, 0int,
    {
        let ghost t = self.toks();
        if self.pos >= self.tokens.len() {
            return Err(Stop::Error(ParseError::UnexpectedEof));
        }
        let token = self.tokens[self.pos];
        assert(t[self.pos as int] == token@);
        match token {
            Token::Constant(val) => {
                self.take_one();
                match crate::util::parse_usize(val) {
                    Some(v) => if v <= isize::MAX as usize {
                        Ok(Expr::Constant(v as isize))
                    } else {
                        Err(Stop::Abort)
                    },
                    None => Err(Stop::Error(ParseError::InvalidInteger { int: val.to_string() })),
                }
            },
            Token::BitwiseComplement | Token::Negation => {
                self.take_one();
                let operator = unary_operator_of(&token);
                let inner_expr = self.parse_factor();
                match inner_expr {
                    Ok(e) => Ok(Expr::Unary(operator, Box::new(e))),
                    Err(err) => Err(err),
                }
            },
            Token::OpenParen => {
                self.take_one();
                proof {
                    lemma_expr_advances(t, self.pos as int, MIN_PREC as nat);
                }
                let inner_expr = self.parse_expr(MIN_PREC);
                match inner_expr {
                    Ok(e) => {
                        match self.expect(Token::CloseParen) {
                            Ok(()) => Ok(e),
                            Err(err) => Err(err),
                        }
                    },
                    Err(err) => Err(err),
                }
            },
            _ => Err(Stop::Error(ParseError::MalformedFactor)),
        }
    }

    /// Parses an expression whose binary operators bind at least as tightly as
    /// `min_prec`, by precedence climbing.
    fn parse_expr(&mut self, min_prec: usize) -> (r: Result<Expr, Stop>)
        requires
            old(self).pos <= old(self).tokens@.len(),
            min_prec <= 51,
        ensures
            final(self).tokens == old(self).tokens,
            final(self).pos <= final(self).tokens@.len(),
            agrees(
                r,
                expr_spec(old(self).toks(), old(self).pos as int, min_prec as nat),
                final(self).pos as int,
            ),
        decreases old(self).tokens@.len() - old(self).pos, 1int,
    {
        let ghost t = self.toks();
        let ghost start = self.pos as int;
        if self.pos >= self.tokens.len() {
            return Err(Stop::Error(ParseError::UnexpectedEof));
        }
        proof {
            lemma_factor_advances(t, start);
        }
        let first = self.parse_factor();
        let mut left_expr = match first {
            Ok(e) => e,
            Err(err) => {
                return Err(err);
            },
        };
        if self.pos >= self.tokens.len() {
            return Err(Stop::Error(ParseError::UnexpectedEof));
        }
        let mut token = self.tokens[self.pos];
        assert(expr_spec(t, start, min_prec as nat) == climb_spec(
            t,
            left_expr,
            self.pos as int,
            min_prec as nat,
        ));
        while token.is_binary_operator() && token.precedence() >= min_prec
            invariant
                self.tokens == old(self).tokens,
                t == self.toks(),
                start < self.pos < self.tokens@.len(),
                start == old(self).pos,
                min_prec <= 51,
                token@ == t[self.pos as int],
                expr_spec(t, start, min_prec as nat) == climb_spec(
                    t,
                    left_expr,
                    self.pos as int,
                    min_prec as nat,
                ),
            decreases self.tokens@.len() - self.pos,
        {
            let ghost p = self.pos as int;
            let operator = binary_operator_of(&token);
            self.take_one();
            let next_prec = token.precedence() + 1;
            proof {
                lemma_expr_advances(t, p + 1, next_prec as nat);
            }
            let right = self.parse_expr(next_prec);
            let right_expr = match right {
                Ok(e) => e,
                Err(err) => {
                    return Err(err);
                },
            };
            left_expr = Expr::Binary(operator, Box::new(left_expr), Box::new(right_expr));
            if self.pos >= self.tokens.len() {
                return Ok(left_expr);
            }
            token = self.tokens[self.pos];
        }
        Ok(left_expr)
    }

    /// Parses `return expr ;`.
    fn parse_statement(&mut self) -> (r: Result<Statement, Stop>)
        requires
            old(self).pos <= old(self).tokens@.len(),
        ensures
            final(self).tokens == old(self).tokens,
            final(self).pos <= final(self).tokens@.len(),
            agrees(r, statement_spec(old(self).toks(), old(self).pos as int), final(self).pos as int),
    {
        match self.expect(Token::Return) {
            Ok(()) => {},
            Err(e) => {
                return Err(e);
            },
        }
        let return_val = match self.parse_expr(MIN_PREC) {
            Ok(e) => e,
            Err(e) => {
                return Err(e);
            },
        };
        match self.expect(Token::Semicolon) {
            Ok(()) => {},
            Err(e) => {
                return Err(e);
            },
        }
        Ok(Statement::Return(return_val))
    }

    /// Parses `int name ( void ) { statement }`.
    fn parse_function_def(&mut self) -> (r: Result<FunctionDef, Stop>)
        requires
            old(self).pos <= old(self).tokens@.len(),
        ensures
            final(self).tokens == old(self).tokens,
            final(self).pos <= final(self).tokens@.len(),
            match r {
                Ok(f) => function_def_spec(old(self).toks(), old(self).pos as int)
                    == Outcome::Done(ProgramView { name: f.name@, body: f.body }, final(self).pos as int),
                Err(Stop::Error(e)) => function_def_spec(old(self).toks(), old(self).pos as int)
                    == Outcome::<ProgramView>::Failed(e@, final(self).pos as int),
                Err(Stop::Abort) => function_def_spec(old(self).toks(), old(self).pos as int) is Aborted,
            },
    {
        match self.expect(Token::Int) {
            Ok(()) => {},
            Err(e) => {
                return Err(e);
            },
        }
        let ident = match self.expect_identifier() {
            Ok(s) => s,
            Err(e) => {
                return Err(e);
            },
        };
        match self.expect(Token::OpenParen) {
            Ok(()) => {},
            Err(e) => {
                return Err(e);
            },
        }
        match self.expect(Token::Void) {
            Ok(()) => {},
            Err(e) => {
                return Err(e);
            },
        }
        match self.expect(Token::CloseParen) {
            Ok(()) => {},
            Err(e) => {
                return Err(e);
            },
        }
        match self.expect(Token::OpenBrace) {
            Ok(()) => {},
            Err(e) => {
                return Err(e);
            },
        }
        let statement = match self.parse_statement() {
            Ok(s) => s,
            Err(e) => {
                return Err(e);
            },
        };
        match self.expect(Token::CloseBrace) {
            Ok(()) => {},
            Err(e) => {
                return Err(e);
            },
        }
        Ok(FunctionDef { name: ident, body: statement })
    }

    /// Parses a function definition and then requires the end of the tokens.
    fn parse_program(&mut self) -> (r: Result<Program, Stop>)
        requires
            old(self).pos == 0,
        ensures
            match r {
                Ok(p) => program_spec(old(self).toks()) matches Outcome::Done(v, _) && v == p@,
                Err(Stop::Error(e)) => program_spec(old(self).toks()) == Outcome::<ProgramView>::Failed(e@, final(self).pos as int),
                Err(Stop::Abort) => program_spec(old(self).toks()) is Aborted,
            },
    {
        let function_def = match self.parse_function_def() {
            Ok(f) => f,
            Err(e) => {
                return Err(e);
            },
        };
        match self.expect_eof() {
            Ok(()) => {},
            Err(e) => {
                return Err(e);
            },
        }
        Ok(Program { function_def })
    }
}

/// The unary operator of a `~` or `-` token.
fn unary_operator_of(t: &Token) -> (op: UnaryOperator)
    requires
        t@ is BitwiseComplement || t@ is Negation,
    ensures
        op == unary_op_spec(t@),
{
    match t {
        Token::BitwiseComplement => UnaryOperator::Complement,
        _ => UnaryOperator::Negate,
    }
}

/// The binary operator of a `+ - * / %` token.
fn binary_operator_of(t: &Token) -> (op: BinaryOperator)
    requires
        is_binary_operator_spec(t@),
    ensures
        op == binary_op_spec(t@),
{
    match t {
        Token::Asterisk => BinaryOperator::Multiply,
        Token::Percent => BinaryOperator::Remainder,
        Token::Plus => BinaryOperator::Add,
        Token::Negation => BinaryOperator::Subtract,
        _ => BinaryOperator::Divide,
    }
}

/// Parses a whole program from its tokens; `None` where parsing stops at a constant that
/// fits a `usize` but not an `isize` (where `parse` would have no answer).
pub fn try_parse(tokens: Vec<Token>) -> (r: Option<Result<Program, ParseError>>)
    ensures
        r is None <==> !parse_defined(tokens_view(tokens@)),
        r matches Some(Ok(p)) ==> parse_result(tokens_view(tokens@)) == Ok::<
            ProgramView,
            ParseErrorView,
        >(p@),
        r matches Some(Err(e)) ==> parse_result(tokens_view(tokens@)) == Err::<
            ProgramView,
            ParseErrorView,
        >(e@),
{
    let mut parser = Parser::new(tokens);
    match parser.parse_program() {
        Ok(p) => Some(Ok(p)),
        Err(Stop::Error(e)) => Some(Err(e)),
        Err(Stop::Abort) => None,
    }
}

/// Parses a whole program from its tokens.
pub fn parse(tokens: Vec<Token>) -> (r: Result<Program, ParseError>)
    requires
        parse_defined(tokens_view(tokens@)),
    ensures
        match r {
            Ok(p) => parse_result(tokens_view(tokens@)) == Ok::<ProgramView, ParseErrorView>(p@),
            Err(e) => parse_result(tokens_view(tokens@)) == Err::<ProgramView, ParseErrorView>(e@),
        },
{
    match try_parse(tokens) {
        Some(r) => r,
        None => {
            proof {
                assert(false);
            }
            Err(ParseError::UnknownToken)
        },
    }
}

} // verus!
