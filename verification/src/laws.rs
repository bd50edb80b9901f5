//! Properties of the compiler that hold for all inputs, stated over the stages' own
//! specifications.
use crate::lexer::{
    CharClass, LexError, Lexeme, TokenView, in_class, is_ident_char, is_ident_start, lemma_run_len_exact,
    lex_spec, scan, word_token,
};
use crate::parser::{
    BinaryOperator, Expr, Outcome, ProgramView, Statement, UnaryOperator, binary_op_spec,
    climb_spec, expr_spec, factor_spec, parse_defined, parse_result, program_spec,
    unary_op_spec,
};
use crate::lexer::{is_binary_operator_spec, precedence_spec};
use crate::util::{all_digits, decimal, is_digit, lemma_decimal_digits, lemma_read_decimal};
use crate::{lex_ok, lexed_tokens, parsed};
use crate::tacky::{
    self, InstructionView, ValView, binop_spec, body_instructions, expr_instructions, unop_spec,
};
use crate::util::{lemma_tmp_name_injective, next_counter, tmp_name};
use vstd::arithmetic::power2::pow2;
use vstd::prelude::*;

verus! {

/// The source text of a token.
pub open spec fn token_text(t: TokenView) -> Seq<char> {
    match t {
        TokenView::Int => "int"@,
        TokenView::Void => "void"@,
        TokenView::Return => "return"@,
        TokenView::OpenParen => seq!['('],
        TokenView::CloseParen => seq![')'],
        TokenView::OpenBrace => seq!['{'],
        TokenView::CloseBrace => seq!['}'],
        TokenView::Semicolon => seq![';'],
        TokenView::BitwiseComplement => seq!['~'],
        TokenView::Negation => seq!['-'],
        TokenView::Plus => seq!['+'],
        TokenView::Asterisk => seq!['*'],
        TokenView::ForwardSlash => seq!['/'],
        TokenView::Percent => seq!['%'],
        TokenView::Identifier(s) => s,
        TokenView::Constant(s) => s,
        TokenView::InvalidIdentifier => seq![],
    }
}

/// A word of identifier characters that starts with a letter or `_`.
pub open spec fn is_word(s: Seq<char>) -> bool {
    &&& s.len() > 0
    &&& is_ident_start(s[0])
    &&& forall|i: int| 0 <= i < s.len() ==> #[trigger] is_ident_char(s[i])
}

/// Tokens that lexing can give: identifiers that are words and not keywords, and
/// constants that are runs of digits.
pub open spec fn lexable(t: TokenView) -> bool {
    match t {
        TokenView::Identifier(s) => is_word(s) && s != "int"@ && s != "void"@ && s != "return"@,
        TokenView::Constant(s) => s.len() > 0 && all_digits(s),
        TokenView::InvalidIdentifier => false,
        _ => true,
    }
}

/// Tokens written out, each followed by a space.
pub open spec fn render(ts: Seq<TokenView>) -> Seq<char>
    decreases ts.len(),
{
    if ts.len() == 0 {
        seq![]
    } else {
        token_text(ts[0]) + seq![' '] + render(ts.drop_first())
    }
}

/// The first lexeme of a token's text followed by a space is that token.
proof fn lemma_scan_token_text(t: TokenView, rest: Seq<char>)
    requires
        lexable(t),
    ensures
        ({
            let s = token_text(t) + seq![' '] + rest;
            scan(s) == (Lexeme::Token(t), token_text(t).len())
        }),
{
    reveal_strlit("int");
    reveal_strlit("void");
    reveal_strlit("return");
    let w = token_text(t);
    let s = w + seq![' '] + rest;
    assert(s[w.len() as int] == ' ');
    match t {
        TokenView::Int | TokenView::Void | TokenView::Return | TokenView::Identifier(_) => {
            assert forall|k: int| 0 <= k < w.len() implies #[trigger] in_class(
                CharClass::Word,
                s[k],
            ) by {
                assert(s[k] == w[k]);
            }
            lemma_run_len_exact(s, CharClass::Word, w.len());
            assert(s.take(w.len() as int) =~= w);
            assert(s[0] == w[0]);
            if let TokenView::Identifier(x) = t {
                assert(is_ident_char(w[0]));
                assert(word_token(w) == t);
            }
        },
        TokenView::Constant(d) => {
            assert forall|k: int| 0 <= k < w.len() implies #[trigger] in_class(
                CharClass::Digit,
                s[k],
            ) by {
                assert(s[k] == w[k]);
                assert(is_digit(w[k]));
            }
            assert(is_digit(w[0]));
            lemma_run_len_exact(s, CharClass::Digit, w.len());
            assert(s.take(w.len() as int) =~= w);
        },
        _ => {
            assert(s[0] == w[0]);
            assert(s[1] == ' ');
        },
    }
}

/// Lexing gives back the tokens it reads: the tokens that lexing can give, written out
/// with a space after each, lex to exactly those tokens.
pub proof fn lemma_lex_render(ts: Seq<TokenView>)
    requires
        forall|i: int| 0 <= i < ts.len() ==> lexable(#[trigger] ts[i]),
    ensures
        lex_spec(render(ts)) == ts.map_values(|t: TokenView| Ok::<TokenView, LexError>(t)),
    decreases ts.len(),
{
    if ts.len() > 0 {
        let t = ts[0];
        let rest = render(ts.drop_first());
        let s = render(ts);
        let w = token_text(t);
        assert(s == w + seq![' '] + rest);
        lemma_scan_token_text(t, rest);
        assert(s.skip(w.len() as int) =~= seq![' '] + rest);
        let s2 = seq![' '] + rest;
        assert(scan(s2) == (Lexeme::Skip, 1nat));
        assert(s2.skip(1) =~= rest);
        assert forall|i: int| 0 <= i < ts.drop_first().len() implies lexable(
            #[trigger] ts.drop_first()[i],
        ) by {
            assert(ts.drop_first()[i] == ts[i + 1]);
        }
        lemma_lex_render(ts.drop_first());
        assert(lex_spec(s2) == lex_spec(rest));
        assert(lex_spec(s) == seq![Ok::<TokenView, LexError>(t)] + lex_spec(s.skip(w.len() as int)));
        assert(lex_spec(s) =~= seq![Ok::<TokenView, LexError>(t)] + lex_spec(rest));
        assert(ts.map_values(|t: TokenView| Ok::<TokenView, LexError>(t)) =~= seq![
            Ok::<TokenView, LexError>(t),
        ] + ts.drop_first().map_values(|t: TokenView| Ok::<TokenView, LexError>(t)));
    } else {
        assert(ts.map_values(|t: TokenView| Ok::<TokenView, LexError>(t)) =~= seq![]);
    }
}

/// The token of a binary operator.
pub open spec fn binop_token(op: BinaryOperator) -> TokenView {
    match op {
        BinaryOperator::Add => TokenView::Plus,
        BinaryOperator::Subtract => TokenView::Negation,
        BinaryOperator::Multiply => TokenView::Asterisk,
        BinaryOperator::Divide => TokenView::ForwardSlash,
        BinaryOperator::Remainder => TokenView::Percent,
    }
}

/// The token of a unary operator.
pub open spec fn unop_token(op: UnaryOperator) -> TokenView {
    match op {
        UnaryOperator::Complement => TokenView::BitwiseComplement,
        UnaryOperator::Negate => TokenView::Negation,
    }
}

/// An expression written out as tokens, every binary operation in parentheses.
pub open spec fn print_expr(e: Expr) -> Seq<TokenView>
    decreases e,
{
    match e {
        Expr::Constant(v) => seq![TokenView::Constant(decimal(v as nat))],
        Expr::Unary(op, inner) => seq![unop_token(op)] + print_expr(*inner),
        Expr::Binary(op, a, b) => seq![TokenView::OpenParen] + print_expr(*a) + seq![
            binop_token(op),
        ] + print_expr(*b) + seq![TokenView::CloseParen],
    }
}

/// Every constant of the expression is nonnegative, as the parser makes them.
pub open spec fn nonneg(e: Expr) -> bool
    decreases e,
{
    match e {
        Expr::Constant(v) => v >= 0,
        Expr::Unary(_, inner) => nonneg(*inner),
        Expr::Binary(_, a, b) => nonneg(*a) && nonneg(*b),
    }
}

/// The tokens of the program `int name(void) { return e; }`.
pub open spec fn program_tokens(name: Seq<char>, e: Expr) -> Seq<TokenView> {
    seq![
        TokenView::Int,
        TokenView::Identifier(name),
        TokenView::OpenParen,
        TokenView::Void,
        TokenView::CloseParen,
        TokenView::OpenBrace,
        TokenView::Return,
    ] + print_expr(e) + seq![TokenView::Semicolon, TokenView::CloseBrace]
}

/// `p` stands in `t` at `pos`.
pub open spec fn stands_at(t: Seq<TokenView>, pos: int, p: Seq<TokenView>) -> bool {
    0 <= pos && pos + p.len() <= t.len() && t.subrange(pos, pos + p.len()) == p
}

/// A printed expression parses back as a factor, wherever it stands.
pub proof fn lemma_factor_print(t: Seq<TokenView>, pos: int, e: Expr)
    requires
        nonneg(e),
        stands_at(t, pos, print_expr(e)),
    ensures
        factor_spec(t, pos) == Outcome::Done(e, pos + print_expr(e).len()),
    decreases e,
{
    let p = print_expr(e);
    assert(t[pos] == p[0]);
    match e {
        Expr::Constant(v) => {
            lemma_read_decimal(v as nat);
        },
        Expr::Unary(op, inner) => {
            let pi = print_expr(*inner);
            assert(t.subrange(pos + 1, pos + 1 + pi.len()) =~= pi) by {
                assert forall|k: int| 0 <= k < pi.len() implies t.subrange(
                    pos + 1,
                    pos + 1 + pi.len(),
                )[k] == pi[k] by {
                    assert(t[pos + 1 + k] == p[1 + k]);
                }
            }
            lemma_factor_print(t, pos + 1, *inner);
            assert(unary_op_spec(t[pos]) == op);
        },
        Expr::Binary(op, a, b) => {
            let pa = print_expr(*a);
            let pb = print_expr(*b);
            let p1 = pos + 1 + pa.len();
            let p2 = p1 + 1 + pb.len();
            assert(p.len() == pa.len() + pb.len() + 3);
            assert(t.subrange(pos + 1, p1) =~= pa) by {
                assert forall|k: int| 0 <= k < pa.len() implies t.subrange(pos + 1, p1)[k]
                    == pa[k] by {
                    assert(t[pos + 1 + k] == p[1 + k]);
                }
            }
            assert(t.subrange(p1 + 1, p2) =~= pb) by {
                assert forall|k: int| 0 <= k < pb.len() implies t.subrange(p1 + 1, p2)[k]
                    == pb[k] by {
                    assert(t[p1 + 1 + k] == p[pa.len() + 2 + k]);
                }
            }
            assert(t[p1] == p[pa.len() + 1int]);
            assert(t[p2] == p[p.len() - 1]);
            lemma_factor_print(t, pos + 1, *a);
            lemma_factor_print(t, p1 + 1, *b);
            let q = precedence_spec(t[p1]) + 1;
            assert(is_binary_operator_spec(t[p1]));
            assert(climb_spec(t, *b, p2, q) == Outcome::Done(*b, p2));
            assert(expr_spec(t, p1 + 1, q) == Outcome::Done(*b, p2));
            assert(binary_op_spec(t[p1]) == op);
            let joined = Expr::Binary(op, a, b);
            assert(climb_spec(t, joined, p2, 0) == Outcome::Done(joined, p2));
            assert(climb_spec(t, *a, p1, 0) == Outcome::Done(joined, p2));
            assert(expr_spec(t, pos + 1, 0) == Outcome::Done(joined, p2));
        },
    }
}

/// Parsing gives back the program it reads: the tokens of
/// `int name(void) { return e; }`, with every binary operation of `e` in parentheses,
/// parse to that program.
pub proof fn lemma_parse_print(name: Seq<char>, e: Expr)
    requires
        nonneg(e),
    ensures
        parse_defined(program_tokens(name, e)),
        parse_result(program_tokens(name, e)) == Ok::<ProgramView, crate::parser::ParseErrorView>(
            ProgramView { name, body: Statement::Return(e) },
        ),
{
    let t = program_tokens(name, e);
    let pe = print_expr(e);
    let q: int = 7 + pe.len() as int;
    assert(t.subrange(7, q) =~= pe);
    lemma_factor_print(t, 7, e);
    assert(t[q] == TokenView::Semicolon);
    assert(t[q + 1] == TokenView::CloseBrace);
    assert(t.len() == q + 2);
    assert(climb_spec(t, e, q, 0) == Outcome::Done(e, q));
    assert(expr_spec(t, 7, 0) == Outcome::Done(e, q));
    assert(program_spec(t) == Outcome::Done(ProgramView { name, body: Statement::Return(e) }, q + 2));
}

/// How tightly a binary operator binds.
pub open spec fn binds(op: BinaryOperator) -> nat {
    precedence_spec(binop_token(op))
}

/// The tree of `a o1 b o2 c`: the second operator takes `b` first only when it binds
/// more tightly than the first; operators of equal precedence group to the left.
pub open spec fn grouped(a: Expr, o1: BinaryOperator, b: Expr, o2: BinaryOperator, c: Expr) -> Expr {
    if binds(o2) > binds(o1) {
        Expr::Binary(o1, Box::new(a), Box::new(Expr::Binary(o2, Box::new(b), Box::new(c))))
    } else {
        Expr::Binary(o2, Box::new(Expr::Binary(o1, Box::new(a), Box::new(b))), Box::new(c))
    }
}

/// The tokens of `a o1 b o2 c ;`, with `a`, `b`, `c` printed as factors.
pub open spec fn chain_tokens(a: Expr, o1: BinaryOperator, b: Expr, o2: BinaryOperator, c: Expr) -> Seq<
    TokenView,
> {
    print_expr(a) + seq![binop_token(o1)] + print_expr(b) + seq![binop_token(o2)] + print_expr(c)
        + seq![TokenView::Semicolon]
}

/// Parsing respects precedence and associativity: in `a o1 b o2 c`, `*`, `/` and `%`
/// bind more tightly than `+` and `-`, and operators of equal precedence group to the
/// left.
pub proof fn lemma_precedence(a: Expr, o1: BinaryOperator, b: Expr, o2: BinaryOperator, c: Expr)
    requires
        nonneg(a),
        nonneg(b),
        nonneg(c),
    ensures
        expr_spec(chain_tokens(a, o1, b, o2, c), 0, 0) == Outcome::Done(
            grouped(a, o1, b, o2, c),
            chain_tokens(a, o1, b, o2, c).len() - 1,
        ),
{
    let t = chain_tokens(a, o1, b, o2, c);
    let pa = print_expr(a);
    let pb = print_expr(b);
    let pc = print_expr(c);
    let p1: int = pa.len() as int;
    let p2: int = p1 + 1 + pb.len();
    let p3: int = p2 + 1 + pc.len();
    assert(t.len() == p3 + 1);
    assert(t.subrange(0, p1) =~= pa);
    assert(t.subrange(p1 + 1, p2) =~= pb);
    assert(t.subrange(p2 + 1, p3) =~= pc);
    assert(t[p1] == binop_token(o1));
    assert(t[p2] == binop_token(o2));
    assert(t[p3] == TokenView::Semicolon);
    lemma_factor_print(t, 0, a);
    lemma_factor_print(t, p1 + 1, b);
    lemma_factor_print(t, p2 + 1, c);
    assert(binary_op_spec(t[p1]) == o1);
    assert(binary_op_spec(t[p2]) == o2);
    let q1 = binds(o1) + 1;
    let q2 = binds(o2) + 1;
    assert(climb_spec(t, c, p3, q2) == Outcome::Done(c, p3));
    assert(expr_spec(t, p2 + 1, q2) == Outcome::Done(c, p3));
    let bc = Expr::Binary(o2, Box::new(b), Box::new(c));
    let ab = Expr::Binary(o1, Box::new(a), Box::new(b));
    if binds(o2) > binds(o1) {
        assert(climb_spec(t, bc, p3, q1) == Outcome::Done(bc, p3));
        assert(climb_spec(t, b, p2, q1) == Outcome::Done(bc, p3));
        assert(expr_spec(t, p1 + 1, q1) == Outcome::Done(bc, p3));
        let abc = Expr::Binary(o1, Box::new(a), Box::new(bc));
        assert(climb_spec(t, abc, p3, 0) == Outcome::Done(abc, p3));
        assert(climb_spec(t, a, p1, 0) == Outcome::Done(abc, p3));
    } else {
        assert(climb_spec(t, b, p2, q1) == Outcome::Done(b, p2));
        assert(expr_spec(t, p1 + 1, q1) == Outcome::Done(b, p2));
        let abc = Expr::Binary(o2, Box::new(ab), Box::new(c));
        assert(climb_spec(t, abc, p3, 0) == Outcome::Done(abc, p3));
        assert(climb_spec(t, ab, p2, 0) == Outcome::Done(abc, p3));
        assert(climb_spec(t, a, p1, 0) == Outcome::Done(abc, p3));
    }
}

/// Every token of a printed expression is one that lexing can give.
proof fn lemma_print_lexable(e: Expr)
    ensures
        forall|i: int| 0 <= i < print_expr(e).len() ==> lexable(#[trigger] print_expr(e)[i]),
    decreases e,
{
    match e {
        Expr::Constant(v) => {
            lemma_decimal_digits(v as nat);
        },
        Expr::Unary(op, inner) => {
            lemma_print_lexable(*inner);
            let pi = print_expr(*inner);
            assert forall|i: int| 0 <= i < print_expr(e).len() implies lexable(
                #[trigger] print_expr(e)[i],
            ) by {
                if i > 0 {
                    assert(print_expr(e)[i] == pi[i - 1]);
                }
            }
        },
        Expr::Binary(op, a, b) => {
            lemma_print_lexable(*a);
            lemma_print_lexable(*b);
            let pa = print_expr(*a);
            let pb = print_expr(*b);
            assert forall|i: int| 0 <= i < print_expr(e).len() implies lexable(
                #[trigger] print_expr(e)[i],
            ) by {
                if 1 <= i < 1 + pa.len() {
                    assert(print_expr(e)[i] == pa[i - 1]);
                } else if 2 + pa.len() <= i < 2 + pa.len() + pb.len() {
                    assert(print_expr(e)[i] == pb[i - 2 - pa.len()]);
                }
            }
        },
    }
}

/// The front end reads back what is written: the text of `int name(void) { return e; }`,
/// tokens separated by spaces and every binary operation of `e` in parentheses, lexes
/// without error and parses to that program, when `name` is an identifier that is not a
/// keyword.
pub proof fn lemma_front_end(name: Seq<char>, e: Expr)
    requires
        nonneg(e),
        lexable(TokenView::Identifier(name)),
    ensures
        lex_ok(render(program_tokens(name, e))),
        lexed_tokens(render(program_tokens(name, e))) == program_tokens(name, e),
        parse_defined(lexed_tokens(render(program_tokens(name, e)))),
        parsed(render(program_tokens(name, e))) == (ProgramView { name, body: Statement::Return(e) }),
{
    let t = program_tokens(name, e);
    let pe = print_expr(e);
    lemma_print_lexable(e);
    assert forall|i: int| 0 <= i < t.len() implies lexable(#[trigger] t[i]) by {
        if 7 <= i < 7 + pe.len() {
            assert(t[i] == pe[i - 7]);
        }
    }
    lemma_lex_render(t);
    let s = render(t);
    assert(lex_spec(s) == t.map_values(|x: TokenView| Ok::<TokenView, LexError>(x)));
    assert(lexed_tokens(s) =~= t);
    lemma_parse_print(name, e);
}

/// C's division of integers, truncating toward zero.
pub open spec fn div_trunc(x: int, y: int) -> int {
    let q = (if x < 0 { -x } else { x }) / (if y < 0 { -y } else { y });
    if (x < 0) != (y < 0) {
        -q
    } else {
        q
    }
}

/// The meaning of a unary operator on an integer.
pub open spec fn apply_unary(op: tacky::UnaryOperator, x: int) -> int {
    match op {
        tacky::UnaryOperator::Complement => -x - 1,
        tacky::UnaryOperator::Negate => -x,
    }
}

/// The meaning of a binary operator on integers; division and remainder by zero have
/// none.
pub open spec fn apply_binary(op: tacky::BinaryOperator, x: int, y: int) -> Option<int> {
    match op {
        tacky::BinaryOperator::Add => Some(x + y),
        tacky::BinaryOperator::Subtract => Some(x - y),
        tacky::BinaryOperator::Multiply => Some(x * y),
        tacky::BinaryOperator::Divide => if y == 0 {
            None
        } else {
            Some(div_trunc(x, y))
        },
        tacky::BinaryOperator::Remainder => if y == 0 {
            None
        } else {
            Some(x - y * div_trunc(x, y))
        },
    }
}

/// The meaning of a source unary operator: `~x` is `-x - 1` (two's complement), `-x`
/// is the negation.
pub open spec fn source_unary(op: UnaryOperator, x: int) -> int {
    match op {
        UnaryOperator::Complement => -x - 1,
        UnaryOperator::Negate => -x,
    }
}

/// The meaning of a source binary operator: `+ - *` as on the integers, `/` dividing
/// toward zero as C does, `%` the remainder of that division; dividing by zero has none.
pub open spec fn source_binary(op: BinaryOperator, x: int, y: int) -> Option<int> {
    match op {
        BinaryOperator::Add => Some(x + y),
        BinaryOperator::Subtract => Some(x - y),
        BinaryOperator::Multiply => Some(x * y),
        BinaryOperator::Divide => if y == 0 {
            None
        } else {
            Some(div_trunc(x, y))
        },
        BinaryOperator::Remainder => if y == 0 {
            None
        } else {
            Some(x - y * div_trunc(x, y))
        },
    }
}

/// The value of an expression, over the integers.
pub open spec fn eval(e: Expr) -> Option<int>
    decreases e,
{
    match e {
        Expr::Constant(v) => Some(v as int),
        Expr::Unary(op, inner) => match eval(*inner) {
            Some(x) => Some(source_unary(op, x)),
            None => None,
        },
        Expr::Binary(op, a, b) => match (eval(*a), eval(*b)) {
            (Some(x), Some(y)) => source_binary(op, x, y),
            _ => None,
        },
    }
}

/// The number of operator applications in an expression.
pub open spec fn ops(e: Expr) -> nat
    decreases e,
{
    match e {
        Expr::Constant(_) => 0,
        Expr::Unary(_, inner) => ops(*inner) + 1,
        Expr::Binary(_, a, b) => ops(*a) + ops(*b) + 1,
    }
}

/// The value of a three-address value in an environment.
pub open spec fn value(v: ValView, env: Map<Seq<char>, int>) -> int {
    match v {
        ValView::Constant(c) => c as int,
        ValView::Var(n) => env[n],
    }
}

/// Executing one non-returning instruction: the destination variable takes the result.
pub open spec fn exec_instr(i: InstructionView, env: Map<Seq<char>, int>) -> Option<
    Map<Seq<char>, int>,
> {
    match i {
        InstructionView::Unary(op, src, ValView::Var(d)) => Some(
            env.insert(d, apply_unary(op, value(src, env))),
        ),
        InstructionView::Binary { op, src1, src2, dst: ValView::Var(d) } => match apply_binary(
            op,
            value(src1, env),
            value(src2, env),
        ) {
            Some(r) => Some(env.insert(d, r)),
            None => None,
        },
        _ => None,
    }
}

/// Running a function body until its `Return`: the value returned.
pub open spec fn run(is: Seq<InstructionView>, env: Map<Seq<char>, int>) -> Option<int>
    decreases is.len(),
{
    if is.len() == 0 {
        None
    } else {
        match is[0] {
            InstructionView::Return(v) => Some(value(v, env)),
            i => match exec_instr(i, env) {
                Some(e1) => run(is.drop_first(), e1),
                None => None,
            },
        }
    }
}

/// How arithmetic keeps its results: exactly, or wrapped around to the signed integers
/// of a number of bits (two's complement, as `wrapping_add` and the like do).
pub enum Arith {
    Exact,
    Wrapping(nat),
}

/// `x` wrapped around to the signed integers of `bits` bits.
#[verifier::opaque]
pub open spec fn wrap_signed(x: int, bits: nat) -> int {
    let m = pow2(bits) as int;
    let r = x % m;
    if r >= m / 2 {
        r - m
    } else {
        r
    }
}

/// A result as the arithmetic keeps it.
pub open spec fn fit(a: Arith, x: int) -> int {
    match a {
        Arith::Exact => x,
        Arith::Wrapping(bits) => wrap_signed(x, bits),
    }
}

/// The meaning of a unary operator under an arithmetic.
pub open spec fn apply_unary_in(a: Arith, op: tacky::UnaryOperator, x: int) -> int {
    fit(a, apply_unary(op, x))
}

/// The meaning of a binary operator under an arithmetic; division and remainder by zero
/// have none.
pub open spec fn apply_binary_in(a: Arith, op: tacky::BinaryOperator, x: int, y: int) -> Option<
    int,
> {
    match apply_binary(op, x, y) {
        Some(r) => Some(fit(a, r)),
        None => None,
    }
}

/// The value of an expression under an arithmetic.
pub open spec fn eval_in(a: Arith, e: Expr) -> Option<int>
    decreases e,
{
    match e {
        Expr::Constant(v) => Some(fit(a, v as int)),
        Expr::Unary(op, inner) => match eval_in(a, *inner) {
            Some(x) => Some(fit(a, source_unary(op, x))),
            None => None,
        },
        Expr::Binary(op, l, r) => match (eval_in(a, *l), eval_in(a, *r)) {
            (Some(x), Some(y)) => match source_binary(op, x, y) {
                Some(r) => Some(fit(a, r)),
                None => None,
            },
            _ => None,
        },
    }
}

/// The value of a three-address value in an environment, under an arithmetic.
pub open spec fn value_in(a: Arith, v: ValView, env: Map<Seq<char>, int>) -> int {
    match v {
        ValView::Constant(c) => fit(a, c as int),
        ValView::Var(n) => env[n],
    }
}

/// Executing one non-returning instruction under an arithmetic.
pub open spec fn exec_instr_in(a: Arith, i: InstructionView, env: Map<Seq<char>, int>) -> Option<
    Map<Seq<char>, int>,
> {
    match i {
        InstructionView::Unary(op, src, ValView::Var(d)) => Some(
            env.insert(d, apply_unary_in(a, op, value_in(a, src, env))),
        ),
        InstructionView::Binary { op, src1, src2, dst: ValView::Var(d) } => match apply_binary_in(
            a,
            op,
            value_in(a, src1, env),
            value_in(a, src2, env),
        ) {
            Some(r) => Some(env.insert(d, r)),
            None => None,
        },
        _ => None,
    }
}

/// Executing a sequence of non-returning instructions in order, under an arithmetic.
pub open spec fn exec_all_in(a: Arith, is: Seq<InstructionView>, env: Map<Seq<char>, int>) -> Option<
    Map<Seq<char>, int>,
>
    decreases is.len(),
{
    if is.len() == 0 {
        Some(env)
    } else {
        match exec_instr_in(a, is[0], env) {
            Some(e1) => exec_all_in(a, is.drop_first(), e1),
            None => None,
        }
    }
}

/// Running a function body until its `Return`, under an arithmetic.
pub open spec fn run_in(a: Arith, is: Seq<InstructionView>, env: Map<Seq<char>, int>) -> Option<int>
    decreases is.len(),
{
    if is.len() == 0 {
        None
    } else {
        match is[0] {
            InstructionView::Return(v) => Some(value_in(a, v, env)),
            i => match exec_instr_in(a, i, env) {
                Some(e1) => run_in(a, is.drop_first(), e1),
                None => None,
            },
        }
    }
}

/// Exact arithmetic is the arithmetic of `eval`.
proof fn lemma_eval_exact(e: Expr)
    ensures
        eval_in(Arith::Exact, e) == eval(e),
    decreases e,
{
    match e {
        Expr::Constant(_) => {},
        Expr::Unary(_, inner) => {
            lemma_eval_exact(*inner);
        },
        Expr::Binary(_, l, r) => {
            lemma_eval_exact(*l);
            lemma_eval_exact(*r);
        },
    }
}

/// Exact arithmetic is the arithmetic of `run`.
proof fn lemma_run_exact(is: Seq<InstructionView>, env: Map<Seq<char>, int>)
    ensures
        run_in(Arith::Exact, is, env) == run(is, env),
    decreases is.len(),
{
    if is.len() > 0 {
        assert(exec_instr_in(Arith::Exact, is[0], env) == exec_instr(is[0], env));
        if let Some(e1) = exec_instr(is[0], env) {
            lemma_run_exact(is.drop_first(), e1);
        }
    }
}

/// `n` is none of the temporaries numbered from `lo` up to (not including) `hi`.
pub open spec fn untouched(n: Seq<char>, lo: nat, hi: nat) -> bool {
    forall|k: nat| lo <= k < hi ==> #[trigger] tmp_name(k) != n
}

/// Two environments agree on a name.
pub open spec fn agree_at(a: Map<Seq<char>, int>, b: Map<Seq<char>, int>, n: Seq<char>) -> bool {
    a.dom().contains(n) == b.dom().contains(n) && a[n] == b[n]
}

/// The counter moves on by the number of operators, when it does not wrap around.
pub proof fn lemma_counter(e: Expr, c: usize)
    requires
        c + ops(e) <= usize::MAX,
    ensures
        expr_instructions(e, c).2 == c + ops(e),
    decreases e,
{
    match e {
        Expr::Constant(_) => {},
        Expr::Unary(_, inner) => {
            lemma_counter(*inner, c);
        },
        Expr::Binary(_, a, b) => {
            lemma_counter(*a, c);
            lemma_counter(*b, (c + ops(*a)) as usize);
        },
    }
}

/// Executing one sequence after another.
proof fn lemma_exec_all_concat(ar: Arith, a: Seq<InstructionView>, b: Seq<InstructionView>, env: Map<
    Seq<char>,
    int,
>)
    ensures
        exec_all_in(ar, a + b, env) == (match exec_all_in(ar, a, env) {
            Some(e1) => exec_all_in(ar, b, e1),
            None => None,
        }),
    decreases a.len(),
{
    if a.len() == 0 {
        assert(a + b =~= b);
    } else {
        assert((a + b).drop_first() =~= a.drop_first() + b);
        assert((a + b)[0] == a[0]);
        if let Some(e1) = exec_instr_in(ar, a[0], env) {
            lemma_exec_all_concat(ar, a.drop_first(), b, e1);
        }
    }
}

/// Lowering preserves the value of an expression: executing its instructions from any
/// environment leaves its value in the value it names, and touches no variable but its
/// own temporaries.
proof fn lemma_lower_expr(ar: Arith, e: Expr, c: usize, env: Map<Seq<char>, int>)
    requires
        c + ops(e) <= usize::MAX,
        eval_in(ar, e) is Some,
    ensures
        exec_all_in(ar, expr_instructions(e, c).0, env) is Some,
        value_in(ar, expr_instructions(e, c).1, exec_all_in(ar, expr_instructions(e, c).0, env)->0) == eval_in(ar, 
            e,
        )->0,
        expr_instructions(e, c).1 is Var ==> ops(e) > 0 && expr_instructions(e, c).1->Var_0
            == tmp_name((c + ops(e) - 1) as nat),
        forall|n: Seq<char>|
            untouched(n, c as nat, (c + ops(e)) as nat) ==> #[trigger] agree_at(
                exec_all_in(ar, expr_instructions(e, c).0, env)->0,
                env,
                n,
            ),
    decreases e,
{
    lemma_counter(e, c);
    match e {
        Expr::Constant(_) => {},
        Expr::Unary(op, inner) => {
            lemma_lower_expr(ar, *inner, c, env);
            lemma_counter(*inner, c);
            let (is, src, c1) = expr_instructions(*inner, c);
            let env1 = exec_all_in(ar, is, env)->0;
            let d = tmp_name(c1 as nat);
            let last = InstructionView::Unary(unop_spec(op), src, ValView::Var(d));
            lemma_exec_all_concat(ar, is, seq![last], env1.insert(d, 0));
            lemma_exec_all_concat(ar, is, seq![last], env);
            assert(is.push(last) =~= is + seq![last]);
            assert(seq![last].drop_first() =~= Seq::<InstructionView>::empty());
            let env2 = env1.insert(d, apply_unary_in(ar, unop_spec(op), value_in(ar, src, env1)));
            assert(exec_instr_in(ar, last, env1) == Some(env2));
            assert(exec_all_in(ar, Seq::<InstructionView>::empty(), env2) == Some(env2));
            assert(exec_all_in(ar, seq![last], env1) == Some(env2));
            assert forall|n: Seq<char>| untouched(n, c as nat, (c + ops(e)) as nat) implies #[trigger] agree_at(
                env2,
                env,
                n,
            ) by {
                assert(tmp_name(c1 as nat) != n);
                assert(untouched(n, c as nat, c1 as nat));
                assert(agree_at(env1, env, n));
            }
        },
        Expr::Binary(op, a, b) => {
            lemma_lower_expr(ar, *a, c, env);
            lemma_counter(*a, c);
            let (ia, va, c1) = expr_instructions(*a, c);
            let env1 = exec_all_in(ar, ia, env)->0;
            lemma_lower_expr(ar, *b, c1, env1);
            lemma_counter(*b, c1);
            let (ib, vb, c2) = expr_instructions(*b, c1);
            let env2 = exec_all_in(ar, ib, env1)->0;
            let d = tmp_name(c2 as nat);
            let last = InstructionView::Binary { op: binop_spec(op), src1: va, src2: vb, dst: ValView::Var(d) };
            lemma_exec_all_concat(ar, ia, ib, env);
            lemma_exec_all_concat(ar, ia + ib, seq![last], env);
            assert((ia + ib).push(last) =~= (ia + ib) + seq![last]);
            assert(seq![last].drop_first() =~= Seq::<InstructionView>::empty());
            if let ValView::Var(na) = va {
                assert(untouched(na, c1 as nat, c2 as nat)) by {
                    assert forall|k: nat| c1 <= k < c2 implies #[trigger] tmp_name(k) != na by {
                        if tmp_name(k) == na {
                            lemma_tmp_name_injective(k, (c1 - 1) as nat);
                        }
                    }
                }
                assert(agree_at(env2, env1, na));
            }
            assert(value_in(ar, va, env2) == value_in(ar, va, env1));
            let r = apply_binary_in(ar, binop_spec(op), value_in(ar, va, env2), value_in(ar, vb, env2))->0;
            let env3 = env2.insert(d, r);
            assert(exec_instr_in(ar, last, env2) == Some(env3));
            assert(exec_all_in(ar, Seq::<InstructionView>::empty(), env3) == Some(env3));
            assert(exec_all_in(ar, seq![last], env2) == Some(env3));
            assert forall|n: Seq<char>| untouched(n, c as nat, (c + ops(e)) as nat) implies #[trigger] agree_at(
                env3,
                env,
                n,
            ) by {
                assert(tmp_name(c2 as nat) != n);
                assert(untouched(n, c as nat, c1 as nat));
                assert(untouched(n, c1 as nat, c2 as nat));
                assert(agree_at(env1, env, n));
                assert(agree_at(env2, env1, n));
            }
        },
    }
}

/// Lowering preserves meaning, whatever the arithmetic (exact, or wrapping around at a
/// width): when the returned expression has a value (no division by zero) and its
/// temporaries, numbered from `c` on, do not wrap around, running the lowered function
/// body from any environment returns that value.
pub proof fn lemma_tacky_preserves_value_in(
    ar: Arith,
    body: Statement,
    c: usize,
    env: Map<Seq<char>, int>,
)
    requires
        c + ops(body->Return_0) <= usize::MAX,
        eval_in(ar, body->Return_0) is Some,
    ensures
        run_in(ar, body_instructions(body, c), env) == eval_in(ar, body->Return_0),
{
    let e = body->Return_0;
    lemma_lower_expr(ar, e, c, env);
    lemma_no_return(e, c);
    let (is, v, _) = expr_instructions(e, c);
    lemma_run_after(ar, is, InstructionView::Return(v), env);
}

/// Lowering preserves meaning over the integers: when the returned expression has a
/// value (no division by zero) and its temporaries, numbered from `c` on, do not wrap
/// around, running the lowered function body from any environment returns that value.
pub proof fn lemma_tacky_preserves_value(body: Statement, c: usize, env: Map<Seq<char>, int>)
    requires
        c + ops(body->Return_0) <= usize::MAX,
        eval(body->Return_0) is Some,
    ensures
        run(body_instructions(body, c), env) == eval(body->Return_0),
{
    lemma_eval_exact(body->Return_0);
    lemma_run_exact(body_instructions(body, c), env);
    lemma_tacky_preserves_value_in(Arith::Exact, body, c, env);
}

/// The instructions of an expression hold no return.
proof fn lemma_no_return(e: Expr, c: usize)
    ensures
        forall|k: int|
            0 <= k < expr_instructions(e, c).0.len() ==> !(#[trigger] expr_instructions(e, c).0[k] is Return),
    decreases e,
{
    match e {
        Expr::Constant(_) => {},
        Expr::Unary(op, inner) => {
            lemma_no_return(*inner, c);
        },
        Expr::Binary(op, a, b) => {
            lemma_no_return(*a, c);
            let c1 = expr_instructions(*a, c).2;
            lemma_no_return(*b, c1);
            let ia = expr_instructions(*a, c).0;
            let ib = expr_instructions(*b, c1).0;
            assert forall|k: int| 0 <= k < expr_instructions(e, c).0.len() implies !(
            #[trigger] expr_instructions(e, c).0[k] is Return) by {
                if k < ia.len() {
                    assert(expr_instructions(e, c).0[k] == ia[k]);
                } else if k < ia.len() + ib.len() {
                    assert(expr_instructions(e, c).0[k] == ib[k - ia.len()]);
                }
            }
        },
    }
}

/// Running a sequence that ends with a return: execute the rest first.
proof fn lemma_run_after(ar: Arith, is: Seq<InstructionView>, ret: InstructionView, env: Map<Seq<char>, int>)
    requires
        ret is Return,
        exec_all_in(ar, is, env) is Some,
        forall|k: int| 0 <= k < is.len() ==> !(#[trigger] is[k] is Return),
    ensures
        run_in(ar, is.push(ret), env) == run_in(ar, seq![ret], exec_all_in(ar, is, env)->0),
    decreases is.len(),
{
    if is.len() > 0 {
        assert(is.push(ret).drop_first() =~= is.drop_first().push(ret));
        assert(is.push(ret)[0] == is[0]);
        assert forall|k: int| 0 <= k < is.drop_first().len() implies !(
        #[trigger] is.drop_first()[k] is Return) by {
            assert(is.drop_first()[k] == is[k + 1]);
        }
        lemma_run_after(ar, is.drop_first(), ret, exec_instr_in(ar, is[0], env)->0);
    }
}

} // verus!
