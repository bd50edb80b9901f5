//! Lexing a text line by line: no lexeme reaches over a newline, but a block comment.
use crate::lexer::{
    CharClass, LexError, Lexeme, TokenView, in_class, is_ident_start, lemma_run_len_exact,
    block_comment_len, lemma_scan_len, lex_spec, run_len, scan,
};
use crate::util::is_digit;
use vstd::prelude::*;

verus! {

/// `s` holds the opening `/*` of a block comment somewhere.
pub open spec fn opens_comment(s: Seq<char>) -> bool {
    exists|k: int| 0 <= k < s.len() - 1 && s[k] == '/' && #[trigger] s[k + 1] == '*'
}

/// `x`, a newline, then `y`.
pub open spec fn joined(x: Seq<char>, y: Seq<char>) -> Seq<char> {
    x + seq!['\n'] + y
}

/// A run of characters other than newlines stops at the newline.
proof fn lemma_run_stops(x: Seq<char>, y: Seq<char>, class: CharClass)
    requires
        !in_class(class, '\n'),
    ensures
        run_len(joined(x, y), class) == run_len(x, class),
    decreases x.len(),
{
    let s = joined(x, y);
    if x.len() > 0 {
        assert(s[0] == x[0]);
        assert(s.drop_first() =~= joined(x.drop_first(), y));
        lemma_run_stops(x.drop_first(), y, class);
    } else {
        assert(s[0] == '\n');
    }
}

/// Dropping a part of `x` from the joined text.
proof fn lemma_joined_skip(x: Seq<char>, y: Seq<char>, k: int)
    requires
        0 <= k <= x.len(),
    ensures
        joined(x, y).skip(k) == joined(x.skip(k), y),
{
    assert(joined(x, y).skip(k) =~= joined(x.skip(k), y));
}

/// The first lexeme of a nonempty `x` with no `/*` is the same when a newline and more
/// text follow.
proof fn lemma_scan_joined(x: Seq<char>, y: Seq<char>)
    requires
        x.len() > 0,
        !opens_comment(x),
    ensures
        scan(joined(x, y)) == scan(x),
        scan(x).1 <= x.len(),
{
    let s = joined(x, y);
    lemma_scan_len(x);
    assert(forall|i: int| 0 <= i < x.len() ==> s[i] == x[i]);
    assert(s[x.len() as int] == '\n');
    let c = x[0];
    assert(s[0] == c);
    if x.len() > 1 && c == '/' {
        assert(x[1] != '*') by {
            if x[1] == '*' {
                assert(x[0int] == '/' && x[0int + 1] == '*');
            }
        }
    }
    if x.len() >= 2 {
        lemma_joined_skip(x, y, 2);
        lemma_run_stops(x.skip(2), y, CharClass::NotNewline);
    }
    lemma_run_stops(x, y, CharClass::Word);
    lemma_run_stops(x, y, CharClass::Digit);
    let n = run_len(x, CharClass::Digit);
    if is_digit(c) {
        crate::lexer::lemma_run_len_bound(x, CharClass::Digit);
        if n < x.len() {
            lemma_joined_skip(x, y, n as int);
            lemma_run_stops(x.skip(n as int), y, CharClass::Word);
        } else {
            assert(!is_ident_start(s[n as int]));
        }
    }
    if is_ident_start(c) {
        crate::lexer::lemma_run_len_bound(x, CharClass::Word);
        let m = run_len(x, CharClass::Word);
        assert(s.take(m as int) =~= x.take(m as int));
    }
    if is_digit(c) {
        assert(s.take(n as int) =~= x.take(n as int));
    }
}

/// A text lexes line by line: lexing `a`, a newline and `b` gives the lexemes of `a`
/// followed by those of `b`, when `a` holds no `/*` (a block comment, or an unclosed
/// `/*`, may reach over the newline).
pub proof fn lemma_lex_lines(a: Seq<char>, b: Seq<char>)
    requires
        !opens_comment(a),
    ensures
        lex_spec(joined(a, b)) == lex_spec(a) + lex_spec(b),
    decreases a.len(),
{
    let s = joined(a, b);
    if a.len() == 0 {
        assert(s[0] == '\n');
        assert(s.skip(1) =~= b);
        assert(lex_spec(a) =~= Seq::<Result<crate::lexer::TokenView, crate::lexer::LexError>>::empty());
        assert(lex_spec(a) + lex_spec(b) =~= lex_spec(b));
    } else {
        lemma_scan_joined(a, b);
        let (lexeme, n) = scan(a);
        lemma_joined_skip(a, b, n as int);
        let rest = a.skip(n as int);
        assert(!opens_comment(rest)) by {
            if opens_comment(rest) {
                let k = choose|k: int| 0 <= k < rest.len() - 1 && rest[k] == '/' && #[trigger] rest[k
                    + 1] == '*';
                assert(a[n + k] == '/' && a[n + k + 1] == '*');
            }
        }
        lemma_lex_lines(rest, b);
        match lexeme {
            Lexeme::Skip => {},
            Lexeme::Token(t) => {
                assert(seq![Ok(t)] + lex_spec(rest) + lex_spec(b) =~= seq![Ok(t)] + (lex_spec(rest)
                    + lex_spec(b)));
            },
            Lexeme::Error(e) => {
                assert(seq![Err(e)] + lex_spec(rest) + lex_spec(b) =~= seq![Err(e)] + (lex_spec(
                    rest,
                ) + lex_spec(b)));
            },
        }
    }
}

/// A word of letters, digits and `_` that starts with a letter or `_` is one token: the
/// keyword it spells (`int`, `void`, `return`), or else an identifier with its text.
pub proof fn lemma_lex_word(w: Seq<char>)
    requires
        w.len() > 0,
        ('a' <= w[0] <= 'z') || ('A' <= w[0] <= 'Z') || w[0] == '_',
        forall|i: int|
            0 <= i < w.len() ==> ('a' <= #[trigger] w[i] <= 'z') || ('A' <= w[i] <= 'Z') || w[i]
                == '_' || ('0' <= w[i] <= '9'),
    ensures
        lex_spec(w) == seq![
            Ok::<TokenView, LexError>(
                if w == "int"@ {
                    TokenView::Int
                } else if w == "void"@ {
                    TokenView::Void
                } else if w == "return"@ {
                    TokenView::Return
                } else {
                    TokenView::Identifier(w)
                },
            ),
        ],
{
    assert forall|k: int| 0 <= k < w.len() implies #[trigger] in_class(CharClass::Word, w[k]) by {}
    lemma_run_len_exact(w, CharClass::Word, w.len());
    lemma_scan_len(w);
    assert(w.take(w.len() as int) =~= w);
    assert(w.skip(w.len() as int) =~= Seq::<char>::empty());
    assert(lex_spec(w.skip(w.len() as int)) =~= Seq::<Result<TokenView, LexError>>::empty());
}

/// A run of the digits `0` to `9` is one constant token with its text.
pub proof fn lemma_lex_number(w: Seq<char>)
    requires
        w.len() > 0,
        forall|i: int| 0 <= i < w.len() ==> '0' <= #[trigger] w[i] <= '9',
    ensures
        lex_spec(w) == seq![Ok::<TokenView, LexError>(TokenView::Constant(w))],
{
    assert forall|k: int| 0 <= k < w.len() implies #[trigger] in_class(CharClass::Digit, w[k]) by {}
    lemma_run_len_exact(w, CharClass::Digit, w.len());
    lemma_scan_len(w);
    assert(w.take(w.len() as int) =~= w);
    assert(w.skip(w.len() as int) =~= Seq::<char>::empty());
    assert(lex_spec(w.skip(w.len() as int)) =~= Seq::<Result<TokenView, LexError>>::empty());
}

/// Digits run into a letter or `_` make one error, an invalid identifier, that takes the
/// whole word of letters, digits and `_`.
pub proof fn lemma_lex_digit_word(w: Seq<char>, k: int)
    requires
        0 < k < w.len(),
        forall|i: int| 0 <= i < k ==> '0' <= #[trigger] w[i] <= '9',
        ('a' <= w[k] <= 'z') || ('A' <= w[k] <= 'Z') || w[k] == '_',
        forall|i: int|
            k <= i < w.len() ==> ('a' <= #[trigger] w[i] <= 'z') || ('A' <= w[i] <= 'Z') || w[i]
                == '_' || ('0' <= w[i] <= '9'),
    ensures
        lex_spec(w) == seq![Err::<TokenView, LexError>(LexError::InvalidIdentifier)],
{
    assert forall|j: int| 0 <= j < k implies #[trigger] in_class(CharClass::Digit, w[j]) by {}
    lemma_run_len_exact(w, CharClass::Digit, k as nat);
    let tail = w.skip(k);
    assert forall|j: int| 0 <= j < tail.len() implies #[trigger] in_class(CharClass::Word, tail[j]) by {
        assert(tail[j] == w[k + j]);
    }
    lemma_run_len_exact(tail, CharClass::Word, tail.len());
    lemma_scan_len(w);
    assert(w.skip(w.len() as int) =~= Seq::<char>::empty());
    assert(lex_spec(w.skip(w.len() as int)) =~= Seq::<Result<TokenView, LexError>>::empty());
}

/// What one character lexes to: whitespace to nothing, each punctuation and operator
/// character to its token, a letter or `_` to a one-letter identifier, a digit to a
/// one-digit constant, and anything else to an unknown-token error.
pub proof fn lemma_lex_char(c: char)
    ensures
        lex_spec(seq![c]) == if c == ' ' || c == '\t' || c == '\n' || c == '\x0C' || c == '\r' {
            Seq::<Result<TokenView, LexError>>::empty()
        } else if c == '(' {
            seq![Ok(TokenView::OpenParen)]
        } else if c == ')' {
            seq![Ok(TokenView::CloseParen)]
        } else if c == '{' {
            seq![Ok(TokenView::OpenBrace)]
        } else if c == '}' {
            seq![Ok(TokenView::CloseBrace)]
        } else if c == ';' {
            seq![Ok(TokenView::Semicolon)]
        } else if c == '~' {
            seq![Ok(TokenView::BitwiseComplement)]
        } else if c == '-' {
            seq![Ok(TokenView::Negation)]
        } else if c == '+' {
            seq![Ok(TokenView::Plus)]
        } else if c == '*' {
            seq![Ok(TokenView::Asterisk)]
        } else if c == '/' {
            seq![Ok(TokenView::ForwardSlash)]
        } else if c == '%' {
            seq![Ok(TokenView::Percent)]
        } else if ('a' <= c <= 'z') || ('A' <= c <= 'Z') || c == '_' {
            seq![Ok(TokenView::Identifier(seq![c]))]
        } else if '0' <= c <= '9' {
            seq![Ok(TokenView::Constant(seq![c]))]
        } else {
            seq![Err(LexError::UnknownToken)]
        },
{
    let w = seq![c];
    if ('a' <= c <= 'z') || ('A' <= c <= 'Z') || c == '_' {
        lemma_lex_word(w);
        reveal_strlit("int");
        reveal_strlit("void");
        reveal_strlit("return");
        assert(w != "int"@ && w != "void"@ && w != "return"@);
    } else if '0' <= c <= '9' {
        lemma_lex_number(w);
    } else {
        lemma_scan_len(w);
        assert(w.skip(1) =~= Seq::<char>::empty());
        assert(lex_spec(w.skip(1)) =~= Seq::<Result<TokenView, LexError>>::empty());
    }
}

/// A block comment body without `*` closes at the first `*/`.
proof fn lemma_block_body(w: Seq<char>, rest: Seq<char>)
    requires
        forall|i: int| 0 <= i < w.len() ==> #[trigger] w[i] != '*',
    ensures
        block_comment_len(w + seq!['*', '/'] + rest, false) == Some((w.len() + 2) as nat),
    decreases w.len(),
{
    let s = w + seq!['*', '/'] + rest;
    if w.len() == 0 {
        assert(s[0] == '*');
        assert(s.drop_first() =~= seq!['/'] + rest);
        assert(s.drop_first()[0] == '/');
        assert(block_comment_len(s.drop_first(), true) == Some(1nat));
    } else {
        assert(s[0] == w[0]);
        assert(s.drop_first() =~= w.drop_first() + seq!['*', '/'] + rest);
        assert forall|i: int| 0 <= i < w.drop_first().len() implies #[trigger] w.drop_first()[i]
            != '*' by {
            assert(w.drop_first()[i] == w[i + 1]);
        }
        lemma_block_body(w.drop_first(), rest);
        assert(block_comment_len(s.drop_first(), false) == Some((w.len() + 1) as nat));
    }
}

/// Whitespace and comments lex to nothing: a space, tab, newline, form feed or carriage
/// return before a text, a `//` comment through its newline, and a `/* ... */` comment
/// whose body has no `*`, leave the lexemes of the text that follows them.
pub proof fn lemma_lex_skips(w: Seq<char>, c: char, rest: Seq<char>)
    ensures
        c == ' ' || c == '\t' || c == '\n' || c == '\x0C' || c == '\r' ==> lex_spec(
            seq![c] + rest,
        ) == lex_spec(rest),
        (forall|i: int| 0 <= i < w.len() ==> #[trigger] w[i] != '\n') ==> lex_spec(
            seq!['/', '/'] + w + seq!['\n'] + rest,
        ) == lex_spec(rest),
        (forall|i: int| 0 <= i < w.len() ==> #[trigger] w[i] != '*') ==> lex_spec(
            seq!['/', '*'] + w + seq!['*', '/'] + rest,
        ) == lex_spec(rest),
{
    let sp = seq![c] + rest;
    lemma_scan_len(sp);
    assert(sp[0] == c);
    assert(sp.skip(1) =~= rest);
    let nl = seq!['\n'] + rest;
    lemma_scan_len(nl);
    assert(nl[0] == '\n');
    assert(nl.skip(1) =~= rest);
    if forall|i: int| 0 <= i < w.len() ==> #[trigger] w[i] != '\n' {
        let s = seq!['/', '/'] + w + seq!['\n'] + rest;
        assert(s[0] == '/' && s[1] == '/');
        assert(s.skip(2) =~= joined(w, rest));
        lemma_run_stops(w, rest, CharClass::NotNewline);
        assert forall|k: int| 0 <= k < w.len() implies #[trigger] in_class(CharClass::NotNewline, w[k]) by {}
        lemma_run_len_exact(w, CharClass::NotNewline, w.len());
        lemma_scan_len(s);
        assert(scan(s) == (Lexeme::Skip, (2 + w.len()) as nat));
        assert(s.skip(2 + w.len() as int) =~= nl);
        assert(scan(nl) == (Lexeme::Skip, 1nat));
        assert(lex_spec(nl) == lex_spec(rest));
        assert(lex_spec(s) == lex_spec(nl));
    }
    if forall|i: int| 0 <= i < w.len() ==> #[trigger] w[i] != '*' {
        let s = seq!['/', '*'] + w + seq!['*', '/'] + rest;
        assert(s[0] == '/' && s[1] == '*');
        assert(s.skip(2) =~= w + seq!['*', '/'] + rest);
        lemma_block_body(w, rest);
        lemma_scan_len(s);
        assert(s.skip(2 + w.len() as int + 2) =~= rest);
    }
}

} // verus!
