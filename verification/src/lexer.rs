//! The lexer: from source text to tokens.
//!
//! Lexing is maximal munch over these lexemes, tried at each position:
//! whitespace (` `, tab, newline, form feed, carriage return) and comments (`//` to the
//! end of the line, `/* ... */`) are skipped; `int`, `void` and `return` are keywords;
//! `[a-zA-Z_][a-zA-Z0-9_]*` is an identifier; `[0-9]+` is a constant, unless letters or
//! `_` follow the digits, which makes the whole run an invalid identifier; the
//! punctuation and operator characters `( ) { } ; ~ - + * / %` are tokens of their own.
//! Any other character is an unknown token, and lexing goes on after it.
use crate::util::is_digit;
use vstd::prelude::*;
use vstd::std_specs::iter::IteratorSpec;

verus! {

broadcast use vstd::string::group_string_axioms;

/// What can go wrong while lexing.
#[derive(Default, Clone, PartialEq, Debug)]
pub enum LexError {
    /// A character that starts no token.
    #[default]
    UnknownToken,
    /// Digits directly followed by letters or `_`.
    InvalidIdentifier,
}

/// A token; identifiers and constants borrow their text from the source.
#[derive(Debug, PartialEq, Clone, Copy)]
pub enum Token<'a> {
    Int,
    Void,
    Return,
    OpenParen,
    CloseParen,
    OpenBrace,
    CloseBrace,
    Semicolon,
    BitwiseComplement,
    Negation,
    Plus,
    Asterisk,
    ForwardSlash,
    Percent,
    Identifier(&'a str),
    Constant(&'a str),
    InvalidIdentifier,
}

/// A token as a mathematical value: the text of identifiers and constants as a
/// sequence of characters.
pub enum TokenView {
    Int,
    Void,
    Return,
    OpenParen,
    CloseParen,
    OpenBrace,
    CloseBrace,
    Semicolon,
    BitwiseComplement,
    Negation,
    Plus,
    Asterisk,
    ForwardSlash,
    Percent,
    Identifier(Seq<char>),
    Constant(Seq<char>),
    InvalidIdentifier,
}

impl<'a> View for Token<'a> {
    type V = TokenView;

    open spec fn view(&self) -> TokenView {
        match *self {
            Token::Int => TokenView::Int,
            Token::Void => TokenView::Void,
            Token::Return => TokenView::Return,
            Token::OpenParen => TokenView::OpenParen,
            Token::CloseParen => TokenView::CloseParen,
            Token::OpenBrace => TokenView::OpenBrace,
            Token::CloseBrace => TokenView::CloseBrace,
            Token::Semicolon => TokenView::Semicolon,
            Token::BitwiseComplement => TokenView::BitwiseComplement,
            Token::Negation => TokenView::Negation,
            Token::Plus => TokenView::Plus,
            Token::Asterisk => TokenView::Asterisk,
            Token::ForwardSlash => TokenView::ForwardSlash,
            Token::Percent => TokenView::Percent,
            Token::Identifier(s) => TokenView::Identifier(s@),
            Token::Constant(s) => TokenView::Constant(s@),
            Token::InvalidIdentifier => TokenView::InvalidIdentifier,
        }
    }
}

/// A lexing result as a mathematical value.
pub open spec fn result_view(r: Result<Token, LexError>) -> Result<TokenView, LexError> {
    match r {
        Ok(t) => Ok(t@),
        Err(e) => Err(e),
    }
}

/// Tokens that can stand between two operands.
pub open spec fn is_binary_operator_spec(t: TokenView) -> bool {
    match t {
        TokenView::Negation | TokenView::Plus | TokenView::Asterisk | TokenView::ForwardSlash
        | TokenView::Percent => true,
        _ => false,
    }
}

/// How tightly a binary operator binds: `*`, `/` and `%` bind tighter than `+` and `-`.
pub open spec fn precedence_spec(t: TokenView) -> nat {
    match t {
        TokenView::Asterisk | TokenView::ForwardSlash | TokenView::Percent => 50,
        TokenView::Negation | TokenView::Plus => 45,
        _ => 0,
    }
}

impl<'a> Token<'a> {
    /// Whether the token is one of the binary operators `+ - * / %`.
    pub fn is_binary_operator(&self) -> (b: bool)
        ensures
            b == is_binary_operator_spec(self@),
    {
        match self {
            Token::Negation | Token::Plus | Token::Asterisk | Token::ForwardSlash
            | Token::Percent => true,
            _ => false,
        }
    }

    /// The precedence of a binary operator (`0` for other tokens).
    pub fn precedence(&self) -> (p: usize)
        ensures
            p == precedence_spec(self@),
    {
        match self {
            Token::Asterisk | Token::ForwardSlash | Token::Percent => 50,
            Token::Negation | Token::Plus => 45,
            _ => 0,
        }
    }
}

/// Whitespace skipped between tokens.
pub open spec fn is_space(c: char) -> bool {
    c == ' ' || c == '\t' || c == '\n' || c == '\x0C' || c == '\r'
}

/// Characters that may start an identifier.
pub open spec fn is_ident_start(c: char) -> bool {
    ('a' <= c && c <= 'z') || ('A' <= c && c <= 'Z') || c == '_'
}

/// Characters that may continue an identifier.
pub open spec fn is_ident_char(c: char) -> bool {
    is_ident_start(c) || is_digit(c)
}

/// The classes of characters that the lexer reads in runs.
pub enum CharClass {
    /// Letters, digits and `_`.
    Word,
    /// The digits `0`..`9`.
    Digit,
    /// Anything but a newline (the body of a line comment).
    NotNewline,
}

/// Membership in a character class.
pub open spec fn in_class(class: CharClass, c: char) -> bool {
    match class {
        CharClass::Word => is_ident_char(c),
        CharClass::Digit => is_digit(c),
        CharClass::NotNewline => c != '\n',
    }
}

/// The length of the longest prefix of `s` whose characters are all in `class`.
pub open spec fn run_len(s: Seq<char>, class: CharClass) -> nat
    decreases s.len(),
{
    if s.len() > 0 && in_class(class, s[0]) {
        1 + run_len(s.drop_first(), class)
    } else {
        0
    }
}

/// How many characters a block comment takes after its opening `/*`, through its
/// closing `*/`; `None` when it is never closed. The closing `*` must not be the second
/// character of a `*`-pair that the body already used: the body is a sequence of
/// characters other than `*` and of `*` followed by a character other than `/`.
/// `star` says that the body has just read a lone `*`.
pub open spec fn block_comment_len(s: Seq<char>, star: bool) -> Option<nat>
    decreases s.len(),
{
    if s.len() == 0 {
        None
    } else if star && s[0] == '/' {
        Some(1)
    } else {
        match block_comment_len(s.drop_first(), !star && s[0] == '*') {
            Some(n) => Some(n + 1),
            None => None,
        }
    }
}

/// The token of a word: a keyword, or else an identifier.
pub open spec fn word_token(w: Seq<char>) -> TokenView {
    if w == "int"@ {
        TokenView::Int
    } else if w == "void"@ {
        TokenView::Void
    } else if w == "return"@ {
        TokenView::Return
    } else {
        TokenView::Identifier(w)
    }
}

/// The token of a one-character punctuation or operator lexeme.
pub open spec fn punct_token(c: char) -> Option<TokenView> {
    if c == '(' {
        Some(TokenView::OpenParen)
    } else if c == ')' {
        Some(TokenView::CloseParen)
    } else if c == '{' {
        Some(TokenView::OpenBrace)
    } else if c == '}' {
        Some(TokenView::CloseBrace)
    } else if c == ';' {
        Some(TokenView::Semicolon)
    } else if c == '~' {
        Some(TokenView::BitwiseComplement)
    } else if c == '-' {
        Some(TokenView::Negation)
    } else if c == '+' {
        Some(TokenView::Plus)
    } else if c == '*' {
        Some(TokenView::Asterisk)
    } else if c == '/' {
        Some(TokenView::ForwardSlash)
    } else if c == '%' {
        Some(TokenView::Percent)
    } else {
        None
    }
}

/// What the longest lexeme at the start of the text is.
pub enum Lexeme {
    /// Whitespace or a comment.
    Skip,
    Token(TokenView),
    Error(LexError),
}

/// The longest lexeme at the start of a nonempty text, and its length.
pub open spec fn scan(s: Seq<char>) -> (Lexeme, nat)
    recommends
        s.len() > 0,
{
    let c = s[0];
    if is_space(c) {
        (Lexeme::Skip, 1)
    } else if c == '/' && s.len() > 1 && s[1] == '/' {
        (Lexeme::Skip, 2 + run_len(s.skip(2), CharClass::NotNewline))
    } else if c == '/' && s.len() > 1 && s[1] == '*' && block_comment_len(s.skip(2), false) is Some {
        (Lexeme::Skip, 2 + block_comment_len(s.skip(2), false)->0)
    } else if is_ident_start(c) {
        let n = run_len(s, CharClass::Word);
        (Lexeme::Token(word_token(s.take(n as int))), n)
    } else if is_digit(c) {
        let n = run_len(s, CharClass::Digit);
        if n < s.len() && is_ident_start(s[n as int]) {
            (Lexeme::Error(LexError::InvalidIdentifier), n + run_len(s.skip(n as int), CharClass::Word))
        } else {
            (Lexeme::Token(TokenView::Constant(s.take(n as int))), n)
        }
    } else {
        match punct_token(c) {
            Some(t) => (Lexeme::Token(t), 1),
            None => (Lexeme::Error(LexError::UnknownToken), 1),
        }
    }
}

/// The tokens, and the errors in their places, of a text.
pub open spec fn lex_spec(s: Seq<char>) -> Seq<Result<TokenView, LexError>>
    decreases s.len(),
{
    if s.len() == 0 {
        seq![]
    } else {
        let (lexeme, n) = scan(s);
        proof {
            lemma_scan_len(s);
        }
        let rest = lex_spec(s.skip(n as int));
        match lexeme {
            Lexeme::Skip => rest,
            Lexeme::Token(t) => seq![Ok(t)] + rest,
            Lexeme::Error(e) => seq![Err(e)] + rest,
        }
    }
}

/// A run is no longer than the text.
pub proof fn lemma_run_len_bound(s: Seq<char>, class: CharClass)
    ensures
        run_len(s, class) <= s.len(),
    decreases s.len(),
{
    if s.len() > 0 && in_class(class, s[0]) {
        lemma_run_len_bound(s.drop_first(), class);
    }
}

/// A closed block comment is no longer than the text.
pub proof fn lemma_block_comment_len_bound(s: Seq<char>, star: bool)
    ensures
        block_comment_len(s, star) matches Some(n) ==> 1 <= n <= s.len(),
    decreases s.len(),
{
    if s.len() > 0 && !(star && s[0] == '/') {
        lemma_block_comment_len_bound(s.drop_first(), !star && s[0] == '*');
    }
}

/// Every lexeme takes at least one character and no more than there are.
pub proof fn lemma_scan_len(s: Seq<char>)
    requires
        s.len() > 0,
    ensures
        1 <= scan(s).1 <= s.len(),
{
    lemma_run_len_bound(s.skip(2), CharClass::NotNewline);
    lemma_block_comment_len_bound(s.skip(2), false);
    lemma_run_len_bound(s, CharClass::Word);
    lemma_run_len_bound(s, CharClass::Digit);
    let n = run_len(s, CharClass::Digit);
    if is_digit(s[0]) && n < s.len() {
        lemma_run_len_bound(s.skip(n as int), CharClass::Word);
    }
    if is_ident_start(s[0]) {
        assert(in_class(CharClass::Word, s[0]));
    }
    if is_digit(s[0]) {
        assert(in_class(CharClass::Digit, s[0]));
    }
}

/// A run ends at the first character outside its class.
pub proof fn lemma_run_len_exact(s: Seq<char>, class: CharClass, n: nat)
    requires
        n <= s.len(),
        forall|k: int| 0 <= k < n ==> #[trigger] in_class(class, s[k]),
        n == s.len() || !in_class(class, s[n as int]),
    ensures
        run_len(s, class) == n,
    decreases n,
{
    if n > 0 {
        assert forall|k: int| 0 <= k < n - 1 implies #[trigger] in_class(
            class,
            s.drop_first()[k],
        ) by {
            assert(in_class(class, s[k + 1]));
        }
        lemma_run_len_exact(s.drop_first(), class, (n - 1) as nat);
    }
}

/// Whether `c` is in `class`.
fn char_in_class(class: &CharClass, c: char) -> (b: bool)
    ensures
        b == in_class(*class, c),
{
    match class {
        CharClass::Word => ('a' <= c && c <= 'z') || ('A' <= c && c <= 'Z') || c == '_' || ('0'
            <= c && c <= '9'),
        CharClass::Digit => '0' <= c && c <= '9',
        CharClass::NotNewline => c != '\n',
    }
}

/// The end of the run of `class` characters that starts at `start`.
fn run_end(cs: &Vec<char>, start: usize, class: CharClass) -> (end: usize)
    requires
        start <= cs@.len(),
    ensures
        end == start + run_len(cs@.skip(start as int), class),
        end <= cs@.len(),
{
    let mut j = start;
    while j < cs.len() && char_in_class(&class, cs[j])
        invariant
            start <= j <= cs@.len(),
            forall|k: int| start <= k < j ==> #[trigger] in_class(class, cs@[k]),
        decreases cs@.len() - j,
    {
        j = j + 1;
    }
    proof {
        let s = cs@.skip(start as int);
        assert forall|k: int| 0 <= k < j - start implies #[trigger] in_class(class, s[k]) by {
            assert(in_class(class, cs@[start + k]));
        }
        lemma_run_len_exact(s, class, (j - start) as nat);
    }
    j
}

/// Where the block comment whose body starts at `start` ends (just past its `*/`), if
/// it is closed.
fn block_comment_end(cs: &Vec<char>, start: usize) -> (end: Option<usize>)
    requires
        start <= cs@.len(),
    ensures
        end == (match block_comment_len(cs@.skip(start as int), false) {
            Some(n) => Some((start + n) as usize),
            None => None,
        }),
{
    let mut j = start;
    let mut star = false;
    proof {
        lemma_block_comment_len_bound(cs@.skip(start as int), false);
    }
    while j < cs.len()
        invariant
            start <= j <= cs@.len(),
            block_comment_len(cs@.skip(start as int), false) == (match block_comment_len(
                cs@.skip(j as int),
                star,
            ) {
                Some(n) => Some((n + (j - start)) as nat),
                None => None,
            }),
        decreases cs@.len() - j,
    {
        let c = cs[j];
        assert(cs@.skip(j as int)[0] == c);
        assert(cs@.skip(j as int).drop_first() =~= cs@.skip(j + 1));
        if star && c == '/' {
            proof {
                lemma_block_comment_len_bound(cs@.skip(start as int), false);
            }
            return Some(j + 1);
        }
        star = !star && c == '*';
        j = j + 1;
    }
    assert(cs@.skip(j as int).len() == 0);
    None
}

/// Whether the characters `cs[start..end]` spell `word`.
fn spells(cs: &Vec<char>, start: usize, end: usize, word: &str) -> (b: bool)
    requires
        start <= end <= cs@.len(),
    ensures
        b == (cs@.subrange(start as int, end as int) == word@),
{
    let n = word.unicode_len();
    if end - start != n {
        return false;
    }
    let mut k: usize = 0;
    while k < n
        invariant
            n == word@.len(),
            end - start == n,
            start <= end <= cs@.len(),
            k <= n,
            forall|m: int| 0 <= m < k ==> cs@[start + m] == word@[m],
        decreases n - k,
    {
        if cs[start + k] != word.get_char(k) {
            assert(cs@.subrange(start as int, end as int)[k as int] != word@[k as int]);
            return false;
        }
        k = k + 1;
    }
    assert(cs@.subrange(start as int, end as int) =~= word@);
    true
}

/// The one-character token of `c`, if there is one.
fn punct(c: char) -> (t: Option<Token<'static>>)
    ensures
        match t {
            Some(t) => punct_token(c) == Some(t@),
            None => punct_token(c) is None,
        },
{
    if c == '(' {
        Some(Token::OpenParen)
    } else if c == ')' {
        Some(Token::CloseParen)
    } else if c == '{' {
        Some(Token::OpenBrace)
    } else if c == '}' {
        Some(Token::CloseBrace)
    } else if c == ';' {
        Some(Token::Semicolon)
    } else if c == '~' {
        Some(Token::BitwiseComplement)
    } else if c == '-' {
        Some(Token::Negation)
    } else if c == '+' {
        Some(Token::Plus)
    } else if c == '*' {
        Some(Token::Asterisk)
    } else if c == '/' {
        Some(Token::ForwardSlash)
    } else if c == '%' {
        Some(Token::Percent)
    } else {
        None
    }
}

/// The characters of a string, in order.
fn chars_of(source: &str) -> (cs: Vec<char>)
    ensures
        cs@ == source@,
{
    let mut cs: Vec<char> = Vec::new();
    let mut it = source.chars();
    loop
        invariant
            it.obeys_prophetic_iter_laws(),
            cs@ + it.remaining() == source@,
            it.decrease() is Some,
        decreases it.decrease()->0,
    {
        match it.next() {
            Some(c) => {
                cs.push(c);
            }
            None => {
                return cs;
            }
        }
    }
}

/// Splits `source` into tokens. A character that starts no token gives
/// `Err(LexError::UnknownToken)`, digits run into letters give one
/// `Err(LexError::InvalidIdentifier)`, and lexing goes on after each error.
pub fn lex<'a>(source: &'a str) -> (tokens: Vec<Result<Token<'a>, LexError>>)
    ensures
        tokens@.map_values(|r: Result<Token<'a>, LexError>| result_view(r)) == lex_spec(source@),
{
    let cs = chars_of(source);
    let n = cs.len();
    let mut out: Vec<Result<Token<'a>, LexError>> = Vec::new();
    let mut i: usize = 0;
    assert(cs@.skip(0) =~= cs@);
    while i < n
        invariant
            n == cs@.len(),
            cs@ == source@,
            i <= n,
            lex_spec(cs@) == out@.map_values(|r: Result<Token<'a>, LexError>| result_view(r))
                + lex_spec(cs@.skip(i as int)),
        decreases n - i,
    {
        let ghost s = cs@.skip(i as int);
        let ghost old_out = out@;
        assert(s[0] == cs@[i as int]);
        assert(s.len() > 1 ==> s[1] == cs@[i + 1]);
        proof {
            if i + 2 <= n {
                assert(s.skip(2) =~= cs@.skip(i + 2));
            }
        }
        let c = cs[i];
        let mut next: usize = i + 1;
        let mut produced: Option<Result<Token<'a>, LexError>> = None;
        if c == ' ' || c == '\t' || c == '\n' || c == '\x0C' || c == '\r' {
        } else if c == '/' && i + 1 < n && cs[i + 1] == '/' {
            next = run_end(&cs, i + 2, CharClass::NotNewline);
            assert(s.skip(2) =~= cs@.skip(i + 2));
        } else if c == '/' && i + 1 < n && cs[i + 1] == '*' && block_comment_end(&cs, i + 2).is_some() {
            assert(s.skip(2) =~= cs@.skip(i + 2));
            next = block_comment_end(&cs, i + 2).unwrap();
        } else if ('a' <= c && c <= 'z') || ('A' <= c && c <= 'Z') || c == '_' {
            next = run_end(&cs, i, CharClass::Word);
            assert(s.take((next - i) as int) =~= cs@.subrange(i as int, next as int));
            proof {
                reveal_strlit("int");
                reveal_strlit("void");
                reveal_strlit("return");
            }
            let t = if spells(&cs, i, next, "int") {
                Token::Int
            } else if spells(&cs, i, next, "void") {
                Token::Void
            } else if spells(&cs, i, next, "return") {
                Token::Return
            } else {
                Token::Identifier(source.substring_char(i, next))
            };
            produced = Some(Ok(t));
        } else if '0' <= c && c <= '9' {
            let d = run_end(&cs, i, CharClass::Digit);
            assert(s.take((d - i) as int) =~= cs@.subrange(i as int, d as int));
            if d < n && (('a' <= cs[d] && cs[d] <= 'z') || ('A' <= cs[d] && cs[d] <= 'Z') || cs[d]
                == '_') {
                assert(s[d - i] == cs@[d as int]);
                next = run_end(&cs, d, CharClass::Word);
                assert(s.skip(d - i) =~= cs@.skip(d as int));
                produced = Some(Err(LexError::InvalidIdentifier));
            } else {
                proof {
                    if d < n {
                        assert(s[d - i] == cs@[d as int]);
                    }
                }
                next = d;
                produced = Some(Ok(Token::Constant(source.substring_char(i, d))));
            }
        } else {
            match punct(c) {
                Some(t) => {
                    produced = Some(Ok(t));
                },
                None => {
                    produced = Some(Err(LexError::UnknownToken));
                },
            }
        }
        proof {
            lemma_scan_len(s);
            assert(scan(s).1 == next - i);
            assert(s.skip((next - i) as int) =~= cs@.skip(next as int));
        }
        match produced {
            Some(r) => {
                out.push(r);
            },
            None => {},
        }
        assert(out@.map_values(|r: Result<Token<'a>, LexError>| result_view(r)) =~= old_out.map_values(
            |r: Result<Token<'a>, LexError>| result_view(r),
        ) + (match scan(s).0 {
            Lexeme::Skip => seq![],
            Lexeme::Token(t) => seq![Ok(t)],
            Lexeme::Error(e) => seq![Err(e)],
        }));
        i = next;
    }
    assert(cs@.skip(n as int).len() == 0);
    assert(out@.map_values(|r: Result<Token<'a>, LexError>| result_view(r)) + seq![] =~= out@.map_values(
        |r: Result<Token<'a>, LexError>| result_view(r),
    ));
    out
}

} // verus!
