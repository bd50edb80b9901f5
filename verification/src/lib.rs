//! A small C compiler, verified: lexing, parsing, lowering to three-address
//! instructions ("tacky"), x86-64 code generation and assembly text emission, for
//! programs of one function `int name(void) { return expr; }` over integer
//! constants, `~`, unary `-`, and the binary operators `+ - * / %`.

pub mod codegen;
pub mod codegen_laws;
pub mod driver;
pub mod emit;
pub mod emit_laws;
pub mod laws;
pub mod lex_laws;
pub mod lexer;
pub mod machine;
pub mod parser;
pub mod stage_laws;
pub mod tacky;
pub mod token;
pub mod util;

use crate::codegen::{CodegenError, codegen_spec, frame_fits, lemma_codegen_no_pseudo, try_codegen};
use crate::emit::{Target, emit, program_text};
use crate::lexer::{LexError, Token, TokenView, lex, lex_spec, result_view};
use crate::parser::{
    ParseError, ParseErrorView, Program, ProgramView, parse_defined, parse_result, tokens_view,
    try_parse,
};
use crate::tacky::{TackyError, body_counter, tacky, tacky_spec};
use vstd::prelude::*;

verus! {

/// The stages of compilation, in order; compiling stops after the chosen one.
#[derive(Debug, PartialEq, PartialOrd, Clone, Copy)]
pub enum Stage {
    Lex,
    Parse,
    Tacky,
    Codegen,
    Emit,
}

/// What each stage produces.
pub enum StageOutput<'src> {
    Lex(Vec<Result<Token<'src>, LexError>>),
    Parse(Result<Program, ParseError>),
    Tacky(Result<tacky::Program, TackyError>),
    Codegen(Result<codegen::Program, CodegenError>),
    Emit(Result<String, emit::EmitError>),
}


/// Lexing `s` gives no error.
pub open spec fn lex_ok(s: Seq<char>) -> bool {
    forall|i: int| 0 <= i < lex_spec(s).len() ==> #[trigger] lex_spec(s)[i] is Ok
}

/// The tokens of `s`, when lexing it gives no error.
pub open spec fn lexed_tokens(s: Seq<char>) -> Seq<TokenView> {
    lex_spec(s).map_values(|r: Result<TokenView, LexError>| r->Ok_0)
}

/// The parsed program of `s`, when lexing and parsing succeed.
pub open spec fn parsed(s: Seq<char>) -> ProgramView {
    parse_result(lexed_tokens(s))->Ok_0
}

/// Whether compiling `s` up to `stage`, temporaries numbered from `c` on, comes to an
/// answer: the stages before the chosen one must succeed (lexing without an error,
/// parsing to a program), parsing must not stop at a constant beyond `isize`, and code
/// generation needs its stack frame to fit.
pub open spec fn compile_defined(s: Seq<char>, stage: Stage, c: usize) -> bool {
    stage is Lex || {
        &&& lex_ok(s)
        &&& parse_defined(lexed_tokens(s))
        &&& (stage is Parse || {
            &&& parse_result(lexed_tokens(s)) is Ok
            &&& (stage is Tacky || frame_fits(tacky_spec(parsed(s), c).instructions))
        })
    }
}

/// The tokens of lexing results that are all `Ok`.
fn expect_tokens<'a>(results: Vec<Result<Token<'a>, LexError>>) -> (tokens: Vec<Token<'a>>)
    requires
        forall|i: int| 0 <= i < results@.len() ==> #[trigger] results@[i] is Ok,
    ensures
        tokens_view(tokens@) == results@.map_values(|r: Result<Token<'a>, LexError>| result_view(
            r,
        )).map_values(|r: Result<TokenView, LexError>| r->Ok_0),
{
    let mut tokens: Vec<Token<'a>> = Vec::new();
    let mut i: usize = 0;
    while i < results.len()
        invariant
            i <= results@.len(),
            forall|j: int| 0 <= j < results@.len() ==> #[trigger] results@[j] is Ok,
            tokens@.len() == i,
            forall|j: int| 0 <= j < i ==> Ok::<Token<'a>, LexError>(#[trigger] tokens@[j])
                == results@[j],
        decreases results@.len() - i,
    {
        match &results[i] {
            Ok(t) => {
                tokens.push(*t);
            },
            Err(_) => {},
        }
        i = i + 1;
    }
    assert(tokens_view(tokens@) =~= results@.map_values(
        |r: Result<Token<'a>, LexError>| result_view(r),
    ).map_values(|r: Result<TokenView, LexError>| r->Ok_0));
    tokens
}

/// The temporary counter after compiling `s` up to `stage` from counter `c`: lowering
/// moves it past the temporaries it takes.
pub open spec fn counter_after(s: Seq<char>, stage: Stage, c: usize) -> usize {
    if stage is Lex || stage is Parse {
        c
    } else {
        body_counter(parsed(s).body, c)
    }
}

/// What compiling `s` up to `stage` gives, temporaries numbered from `c` on and the
/// assembly written for `target`: the output of that stage.
pub open spec fn compiled<'a>(
    s: Seq<char>,
    stage: Stage,
    target: Target,
    c: usize,
    out: StageOutput<'a>,
) -> bool {
    match out {
        StageOutput::Lex(v) => stage is Lex && v@.map_values(
            |r: Result<Token<'a>, LexError>| result_view(r),
        ) == lex_spec(s),
        StageOutput::Parse(r) => stage is Parse && match r {
            Ok(p) => parse_result(lexed_tokens(s)) == Ok::<ProgramView, ParseErrorView>(p@),
            Err(e) => parse_result(lexed_tokens(s)) == Err::<ProgramView, ParseErrorView>(e@),
        },
        StageOutput::Tacky(r) => stage is Tacky && (r matches Ok(p) && p@ == tacky_spec(
            parsed(s),
            c,
        )),
        StageOutput::Codegen(r) => stage is Codegen && (r matches Ok(p) && p@ == codegen_spec(
            tacky_spec(parsed(s), c),
        )),
        StageOutput::Emit(r) => stage is Emit && (r matches Ok(text) && text@ == program_text(
            codegen_spec(tacky_spec(parsed(s), c)),
            target,
        )),
    }
}

/// Whether every lexing result is a token.
fn all_ok(results: &Vec<Result<Token, LexError>>) -> (b: bool)
    ensures
        b == (forall|i: int| 0 <= i < results@.len() ==> #[trigger] results@[i] is Ok),
{
    let mut i: usize = 0;
    while i < results.len()
        invariant
            i <= results@.len(),
            forall|j: int| 0 <= j < i ==> #[trigger] results@[j] is Ok,
        decreases results@.len() - i,
    {
        match &results[i] {
            Ok(_) => {},
            Err(_) => {
                return false;
            },
        }
        i = i + 1;
    }
    true
}

/// Compiles `source` up to `stage`, where that comes to an answer; `None` where it does
/// not (a lexing error, a constant beyond `isize`, a parse error before a later stage,
/// or a stack frame too large to address), and then the counter is left as it was. The
/// emitted assembly is written for `target`, and lowering takes its temporaries from
/// `counter`.
pub fn try_compile<'a>(source: &'a str, stage: Stage, target: Target, counter: &mut usize) -> (out:
    Option<StageOutput<'a>>)
    ensures
        out is None <==> !compile_defined(source@, stage, *old(counter)),
        out is None ==> *final(counter) == *old(counter),
        out matches Some(o) ==> compiled(source@, stage, target, *old(counter), o)
            && *final(counter) == counter_after(source@, stage, *old(counter)),
{
    match stage {
        Stage::Lex => Some(StageOutput::Lex(lex(source))),
        _ => {
            let results = lex(source);
            proof {
                assert forall|i: int| 0 <= i < results@.len() implies (#[trigger] results@[i] is Ok
                    <==> lex_spec(source@)[i] is Ok) by {
                    assert(lex_spec(source@)[i] == result_view(results@[i]));
                }
            }
            if !all_ok(&results) {
                proof {
                    let i = choose|i: int| 0 <= i < results@.len() && !(#[trigger] results@[i] is Ok);
                    assert(!(lex_spec(source@)[i] is Ok));
                }
                return None;
            }
            let tokens = expect_tokens(results);
            let parsed_program = match try_parse(tokens) {
                Some(r) => r,
                None => {
                    return None;
                },
            };
            match stage {
                Stage::Parse => Some(StageOutput::Parse(parsed_program)),
                _ => {
                    let ast = match parsed_program {
                        Ok(p) => p,
                        Err(_) => {
                            return None;
                        },
                    };
                    match stage {
                        Stage::Tacky => Some(StageOutput::Tacky(tacky(ast, counter))),
                        _ => {
                            let ghost c0 = *counter;
                            let mut next = *counter;
                            let lowered = match tacky(ast, &mut next) {
                                Ok(p) => p,
                                Err(_) => {
                                    proof {
                                        assert(false);
                                    }
                                    return None;
                                },
                            };
                            let generated = match try_codegen(lowered) {
                                Some(r) => r,
                                None => {
                                    return None;
                                },
                            };
                            *counter = next;
                            match stage {
                                Stage::Codegen => Some(StageOutput::Codegen(generated)),
                                _ => {
                                    let program = match generated {
                                        Ok(p) => p,
                                        Err(_) => {
                                            proof {
                                                assert(false);
                                            }
                                            return None;
                                        },
                                    };
                                    proof {
                                        lemma_codegen_no_pseudo(
                                            tacky_spec(parsed(source@), c0).instructions,
                                        );
                                    }
                                    Some(StageOutput::Emit(emit(program, target)))
                                },
                            }
                        },
                    }
                },
            }
        },
    }
}

/// Compiles `source` up to `stage`; the emitted assembly is written for `target`, and
/// lowering takes its temporaries from `counter`.
pub fn compile<'a>(source: &'a str, stage: Stage, target: Target, counter: &mut usize) -> (out:
    StageOutput<'a>)
    requires
        compile_defined(source@, stage, *old(counter)),
    ensures
        compiled(source@, stage, target, *old(counter), out),
        *final(counter) == counter_after(source@, stage, *old(counter)),
{
    match try_compile(source, stage, target, counter) {
        Some(out) => out,
        None => {
            proof {
                assert(false);
            }
            StageOutput::Lex(Vec::new())
        },
    }
}

} // verus!
