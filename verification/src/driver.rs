//! The compiler driver's decisions: which stage a command line asks for.
use crate::Stage;
use vstd::prelude::*;

verus! {

/// The command line: the input C file and the flags that stop compilation early.
pub struct Args {
    /// Input C file.
    pub file_path: String,
    /// Runs the lexer only.
    pub lex: bool,
    /// Runs the parser only.
    pub parse: bool,
    /// Runs code generation only.
    pub codegen: bool,
    /// Runs lowering to three-address instructions only.
    pub tacky: bool,
}

/// The stage a command line asks for: the first of `--lex`, `--parse`, `--codegen`,
/// `--tacky` that is given, else emission.
pub open spec fn stage_spec(args: Args) -> Stage {
    if args.lex {
        Stage::Lex
    } else if args.parse {
        Stage::Parse
    } else if args.codegen {
        Stage::Codegen
    } else if args.tacky {
        Stage::Tacky
    } else {
        Stage::Emit
    }
}

/// The stage a command line asks for.
pub fn stage(args: &Args) -> (s: Stage)
    ensures
        s == stage_spec(*args),
{
    if args.lex {
        return Stage::Lex;
    }
    if args.parse {
        return Stage::Parse;
    }
    if args.codegen {
        return Stage::Codegen;
    }
    if args.tacky {
        return Stage::Tacky;
    }
    Stage::Emit
}

/// A flag stops compilation at its stage when no flag before it in the order `--lex`,
/// `--parse`, `--codegen`, `--tacky` is given; with no flag, compilation runs through
/// emission.
pub proof fn lemma_stage_flags(args: Args)
    ensures
        (stage_spec(args) is Lex) <==> args.lex,
        (stage_spec(args) is Parse) <==> !args.lex && args.parse,
        (stage_spec(args) is Codegen) <==> !args.lex && !args.parse && args.codegen,
        (stage_spec(args) is Tacky) <==> !args.lex && !args.parse && !args.codegen && args.tacky,
        (stage_spec(args) is Emit) <==> !args.lex && !args.parse && !args.codegen && !args.tacky,
{
}

} // verus!
