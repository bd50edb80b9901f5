//! What each stage keeps of its input, and what the compiled assembly text holds for
//! each target.
use crate::codegen::codegen_spec;
use crate::emit::{Target, lines_text};
use crate::parser;
use crate::tacky::{self, tacky_spec};
use crate::{Stage, StageOutput, compiled, parsed};
use vstd::prelude::*;

verus! {

/// Lowering and code generation keep the function's name: the lowered program is named
/// as the parsed one, whatever the counter, and the generated program as the lowered one.
pub proof fn lemma_names_kept(p: parser::ProgramView, c: usize, t: tacky::ProgramView)
    ensures
        tacky_spec(p, c).name == p.name,
        codegen_spec(t).name == t.name,
{
}

/// Compiling keeps the function's name at every stage: the lowered and the generated
/// program bear the name that the source text gives the function.
pub proof fn lemma_compiled_names<'a>(
    s: Seq<char>,
    stage: Stage,
    target: Target,
    c: usize,
    out: StageOutput<'a>,
)
    requires
        compiled(s, stage, target, c, out),
    ensures
        out matches StageOutput::Tacky(Ok(p)) ==> p@.name == parsed(s).name,
        out matches StageOutput::Codegen(Ok(p)) ==> p@.name == parsed(s).name,
{
}

/// The assembly that compiling gives is written for the requested target: the function's
/// global symbol and label are the name that the source gives it, with `_` before it on
/// macOS; then the prologue, the lines of the generated instructions, an empty line, and
/// on Linux the note that the stack need not be executable (nothing on macOS).
pub proof fn lemma_compiled_text<'a>(s: Seq<char>, target: Target, c: usize, out: StageOutput<'a>)
    requires
        compiled(s, Stage::Emit, target, c, out),
    ensures
        out matches StageOutput::Emit(Ok(text)) && {
            let name = parsed(s).name;
            let symbol = if target is MacOs {
                "_"@ + name
            } else {
                name
            };
            let code = codegen_spec(tacky_spec(parsed(s), c)).instructions;
            text@ == "    .globl "@ + symbol + "\n"@ + symbol + ":\n"@
                + "    pushq   %rbp\n    movq    %rsp, %rbp\n"@ + lines_text(code) + "\n"@ + if target
                is Linux {
                ".section .note.GNU-stack,\"\",@progbits"@
            } else {
                ""@
            }
        },
{
}

} // verus!
