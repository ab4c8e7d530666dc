//! The compiler is correct: the instructions that it writes out, run on
//! the model of the processor, return the value that the program of the
//! source returns.
//!
//! The way from the source to the instructions has five legs, each with
//! a proof of its own: renaming the variables, lowering to three-address
//! code, building assembly over pseudo-registers, giving the
//! pseudo-registers their stack slots, and making every instruction
//! legal. What lies behind the instructions is outside this proof: that
//! the text is read back as these instructions, and that the processor
//! does what the model says.
use vstd::prelude::*;
use vstd::string::*;
use crate::assembly::{
    build_code, build_program, FunctionView as AssemblyFunctionView, InstructionView,
};
use crate::compiler::{compile_spec, lemma_back_end_accepts};
use crate::emit::{function_text, Target};
use crate::error::CompileErrorView;
use crate::legalize::{all_legal, fixed_function, lemma_fixed_is_legal};
use crate::lex::{tokenize, without_comments, TokenView};
use crate::machine::{proceed, Cpu, Running};
use crate::names::{
    body_names, lemma_body_is_fresh, lemma_fresh_destination, lemma_variables_are_no_temporaries,
};
use crate::parser::{parse_and_resolve_spec, parse_program_spec};
use crate::placement::{
    all_unplaced, has_no_slot, lemma_built_is_plain, lemma_placed_run,
    lemma_placed_without_scratch,
};
use crate::preservation::lemma_lowering_keeps_meaning;
use crate::renaming::lemma_renaming_keeps_meaning;
use crate::pseudo::{assign_code, frame_size, lemma_assign_code, place_code};
use crate::resolver::{item_declares, item_uses};
use crate::legality::{all_without_scratch, lemma_fixed_returns, uses_no_scratch};
use crate::semantics::{function_result, run, Machine};
use crate::simulation::{all_fresh, has_fresh_destination, lemma_run_simulated};
use crate::tac::{lower_body, lower_program, temp_name, InstructionView as TacInstructionView};

verus! {

/// The value that the program of some tokens returns; `None` where the
/// tokens are no program, or the meaning of the source gives it none.
pub open spec fn program_meaning(tokens: Seq<TokenView>) -> Option<i32> {
    match parse_program_spec(tokens) {
        Err(_) => None,
        Ok(program) => function_result(program.function),
    }
}

/// The three-address code of a program that parses and resolves returns,
/// run from its first instruction, the value that the function `main` of
/// the source returns, wherever the source gives it a value.
pub proof fn lemma_three_address_code_keeps_meaning(tokens: Seq<TokenView>) -> (steps: nat)
    requires
        parse_and_resolve_spec(tokens) is Ok,
        program_meaning(tokens) is Some,
    ensures
        ({
            let program = parse_and_resolve_spec(tokens)->Ok_0;
            run(lower_program(program).function.body, 0, Map::empty(), steps) == Machine::Returned(
                program_meaning(tokens)->Some_0,
            )
        }),
{
    let parsed = parse_program_spec(tokens)->Ok_0;
    lemma_renaming_keeps_meaning(parsed);
    lemma_lowering_keeps_meaning(parsed)
}

/// The state of the processor when a program starts: no place has a
/// value yet.
pub open spec fn at_start() -> Cpu {
    Cpu { cells: Map::empty(), compared: None }
}

/// The compiled assembly returns the value that the source returns.
///
/// For a program that parses and resolves, and to which the meaning of
/// the source gives a value, the instructions that the emitter writes
/// out are legal and, run on the model of the processor from the first
/// one on with no place given a value, return that value.
pub proof fn lemma_compiled_code_keeps_meaning(tokens: Seq<TokenView>) -> (steps: nat)
    requires
        parse_and_resolve_spec(tokens) is Ok,
        program_meaning(tokens) is Some,
        frame_size(
            build_program(
                lower_program(parse_and_resolve_spec(tokens)->Ok_0),
            )->Ok_0.function.instructions,
        ) <= i32::MAX,
    ensures
        ({
            let program = parse_and_resolve_spec(tokens)->Ok_0;
            let assembly = build_program(lower_program(program))->Ok_0;
            let code = fixed_function(assembly.function).instructions;
            all_legal(code) && proceed(code, 0, at_start(), steps) == Running::Returned(
                program_meaning(tokens)->Some_0,
            )
        }),
{
    let parsed = parse_program_spec(tokens)->Ok_0;
    let program = parse_and_resolve_spec(tokens)->Ok_0;
    let items = program.function.body;
    let tac = lower_program(program).function.body;
    let built = build_code(tac);
    let slots = assign_code(built);
    let placed = place_code(built, slots);
    let size = frame_size(built) as i32;
    let store = Map::<Seq<char>, i32>::empty();
    let cpu = at_start();
    let first = lemma_three_address_code_keeps_meaning(tokens);
    lemma_back_end_accepts(tokens);
    assert(all_fresh(tac)) by {
        let known = |x: Seq<char>| body_names(items, x);
        lemma_body_is_fresh(items);
        assert forall|x: Seq<char>, k: nat| #[trigger] known(x) implies x != #[trigger] temp_name(
            k,
        ) by {
            let i = choose|i: int|
                0 <= i < items.len() && (item_uses(#[trigger] items[i], x) || item_declares(
                    items[i],
                    x,
                ));
            lemma_variables_are_no_temporaries(parsed, i, x, k);
        }
        let body = lower_body(items);
        assert forall|i: int| 0 <= i < tac.len() implies has_fresh_destination(#[trigger] tac[i]) by {
            if i < body.len() {
                assert(tac[i] == body[i]);
                lemma_fresh_destination(body, known, i);
            }
        }
    }
    let second = lemma_run_simulated(tac, 0, store, first, cpu);
    assert(tac.subrange(0, 0) =~= Seq::<TacInstructionView>::empty());
    lemma_assign_code(built);
    assert(all_unplaced(built) && all_without_scratch(built)) by {
        assert forall|i: int| 0 <= i < built.len() implies has_no_slot(#[trigger] built[i])
            && uses_no_scratch(built[i]) by {
            lemma_built_is_plain(tac, i);
        }
    }
    lemma_placed_run(built, slots, 0, cpu, cpu, second);
    lemma_placed_without_scratch(built, slots);
    lemma_fixed_is_legal(placed, size);
    lemma_fixed_returns(placed, size, cpu, second)
}

/// The value that the program of a source text returns; `None` where
/// the text is no program, or the meaning of the source gives it none.
pub open spec fn meaning(source: Seq<char>) -> Option<i32> {
    match tokenize(source) {
        Err(_) => None,
        Ok(tokens) => program_meaning(without_comments(tokens)),
    }
}

/// The instructions that the assembly text of a source text is written
/// from; `None` where the text does not compile.
pub open spec fn compiled_instructions(source: Seq<char>) -> Option<Seq<InstructionView>> {
    match tokenize(source) {
        Err(_) => None,
        Ok(tokens) => match parse_and_resolve_spec(without_comments(tokens)) {
            Err(_) => None,
            Ok(program) => match build_program(lower_program(program)) {
                Err(_) => None,
                Ok(assembly) => {
                    if frame_size(assembly.function.instructions) > i32::MAX {
                        None
                    } else {
                        Some(fixed_function(assembly.function).instructions)
                    }
                },
            },
        },
    }
}

/// A compilation keeps the meaning: where a source text compiles and
/// its program has a value, the assembly text is written from legal
/// instructions that, run on the model of the processor from the first
/// one on, return that value.
pub proof fn lemma_compile_keeps_meaning(source: Seq<char>, target: Target) -> (steps: nat)
    requires
        compile_spec(source, target) is Ok,
        meaning(source) is Some,
    ensures
        compiled_instructions(source) matches Some(code) && compile_spec(source, target) == Ok::<
            Seq<char>,
            CompileErrorView,
        >(function_text(AssemblyFunctionView { name: "main"@, instructions: code }, target))
            && all_legal(code) && proceed(code, 0, at_start(), steps) == Running::Returned(
            meaning(source)->Some_0,
        ),
{
    let tokens = without_comments(tokenize(source)->Ok_0);
    lemma_compiled_code_keeps_meaning(tokens)
}

/// Whether the instructions, run on the model of the processor from the
/// first one on with no place given a value, return the value `v`.
pub open spec fn ends_with_value(code: Seq<InstructionView>, v: i32) -> bool {
    exists|steps: nat| proceed(code, 0, at_start(), steps) == Running::Returned(v)
}

/// Whether the assembly text `text` of a source text is written from
/// legal instructions that return the value of the program, where the
/// program has one.
pub open spec fn keeps_meaning(source: Seq<char>, target: Target, text: Seq<char>) -> bool {
    meaning(source) matches Some(v) ==> compiled_instructions(source) matches Some(code) && text
        == function_text(AssemblyFunctionView { name: "main"@, instructions: code }, target)
        && all_legal(code) && ends_with_value(code, v)
}

/// Every assembly text that a compilation gives keeps the meaning of
/// its source text.
pub proof fn lemma_compilation_is_correct(source: Seq<char>, target: Target)
    requires
        compile_spec(source, target) is Ok,
    ensures
        keeps_meaning(source, target, compile_spec(source, target)->Ok_0),
{
    if meaning(source) is Some {
        let steps = lemma_compile_keeps_meaning(source, target);
        let code = compiled_instructions(source)->Some_0;
        assert(proceed(code, 0, at_start(), steps) == Running::Returned(meaning(source)->Some_0));
    }
}

} // verus!
