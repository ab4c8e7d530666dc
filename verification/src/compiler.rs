//! The whole pipeline, from source text to assembly text.
use vstd::prelude::*;
use vstd::string::*;
use crate::assembly::{
    build_program, generate_assembly_ast, lemma_sound_code_builds, ProgramView as AssemblyView,
};
use crate::correctness::{keeps_meaning, lemma_compilation_is_correct};
use crate::emit::{program_text, Target};
use crate::error::{CompileError, CompileErrorView};
use crate::legalize::fixed_function;
use crate::lex::{
    is_lexer_error, lemma_lexer_errors, strip_comments, tokenize, without_comments, Lex, TokenView,
};
use crate::parser::{
    is_parser_error, lemma_parsed_program_is_plain, lemma_parser_errors, parse_and_resolve_program,
    parse_and_resolve_spec, parse_program_spec,
};
use crate::pseudo::frame_size;
use crate::resolver::{is_resolver_error, lemma_resolved_body_is_sound, lemma_resolver_errors};
use crate::tac::{generate_tac, lemma_lowered_program_is_sound, lower_program};

verus! {

/// The assembly text of the program with stack slots and legal
/// instructions, unless its frame is too large.
pub open spec fn finish_spec(assembly: AssemblyView, target: Target) -> Result<
    Seq<char>,
    CompileErrorView,
> {
    if frame_size(assembly.function.instructions) > i32::MAX {
        Err(CompileErrorView::InternalInvariantViolation)
    } else {
        Ok(program_text(AssemblyView { function: fixed_function(assembly.function) }, target))
    }
}

/// The assembly text that a source text is compiled to, or the first
/// error on the way: of the lexer, then the parser, then the resolver,
/// then the back end.
pub open spec fn compile_spec(source: Seq<char>, target: Target) -> Result<
    Seq<char>,
    CompileErrorView,
> {
    match tokenize(source) {
        Err(e) => Err(e),
        Ok(tokens) => match parse_and_resolve_spec(without_comments(tokens)) {
            Err(e) => Err(e),
            Ok(program) => match build_program(lower_program(program)) {
                Err(e) => Err(e),
                Ok(assembly) => finish_spec(assembly, target),
            },
        },
    }
}

/// Compiles a source text to assembly text for the target.
///
/// The text is the one that the stages give, one after the other, and
/// the error is the first that a stage reports. Where the program of
/// the source has a value, the text is written from legal instructions
/// that return this value on the model of the processor.
pub fn compile(source: &str, target: Target) -> (r: Result<String, CompileError>)
    ensures
        match r {
            Ok(text) => compile_spec(source@, target) == Ok::<Seq<char>, CompileErrorView>(text@)
                && keeps_meaning(source@, target, text@),
            Err(e) => compile_spec(source@, target) == Err::<Seq<char>, CompileErrorView>(e@),
        },
{
    let mut lexer = Lex::new(source);
    let tokens = match lexer.get_tokens() {
        Ok(tokens) => tokens,
        Err(e) => {
            return Err(e);
        },
    };
    let mut tokens = strip_comments(tokens);
    let program = match parse_and_resolve_program(&mut tokens) {
        Ok(program) => program,
        Err(e) => {
            return Err(e);
        },
    };
    let tac = generate_tac(program);
    let mut assembly = match generate_assembly_ast(tac) {
        Ok(assembly) => assembly,
        Err(e) => {
            return Err(e);
        },
    };
    match assembly.apply_fixes() {
        Ok(_) => {},
        Err(e) => {
            return Err(e);
        },
    }
    let text = assembly.to_assembly_file(target);
    proof {
        lemma_compilation_is_correct(source@, target);
    }
    Ok(text)
}

/// Every program that parses and resolves can be built into assembly:
/// the parser and the resolver let nothing through that the back end
/// cannot take.
pub proof fn lemma_back_end_accepts(tokens: Seq<TokenView>)
    ensures
        parse_and_resolve_spec(tokens) matches Ok(program) ==> build_program(
            lower_program(program),
        ) is Ok,
{
    if let Ok(parsed) = parse_program_spec(tokens) {
        lemma_parsed_program_is_plain(tokens);
        lemma_resolved_body_is_sound(parsed.function.body, Map::empty());
        if let Ok(program) = parse_and_resolve_spec(tokens) {
            lemma_lowered_program_is_sound(program);
            lemma_sound_code_builds(lower_program(program).function.body);
        }
    }
}

/// A compilation fails with an error of the lexer, the parser or the
/// resolver, each from its own stage; with `InternalInvariantViolation`
/// it fails only where the program is well formed and its frame would
/// not fit in 32 signed bits.
pub proof fn lemma_compile_errors(source: Seq<char>, target: Target)
    ensures
        match compile_spec(source, target) {
            Ok(_) => true,
            Err(e) => match tokenize(source) {
                Err(lexer_error) => e == lexer_error && is_lexer_error(e),
                Ok(tokens) => match parse_and_resolve_spec(without_comments(tokens)) {
                    Err(front_error) => e == front_error && (is_parser_error(e)
                        || is_resolver_error(e)),
                    Ok(program) => {
                        &&& e == CompileErrorView::InternalInvariantViolation
                        &&& build_program(lower_program(program)) matches Ok(assembly)
                        &&& frame_size(assembly.function.instructions) > i32::MAX
                    },
                },
            },
        },
{
    lemma_lexer_errors(source, 0);
    if let Ok(tokens) = tokenize(source) {
        let kept = without_comments(tokens);
        lemma_parser_errors(kept);
        if let Ok(parsed) = parse_program_spec(kept) {
            lemma_resolver_errors(parsed);
        }
        lemma_back_end_accepts(kept);
    }
}

} // verus!
