use vstd::prelude::*;
use crate::chunk::ChunkView;
use crate::compiler::{binary_code, compiled};
use crate::host::Numerics;
use crate::opcode::Opcode;
use crate::scanner::{lemma_eof_repeats, ScannerView};
use crate::token::TokenType;
use crate::value::{Number, ValueView};
use crate::vm::{FaultKind, InterpretResult, MachineView, Step};

verus! {

/// A scanner that has given the end-of-input token gives it again, on the
/// same line, and stays where it is, however often it is asked.
pub proof fn lemma_end_of_input_is_final(scanner: ScannerView)
    requires
        scanner.token().kind == TokenType::Eof,
    ensures
        scanner.after_token().token() == scanner.token(),
        scanner.after_token().after_token() == scanner.after_token(),
{
    lemma_eof_repeats(scanner.text, scanner.pos, scanner.line);
}

/// `Nil` and `false` are the only values that are not truthy; the number
/// zero, as every number, is truthy.
pub proof fn lemma_truthiness(value: ValueView)
    ensures
        !value.truthy() <==> value == ValueView::Nil || value == ValueView::Bool(false),
        value is Number ==> value.truthy(),
{
}

/// A string and a number are added to the string followed by the text of
/// the number.
pub proof fn lemma_string_plus_number(text: Seq<char>, number: Number, host: Numerics)
    ensures
        ValueView::String(text).plus(ValueView::Number(number), host.arith, host.format) == Some(
            ValueView::String(text + (host.format)(number)),
        ),
{
}

/// `>=` is the negation of `<` on every pair of numbers. The compiler
/// writes `>=` as the code for `<` followed by `Not`. On a machine that has
/// the numbers `a` and `b` on top of its stack, `b` last, the code for `<`
/// replaces them by the boolean `a < b`, and `Not` then turns that into its
/// negation, which is true exactly if `a > b` or `a == b`. Where one of
/// the numbers is a NaN, neither code gets beyond the comparison.
pub proof fn lemma_greater_equal_negates_less(m: MachineView, host: Numerics, a: Number, b: Number)
    requires
        m.stack.len() >= 2,
        m.stack[m.stack.len() - 2] == ValueView::Number(a),
        m.stack[m.stack.len() - 1] == ValueView::Number(b),
        m.opcode() == Opcode::Lesser,
        0 <= m.pc,
        m.pc + 1 < m.chunk.code.len(),
        Opcode::decode(m.chunk.code[m.pc + 1]) == Opcode::Not,
    ensures
        binary_code(TokenType::GreaterEqual) == binary_code(TokenType::Lesser).push(Opcode::Not),
        a.nan() || b.nan() ==> m.step(host) == Step::Fault(FaultKind::TypeMismatch),
        !a.nan() && !b.nan() ==> m.step(host) == Step::Next(
            m.replaced(1, 2, ValueView::Bool(a.below(b))),
        ) && m.replaced(1, 2, ValueView::Bool(a.below(b))).step(host) == Step::Next(
            m.replaced(2, 2, ValueView::Bool(!a.below(b))),
        ),
        !a.nan() && !b.nan() ==> (!a.below(b) <==> b.below(a) || a.same(b)),
{
    assert(binary_code(TokenType::GreaterEqual) =~= binary_code(TokenType::Lesser).push(Opcode::Not));
    if !a.nan() && !b.nan() {
        let less = m.replaced(1, 2, ValueView::Bool(a.below(b)));
        assert(less.opcode() == Opcode::Not);
        assert(less.top() == ValueView::Bool(a.below(b)));
        assert(less.stack.take(less.stack.len() - 1) =~= m.stack.take(m.stack.len() - 2));
        assert(less.replaced(1, 1, ValueView::Bool(!a.below(b))) == m.replaced(
            2,
            2,
            ValueView::Bool(!a.below(b)),
        ));
        Number::lemma_trichotomy(a, b);
    }
}

/// A machine never leaves the instructions of a chunk whose code from the
/// program counter on is made of whole instructions up to a `Return`: it
/// never meets a byte that encodes no instruction or an operand that names
/// no constant, and it ends at a `Return` or with a fault of another kind.
pub proof fn lemma_run_keeps_to_instructions(m: MachineView, host: Numerics)
    requires
        m.chunk.runs_to_return(m.pc),
    ensures
        m.run(host).1 == InterpretResult::Finished || (m.run(host).1 matches InterpretResult::RuntimeError(
            fault,
        ) && fault.kind != FaultKind::InvalidOpcode),
        m.run(host).0.chunk == m.chunk,
    decreases m.chunk.code.len() - m.pc,
{
    let op = m.opcode();
    m.chunk.lemma_runs_to_return(m.pc);
    Opcode::lemma_byte_decode(m.chunk.code[m.pc]);
    match m.step(host) {
        Step::Next(after) => {
            assert(after.chunk == m.chunk);
            assert(after.pc == m.pc + op.width());
            lemma_run_keeps_to_instructions(after, host);
        },
        _ => {},
    }
}

/// Compiling reads the whole source, and it finds an error exactly if it
/// gives a diagnostic: the last token that it passes is the end of the
/// input, whatever errors it met on the way.
pub proof fn lemma_compiling_reaches_the_end(source: Seq<char>, parse: spec_fn(Seq<char>) -> Number)
    ensures
        compiled(source, parse).parser.previous.kind == TokenType::Eof,
        compiled(source, parse).parser.had_error <==> compiled(source, parse).parser.diagnostics.len()
            > 0,
        compiled(source, parse).parser.scanner.text == source,
{
    let start = crate::compiler::compiler_for(source, ChunkView::empty());
    ChunkView::empty().lemma_instructions_from_end();
    start.lemma_compile_runs_to_return(parse);
}

/// What is compiled into an empty chunk can be run: its code is made of
/// whole instructions up to a final `Return`, each operand in it names a
/// constant, and each byte has its line. So a machine that runs it ends at a
/// `Return` or with a fault other than that of an invalid instruction.
pub proof fn lemma_compiled_code_runs(
    source: Seq<char>,
    parse: spec_fn(Seq<char>) -> Number,
    m: MachineView,
    host: Numerics,
)
    ensures
        compiled(source, parse).chunk.runs_to_return(0),
        compiled(source, parse).chunk.code.last() == Opcode::Return.byte(),
        compiled(source, parse).chunk.well_formed(),
        m.load(compiled(source, parse).chunk).run(host).1 == InterpretResult::Finished || (m.load(
            compiled(source, parse).chunk,
        ).run(host).1 matches InterpretResult::RuntimeError(fault) && fault.kind
            != FaultKind::InvalidOpcode),
{
    let start = crate::compiler::compiler_for(source, ChunkView::empty());
    ChunkView::empty().lemma_instructions_from_end();
    start.lemma_compile_runs_to_return(parse);
    lemma_run_keeps_to_instructions(m.load(compiled(source, parse).chunk), host);
}

} // verus!
