use rustox::chunk::Chunk;
use rustox::compiler::{get_rule, Compiler, Handler};
use rustox::opcode::{Opcode, Precedence};
use rustox::parser::Parser;
use rustox::token::TokenType;
use rustox::value::{ArithOp, Number, Value};
use rustox::vm::{Fault, FaultKind, InterpretResult, Vm};

fn num(x: f64) -> Number {
    Number::from_bits(x.to_bits())
}

fn float(n: Number) -> f64 {
    f64::from_bits(n.to_bits())
}

fn arith(op: ArithOp, a: Number, b: Number) -> Number {
    let (x, y) = (float(a), float(b));
    num(match op {
        ArithOp::Add => x + y,
        ArithOp::Subtract => x - y,
        ArithOp::Multiply => x * y,
        ArithOp::Divide => x / y,
    })
}

fn format(n: Number) -> String {
    format!("{}", float(n))
}

fn parse(lexeme: &str) -> Number {
    num(lexeme.parse::<f64>().expect("Expected number."))
}

struct Compiled {
    chunk: Chunk,
    had_error: bool,
    diagnostics: Vec<String>,
}

fn compile(source: &str) -> Compiled {
    let mut comp = Compiler::new(source);
    let had_error = comp.compile(Chunk::new(), &parse);
    assert_eq!(had_error, comp.had_error());
    let diagnostics = comp.diagnostics().clone();
    Compiled { chunk: comp.take_chunk(), had_error, diagnostics }
}

fn code(chunk: &Chunk) -> Vec<u8> {
    (0..chunk.len()).map(|i| chunk.read(i)).collect()
}

fn lines(chunk: &Chunk) -> Vec<u32> {
    (0..chunk.len()).map(|i| chunk.line(i)).collect()
}

fn constants(chunk: &Chunk) -> Vec<String> {
    (0..chunk.constants_len()).map(|i| chunk.read_val(i as u8).display(&format)).collect()
}

fn b(op: Opcode) -> u8 {
    op.to_byte()
}

/// Compiles and runs `source`, which must compile without error.
fn execute(source: &str) -> (Vm, InterpretResult) {
    let compiled = compile(source);
    assert!(!compiled.had_error, "{:?}", compiled.diagnostics);
    let mut vm = Vm::new();
    let result = vm.interpret(compiled.chunk, &arith, &format);
    (vm, result)
}

fn top(source: &str) -> Value {
    let (vm, result) = execute(source);
    assert_eq!(result, InterpretResult::Finished);
    vm.stack().last().expect("empty stack").duplicate()
}

fn top_number(source: &str) -> f64 {
    match top(source) {
        Value::Number(n) => float(n),
        other => panic!("no number on top: {:?}", other),
    }
}

fn top_bool(source: &str) -> bool {
    match top(source) {
        Value::Bool(b) => b,
        other => panic!("no boolean on top: {:?}", other),
    }
}

#[test]
fn multiplication_binds_tighter_than_addition() {
    assert_eq!(top_number("3 + 4 * 2;"), 11.0);
    let compiled = compile("3 + 4 * 2;");
    assert_eq!(
        code(&compiled.chunk),
        vec![
            b(Opcode::Constant),
            0,
            b(Opcode::Constant),
            1,
            b(Opcode::Constant),
            2,
            b(Opcode::Multiply),
            b(Opcode::Add),
            b(Opcode::Return),
        ]
    );
    assert_eq!(constants(&compiled.chunk), vec!["3", "4", "2"]);
}

#[test]
fn expression_without_semicolon_still_compiles_to_eleven() {
    let compiled = compile("3 + 4 * 2");
    assert!(compiled.had_error);
    assert_eq!(
        compiled.diagnostics,
        vec!["[line 1] Error at end: Expected ';' after expression."]
    );
    let mut vm = Vm::new();
    assert_eq!(vm.interpret(compiled.chunk, &arith, &format), InterpretResult::Finished);
    match vm.stack().last() {
        Some(Value::Number(n)) => assert_eq!(float(*n), 11.0),
        other => panic!("no number on top: {:?}", other),
    }
}

#[test]
fn parentheses_group() {
    assert_eq!(top_number("(3 + 4) * 2;"), 14.0);
    assert_eq!(top_number("((1));"), 1.0);
    assert_eq!(top_number("2 * (3 + (4 - 1));"), 12.0);
}

#[test]
fn unary_binds_tighter_than_addition() {
    assert_eq!(top_number("-2 + 3;"), 1.0);
    assert_eq!(top_number("- 2 * 3;"), -6.0);
    assert_eq!(top_number("--2;"), 2.0);
    assert!(top_bool("!nil == true;"));
    assert!(!top_bool("!!false;"));
}

#[test]
fn operators_of_one_strength_go_left_to_right() {
    assert_eq!(top_number("10 - 4 - 3;"), 3.0);
    assert_eq!(top_number("24 / 4 / 3;"), 2.0);
    assert_eq!(top_number("1 + 2 * 3 - 4 / 2;"), 5.0);
    assert_eq!(top_number("7 / 2;"), 3.5);
    assert_eq!(top_number("0.1 + 0.2;"), 0.1 + 0.2);
}

#[test]
fn greater_equal_is_not_less() {
    assert!(top_bool("3 >= 3;"));
    assert!(!top_bool("2 >= 3;"));
    assert!(top_bool("4 >= 3;"));
    assert!(!top_bool("3 < 3;"));
    assert!(top_bool("2 < 3;"));
    for (a, b) in [(1.0, 2.0), (2.0, 1.0), (2.0, 2.0), (0.5, 0.25)] {
        let ge = top_bool(&format!("{} >= {};", a, b));
        let lt = top_bool(&format!("{} < {};", a, b));
        assert_eq!(ge, !lt);
        assert_eq!(ge, a >= b);
    }
}

#[test]
fn derived_comparisons() {
    assert!(top_bool("2 <= 3;"));
    assert!(top_bool("3 <= 3;"));
    assert!(!top_bool("4 <= 3;"));
    assert!(top_bool("4 > 3;"));
    assert!(top_bool("1 != 2;"));
    assert!(!top_bool("1 != 1;"));
    assert!(top_bool("1 == 1;"));
    assert!(top_bool("\"a\" == \"a\";"));
    assert!(!top_bool("\"a\" == 1;"));
    assert!(top_bool("nil == nil;"));
    assert!(top_bool("1 + 1 == 2;"));
    assert!(top_bool("1 < 2 == true;"));
    let compiled = compile("1 >= 2; 1 <= 2; 1 != 2;");
    assert_eq!(
        code(&compiled.chunk),
        vec![
            b(Opcode::Constant),
            0,
            b(Opcode::Constant),
            1,
            b(Opcode::Lesser),
            b(Opcode::Not),
            b(Opcode::Constant),
            2,
            b(Opcode::Constant),
            3,
            b(Opcode::Greater),
            b(Opcode::Not),
            b(Opcode::Constant),
            4,
            b(Opcode::Constant),
            5,
            b(Opcode::Equal),
            b(Opcode::Not),
            b(Opcode::Return),
        ]
    );
}

#[test]
fn and_or_evaluate_both_sides() {
    assert!(!top_bool("true and false;"));
    assert!(top_bool("true or false;"));
    assert!(top_bool("false or true and true;"));
    assert_eq!(top_number("true and 7;"), 7.0);
    assert_eq!(top_number("nil or 7;"), 7.0);
    let compiled = compile("true or true and false;");
    assert_eq!(
        code(&compiled.chunk),
        vec![
            b(Opcode::True),
            b(Opcode::True),
            b(Opcode::False),
            b(Opcode::And),
            b(Opcode::Or),
            b(Opcode::Return),
        ]
    );
    // The right side runs although the left side decides: it faults.
    let (_, result) = execute("false and -nil;");
    assert_eq!(
        result,
        InterpretResult::RuntimeError(Fault { kind: FaultKind::TypeMismatch, line: 1 })
    );
}

#[test]
fn global_round_trip() {
    let (vm, result) = execute("var x = 5; print x;");
    assert_eq!(result, InterpretResult::Finished);
    assert_eq!(vm.output(), &vec!["5"]);
    assert!(vm.global("x").unwrap().equals(&Value::Number(num(5.0))));
    let compiled = compile("var x = 5; print x;");
    assert_eq!(
        code(&compiled.chunk),
        vec![
            b(Opcode::Constant),
            1,
            b(Opcode::DefineGlobal),
            0,
            b(Opcode::GetGlobal),
            2,
            b(Opcode::Print),
            b(Opcode::Return),
        ]
    );
    assert_eq!(constants(&compiled.chunk), vec!["@x", "5", "@x"]);
}

#[test]
fn globals_in_expressions() {
    let (vm, result) = execute(
        "var a = 1;\nvar b = a + 2;\nvar c;\nprint a + b * 2;\nprint c;\nprint \"n=\" + b;",
    );
    assert_eq!(result, InterpretResult::Finished);
    assert_eq!(vm.output(), &vec!["7", "Nil", "\"n=3\""]);
    assert!(vm.global("c").unwrap().equals(&Value::Nil));
}

#[test]
fn reading_an_undefined_global_faults() {
    let (_, result) = execute("print 1;\nprint y;");
    assert_eq!(
        result,
        InterpretResult::RuntimeError(Fault { kind: FaultKind::UndefinedGlobal, line: 2 })
    );
}

#[test]
fn print_statement_code_and_lines() {
    let compiled = compile("print 1;\n\nprint \"two\";\n");
    assert!(!compiled.had_error);
    assert_eq!(
        code(&compiled.chunk),
        vec![
            b(Opcode::Constant),
            0,
            b(Opcode::Print),
            b(Opcode::Constant),
            1,
            b(Opcode::Print),
            b(Opcode::Return),
        ]
    );
    assert_eq!(lines(&compiled.chunk), vec![1, 1, 1, 3, 3, 3, 4]);
    assert_eq!(constants(&compiled.chunk), vec!["1", "\"two\""]);
}

#[test]
fn string_literals_lose_their_quotes() {
    let (vm, _) = execute("print \"\"; print \"a\" + \"b\"; print \"x\" + 1.5; print 2 + \"y\";");
    assert_eq!(vm.output(), &vec!["\"\"", "\"ab\"", "\"x1.5\"", "\"2y\""]);
}

#[test]
fn empty_source_is_a_single_return() {
    let compiled = compile("");
    assert!(!compiled.had_error);
    assert!(compiled.diagnostics.is_empty());
    assert_eq!(code(&compiled.chunk), vec![b(Opcode::Return)]);
    assert_eq!(lines(&compiled.chunk), vec![1]);
}

#[test]
fn two_bad_statements_give_two_diagnostics() {
    let compiled = compile("print ; print ;");
    assert!(compiled.had_error);
    assert_eq!(
        compiled.diagnostics,
        vec![
            "[line 1] Error at ';': Expect expression.",
            "[line 1] Error at ';': Expect expression.",
        ]
    );
    assert_eq!(
        code(&compiled.chunk),
        vec![b(Opcode::Print), b(Opcode::Print), b(Opcode::Return)]
    );
}

#[test]
fn one_bad_statement_among_good_ones() {
    let compiled = compile("\n    print ;\n    print 3;\n    ");
    assert!(compiled.had_error);
    assert_eq!(compiled.diagnostics, vec!["[line 2] Error at ';': Expect expression."]);
    assert_eq!(
        code(&compiled.chunk),
        vec![
            b(Opcode::Print),
            b(Opcode::Constant),
            0,
            b(Opcode::Print),
            b(Opcode::Return),
        ]
    );
}

#[test]
fn errors_in_one_statement_are_reported_once() {
    let compiled = compile("1 + ) ) ( * ;\n2 +;\n3;");
    assert_eq!(
        compiled.diagnostics,
        vec![
            "[line 1] Error at ')': Expect expression.",
            "[line 2] Error at ';': Expect expression.",
        ]
    );
    let c = code(&compiled.chunk);
    assert_eq!(c.last(), Some(&b(Opcode::Return)));
}

#[test]
fn error_tokens_are_reported_and_skipped() {
    let compiled = compile("print 1 @ + 2;");
    assert!(compiled.had_error);
    assert_eq!(compiled.diagnostics, vec!["[line 1] Error: Encountered error token."]);
    assert_eq!(
        code(&compiled.chunk),
        vec![
            b(Opcode::Constant),
            0,
            b(Opcode::Constant),
            1,
            b(Opcode::Add),
            b(Opcode::Print),
            b(Opcode::Return),
        ]
    );
}

#[test]
fn unterminated_string_is_reported() {
    let compiled = compile("print 1;\nprint \"abc");
    assert!(compiled.had_error);
    assert_eq!(compiled.diagnostics, vec!["[line 2] Error: Encountered error token."]);
    assert_eq!(code(&compiled.chunk).last(), Some(&b(Opcode::Return)));
}

#[test]
fn diagnostics_name_the_place() {
    assert_eq!(
        compile("(1 + 2;").diagnostics,
        vec!["[line 1] Error at ';': Expect ')' after expression."]
    );
    assert_eq!(
        compile("print 1").diagnostics,
        vec!["[line 1] Error at end: Expected ';' after print statement."]
    );
    assert_eq!(
        compile("var 1 = 2;").diagnostics,
        vec!["[line 1] Error at '1': Expect variable name."]
    );
    assert_eq!(
        compile("1 2;").diagnostics,
        vec!["[line 1] Error at '2': Expected ';' after expression."]
    );
    assert_eq!(compile("+").diagnostics, vec!["[line 1] Error at '+': Expect expression."]);
    assert_eq!(
        compile("\n\n\n\n\n\n\n\n\n\n\nwhile").diagnostics,
        vec!["[line 12] Error at 'while': Expect expression."]
    );
    let mut many = "\n".repeat(1234);
    many.push_str("1 +");
    assert_eq!(compile(&many).diagnostics, vec!["[line 1235] Error at end: Expect expression."]);
}

#[test]
fn first_token_may_be_an_error_token() {
    let compiled = compile("@");
    assert!(compiled.had_error);
    assert_eq!(compiled.diagnostics, vec!["[line 1] Error: Expect expression."]);
}

#[test]
fn too_many_constants_are_reported() {
    let mut source = String::new();
    for i in 0..257 {
        source.push_str(&format!("{};\n", i));
    }
    let compiled = compile(&source);
    assert!(compiled.had_error);
    assert_eq!(
        compiled.diagnostics,
        vec!["[line 257] Error at '256': Too many constants in one chunk."]
    );
    assert_eq!(compiled.chunk.constants_len(), 256);
    let c = code(&compiled.chunk);
    assert_eq!(c.len(), 2 * 257 + 1);
    assert_eq!(&c[2 * 256..], &[b(Opcode::Constant), 0, b(Opcode::Return)]);
    let source: String = (0..256).map(|i| format!("{};", i)).collect();
    let compiled = compile(&source);
    assert!(!compiled.had_error);
    assert_eq!(compiled.chunk.constants_len(), 256);
}

#[test]
fn deep_nesting() {
    let depth = 200;
    let source = format!("{}1{};", "(".repeat(depth), ")".repeat(depth));
    assert_eq!(top_number(&source), 1.0);
    let source = format!("{}1;", "-".repeat(depth + 1));
    assert_eq!(top_number(&source), -1.0);
}

#[test]
fn the_chunk_moves_through_the_compiler() {
    let mut comp = Compiler::new("print 1;");
    let mut chunk = Chunk::new();
    chunk.write_opcode(Opcode::Nil, 7);
    comp.set_chunk(Chunk::new());
    assert_eq!(comp.take_chunk().len(), 0);
    assert!(!comp.compile(chunk, &parse));
    let chunk = comp.take_chunk();
    assert_eq!(
        code(&chunk),
        vec![b(Opcode::Nil), b(Opcode::Constant), 0, b(Opcode::Print), b(Opcode::Return)]
    );
}

#[test]
fn parse_table() {
    let minus = get_rule(TokenType::Minus);
    assert_eq!(minus.prefix, Some(Handler::Unary));
    assert_eq!(minus.infix, Some(Handler::Binary));
    assert_eq!(minus.precedence, Precedence::Term);
    let star = get_rule(TokenType::Star);
    assert_eq!((star.prefix, star.infix), (None, Some(Handler::Binary)));
    assert_eq!(star.precedence, Precedence::Factor);
    assert_eq!(get_rule(TokenType::LeftParen).prefix, Some(Handler::Grouping));
    assert_eq!(get_rule(TokenType::Bang).prefix, Some(Handler::Unary));
    assert_eq!(get_rule(TokenType::Bang).infix, None);
    assert_eq!(get_rule(TokenType::EqualEqual).precedence, Precedence::Equality);
    assert_eq!(get_rule(TokenType::LesserEqual).precedence, Precedence::Comparison);
    assert_eq!(get_rule(TokenType::And).precedence, Precedence::And);
    assert_eq!(get_rule(TokenType::Or).precedence, Precedence::Or);
    assert_eq!(get_rule(TokenType::Number).prefix, Some(Handler::Number));
    assert_eq!(get_rule(TokenType::String).prefix, Some(Handler::String));
    assert_eq!(get_rule(TokenType::Nil).prefix, Some(Handler::Literal));
    assert_eq!(get_rule(TokenType::Identifier).prefix, Some(Handler::Variable));
    assert_eq!(get_rule(TokenType::Var).prefix, Some(Handler::Declaration));
    for kind in [TokenType::Eof, TokenType::Semicolon, TokenType::Equal, TokenType::While] {
        let rule = get_rule(kind);
        assert_eq!((rule.prefix, rule.infix, rule.precedence), (None, None, Precedence::Lowest));
    }
}

#[test]
fn parser_moves_token_by_token() {
    let mut p = Parser::new("print 1;");
    assert_eq!(p.current.token_type, TokenType::Print);
    assert_eq!(p.previous.token_type, TokenType::Eof);
    assert!(p.match_token(TokenType::Print));
    assert!(!p.match_token(TokenType::Print));
    assert_eq!(p.previous.lexeme, "print");
    p.consume(TokenType::Number, "number");
    assert!(!p.had_error);
    p.consume(TokenType::Number, "Expect number.");
    assert!(p.had_error && p.panicking);
    p.error("suppressed");
    p.error_at_current("suppressed");
    assert_eq!(p.diagnostics, vec!["[line 1] Error at ';': Expect number."]);
    p.synchronize();
    assert!(!p.panicking);
    assert_eq!(p.previous.token_type, TokenType::Semicolon);
    assert_eq!(p.current.token_type, TokenType::Eof);
    p.error("At the semicolon.");
    assert_eq!(p.diagnostics[1], "[line 1] Error at ';': At the semicolon.");
    p.advance();
    p.advance();
    assert_eq!(p.previous.token_type, TokenType::Eof);
    assert_eq!(p.current.token_type, TokenType::Eof);
}

#[test]
fn synchronize_stops_before_a_statement() {
    let mut p = Parser::new("1 2 3 var x");
    p.error_at_current("Bad.");
    p.synchronize();
    assert_eq!(p.current.token_type, TokenType::Var);
    assert_eq!(p.previous.lexeme, "3");
    let mut p = Parser::new("1 2 ; 3");
    p.synchronize();
    assert_eq!(p.current.lexeme, "3");
    let mut p = Parser::new("1 2");
    p.synchronize();
    assert_eq!(p.current.token_type, TokenType::Eof);
}
