use rustox::chunk::{Chunk, ChunkError};
use rustox::opcode::Opcode;
use rustox::value::{ArithOp, Number, Value};
use rustox::vm::{Fault, FaultKind, InterpretResult, Status, Vm};

fn num(x: f64) -> Number {
    Number::from_bits(x.to_bits())
}

fn float(n: Number) -> f64 {
    f64::from_bits(n.to_bits())
}

fn arith(op: ArithOp, a: Number, b: Number) -> Number {
    let (x, y) = (float(a), float(b));
    num(match op {
        ArithOp::Add => x + y,
        ArithOp::Subtract => x - y,
        ArithOp::Multiply => x * y,
        ArithOp::Divide => x / y,
    })
}

fn format(n: Number) -> String {
    format!("{}", float(n))
}

fn make_const(chunk: &mut Chunk, val: Value) {
    let idx = chunk.add_const(val).unwrap();
    chunk.write_binary(Opcode::Constant, idx, 1);
}

fn run(vm: &mut Vm, chunk: Chunk) -> InterpretResult {
    vm.interpret(chunk, &arith, &format)
}

fn top_number(vm: &Vm) -> f64 {
    match vm.stack().last() {
        Some(Value::Number(n)) => float(*n),
        other => panic!("no number on top: {:?}", other),
    }
}

fn top_bool(vm: &Vm) -> bool {
    match vm.stack().last() {
        Some(Value::Bool(b)) => *b,
        other => panic!("no boolean on top: {:?}", other),
    }
}

fn fault(kind: FaultKind, line: u32) -> InterpretResult {
    InterpretResult::RuntimeError(Fault { kind, line })
}

/// Runs `a op b` for two numbers and returns the machine.
fn binary(op: &[Opcode], a: Value, b: Value) -> (Vm, InterpretResult) {
    let mut vm = Vm::new();
    let mut chunk = Chunk::new();
    make_const(&mut chunk, a);
    make_const(&mut chunk, b);
    for o in op {
        chunk.write_opcode(*o, 1);
    }
    chunk.write_opcode(Opcode::Return, 1);
    let r = run(&mut vm, chunk);
    (vm, r)
}

#[test]
fn add() {
    let mut vm = Vm::new();
    let mut chunk = Chunk::new();
    make_const(&mut chunk, Value::Number(num(1f64)));
    make_const(&mut chunk, Value::Number(num(2f64)));
    chunk.write_opcode(Opcode::Add, 1);
    chunk.write_opcode(Opcode::Return, 1);
    assert_eq!(vm.interpret(chunk, &arith, &format), InterpretResult::Finished);
}

#[test]
fn mixed() {
    let mut vm = Vm::new();
    let mut chunk = Chunk::new();
    make_const(&mut chunk, Value::Number(num(1f64)));
    make_const(&mut chunk, Value::Number(num(2f64)));
    chunk.write_opcode(Opcode::Add, 1);
    make_const(&mut chunk, Value::Number(num(4f64)));
    chunk.write_opcode(Opcode::Multiply, 1);
    chunk.write_opcode(Opcode::Return, 1);
    assert_eq!(vm.interpret(chunk, &arith, &format), InterpretResult::Finished);
}

#[test]
fn mixed_leaves_twelve() {
    let mut vm = Vm::new();
    let mut chunk = Chunk::new();
    make_const(&mut chunk, Value::Number(num(1f64)));
    make_const(&mut chunk, Value::Number(num(2f64)));
    chunk.write_opcode(Opcode::Add, 1);
    make_const(&mut chunk, Value::Number(num(4f64)));
    chunk.write_opcode(Opcode::Multiply, 1);
    chunk.write_opcode(Opcode::Return, 1);
    assert_eq!(run(&mut vm, chunk), InterpretResult::Finished);
    assert_eq!(vm.stack().len(), 1);
    assert_eq!(top_number(&vm), 12.0);
}

#[test]
fn operands_keep_their_order() {
    let (vm, r) = binary(
        &[Opcode::Subtract],
        Value::Number(num(7.0)),
        Value::Number(num(2.0)),
    );
    assert_eq!(r, InterpretResult::Finished);
    assert_eq!(top_number(&vm), 5.0);
    let (vm, _) = binary(
        &[Opcode::Divide],
        Value::Number(num(7.0)),
        Value::Number(num(2.0)),
    );
    assert_eq!(top_number(&vm), 3.5);
    let (vm, _) = binary(
        &[Opcode::Add],
        Value::String("a".to_string()),
        Value::Number(num(1.0)),
    );
    match vm.stack().last() {
        Some(Value::String(s)) => assert_eq!(s, "a1"),
        other => panic!("no string on top: {:?}", other),
    }
}

#[test]
fn comparisons_of_numbers() {
    let cases = [(3.0, 3.0), (2.0, 3.0), (3.0, 2.0), (-0.0, 0.0), (-1.0, 1.0)];
    for (a, b) in cases.iter() {
        let va = || Value::Number(num(*a));
        let vb = || Value::Number(num(*b));
        assert_eq!(top_bool(&binary(&[Opcode::Lesser], va(), vb()).0), a < b);
        assert_eq!(top_bool(&binary(&[Opcode::Greater], va(), vb()).0), a > b);
        assert_eq!(top_bool(&binary(&[Opcode::Equal], va(), vb()).0), a == b);
        // `>=`, `<=` and `!=` as the compiler writes them.
        assert_eq!(
            top_bool(&binary(&[Opcode::Lesser, Opcode::Not], va(), vb()).0),
            a >= b
        );
        assert_eq!(
            top_bool(&binary(&[Opcode::Greater, Opcode::Not], va(), vb()).0),
            a <= b
        );
        assert_eq!(
            top_bool(&binary(&[Opcode::Equal, Opcode::Not], va(), vb()).0),
            a != b
        );
    }
}

#[test]
fn ordering_a_nan_is_a_fault() {
    let (vm, r) = binary(
        &[Opcode::Lesser],
        Value::Number(num(f64::NAN)),
        Value::Number(num(1.0)),
    );
    assert_eq!(r, fault(FaultKind::TypeMismatch, 1));
    assert_eq!(vm.stack().len(), 2);
    let (_, r) = binary(
        &[Opcode::Greater],
        Value::Number(num(1.0)),
        Value::Number(num(f64::NAN)),
    );
    assert_eq!(r, fault(FaultKind::TypeMismatch, 1));
    let (vm, r) = binary(
        &[Opcode::Equal],
        Value::Number(num(f64::NAN)),
        Value::Number(num(f64::NAN)),
    );
    assert_eq!(r, InterpretResult::Finished);
    assert!(!top_bool(&vm));
}

#[test]
fn and_or_take_both_operands() {
    let t = || Value::Bool(true);
    let f = || Value::Bool(false);
    let n = || Value::Number(num(7.0));
    let (vm, _) = binary(&[Opcode::And], t(), n());
    assert_eq!(top_number(&vm), 7.0);
    assert_eq!(vm.stack().len(), 1);
    let (vm, _) = binary(&[Opcode::And], Value::Nil, n());
    assert!(!top_bool(&vm));
    let (vm, _) = binary(&[Opcode::And], f(), t());
    assert!(!top_bool(&vm));
    let (vm, _) = binary(&[Opcode::Or], n(), Value::Nil);
    assert!(top_bool(&vm));
    let (vm, _) = binary(&[Opcode::Or], f(), n());
    assert_eq!(top_number(&vm), 7.0);
    let (vm, _) = binary(&[Opcode::Or], Value::Nil, f());
    assert!(!top_bool(&vm));
}

#[test]
fn literals_and_not() {
    let mut vm = Vm::new();
    let mut chunk = Chunk::new();
    chunk.write_opcode(Opcode::Nil, 1);
    chunk.write_opcode(Opcode::True, 1);
    chunk.write_opcode(Opcode::False, 1);
    chunk.write_opcode(Opcode::Not, 1);
    chunk.write_opcode(Opcode::Return, 1);
    assert_eq!(run(&mut vm, chunk), InterpretResult::Finished);
    let shown: Vec<String> = vm.stack().iter().map(|v| v.display(&format)).collect();
    assert_eq!(shown, vec!["Nil", "True", "True"]);
}

#[test]
fn zero_is_truthy_for_not() {
    let mut vm = Vm::new();
    let mut chunk = Chunk::new();
    make_const(&mut chunk, Value::Number(num(0.0)));
    chunk.write_opcode(Opcode::Not, 1);
    chunk.write_opcode(Opcode::Return, 1);
    assert_eq!(run(&mut vm, chunk), InterpretResult::Finished);
    assert!(!top_bool(&vm));
}

#[test]
fn negate_and_pop() {
    let mut vm = Vm::new();
    let mut chunk = Chunk::new();
    make_const(&mut chunk, Value::Number(num(1.0)));
    make_const(&mut chunk, Value::Number(num(2.0)));
    chunk.write_opcode(Opcode::Pop, 1);
    chunk.write_opcode(Opcode::Negate, 1);
    chunk.write_opcode(Opcode::Return, 1);
    assert_eq!(run(&mut vm, chunk), InterpretResult::Finished);
    assert_eq!(vm.stack().len(), 1);
    assert_eq!(top_number(&vm), -1.0);
}

#[test]
fn print_pops_and_writes_a_line() {
    let mut vm = Vm::new();
    let mut chunk = Chunk::new();
    make_const(&mut chunk, Value::Number(num(5.0)));
    chunk.write_opcode(Opcode::Print, 1);
    make_const(&mut chunk, Value::String("s".to_string()));
    chunk.write_opcode(Opcode::Print, 1);
    chunk.write_opcode(Opcode::Nil, 1);
    chunk.write_opcode(Opcode::Print, 1);
    chunk.write_opcode(Opcode::Return, 1);
    assert_eq!(run(&mut vm, chunk), InterpretResult::Finished);
    assert!(vm.stack().is_empty());
    assert_eq!(vm.output(), &vec!["5", "\"s\"", "Nil"]);
    assert_eq!(vm.take_output(), vec!["5", "\"s\"", "Nil"]);
    assert!(vm.output().is_empty());
}

#[test]
fn globals_are_defined_from_the_top_of_the_stack() {
    let mut vm = Vm::new();
    let mut chunk = Chunk::new();
    let x = chunk.add_const(Value::Ident("x".to_string())).unwrap();
    make_const(&mut chunk, Value::Number(num(5.0)));
    chunk.write_binary(Opcode::DefineGlobal, x, 1);
    chunk.write_opcode(Opcode::Pop, 1);
    chunk.write_binary(Opcode::GetGlobal, x, 2);
    chunk.write_opcode(Opcode::Print, 2);
    chunk.write_opcode(Opcode::Return, 2);
    assert_eq!(run(&mut vm, chunk), InterpretResult::Finished);
    assert!(vm.stack().is_empty());
    assert_eq!(vm.output(), &vec!["5"]);
    assert!(vm.global("x").unwrap().equals(&Value::Number(num(5.0))));
    assert!(vm.global("y").is_none());
}

#[test]
fn define_global_keeps_the_value_on_the_stack() {
    let mut vm = Vm::new();
    let mut chunk = Chunk::new();
    let x = chunk.add_const(Value::Ident("x".to_string())).unwrap();
    make_const(&mut chunk, Value::Bool(true));
    chunk.write_binary(Opcode::DefineGlobal, x, 1);
    chunk.write_opcode(Opcode::Return, 1);
    assert_eq!(run(&mut vm, chunk), InterpretResult::Finished);
    assert_eq!(vm.stack().len(), 1);
    assert!(top_bool(&vm));
}

#[test]
fn a_global_can_be_defined_again_and_outlives_the_run() {
    let mut vm = Vm::new();
    let mut chunk = Chunk::new();
    let x = chunk.add_const(Value::Ident("x".to_string())).unwrap();
    let y = chunk.add_const(Value::Ident("y".to_string())).unwrap();
    make_const(&mut chunk, Value::Number(num(1.0)));
    chunk.write_binary(Opcode::DefineGlobal, x, 1);
    chunk.write_binary(Opcode::DefineGlobal, y, 1);
    make_const(&mut chunk, Value::Number(num(2.0)));
    chunk.write_binary(Opcode::DefineGlobal, x, 1);
    chunk.write_opcode(Opcode::Return, 1);
    assert_eq!(run(&mut vm, chunk), InterpretResult::Finished);
    assert!(vm.global("x").unwrap().equals(&Value::Number(num(2.0))));
    assert!(vm.global("y").unwrap().equals(&Value::Number(num(1.0))));

    let mut chunk = Chunk::new();
    let x = chunk.add_const(Value::Ident("x".to_string())).unwrap();
    chunk.write_binary(Opcode::GetGlobal, x, 1);
    chunk.write_opcode(Opcode::Return, 1);
    assert_eq!(run(&mut vm, chunk), InterpretResult::Finished);
    assert_eq!(top_number(&vm), 2.0);
    assert_eq!(vm.stack().len(), 3);
}

#[test]
fn undefined_global() {
    let mut vm = Vm::new();
    let mut chunk = Chunk::new();
    let x = chunk.add_const(Value::Ident("x".to_string())).unwrap();
    chunk.write_opcode(Opcode::Nil, 3);
    chunk.write_binary(Opcode::GetGlobal, x, 4);
    chunk.write_opcode(Opcode::Return, 5);
    assert_eq!(run(&mut vm, chunk), fault(FaultKind::UndefinedGlobal, 4));
    assert_eq!(vm.stack().len(), 1);
}

#[test]
fn a_global_name_must_be_an_identifier() {
    let mut vm = Vm::new();
    let mut chunk = Chunk::new();
    let s = chunk.add_const(Value::String("x".to_string())).unwrap();
    chunk.write_opcode(Opcode::Nil, 1);
    chunk.write_binary(Opcode::DefineGlobal, s, 2);
    chunk.write_opcode(Opcode::Return, 2);
    assert_eq!(run(&mut vm, chunk), fault(FaultKind::TypeMismatch, 2));
    let mut chunk = Chunk::new();
    let s = chunk.add_const(Value::String("x".to_string())).unwrap();
    chunk.write_binary(Opcode::GetGlobal, s, 7);
    assert_eq!(run(&mut vm, chunk), fault(FaultKind::TypeMismatch, 7));
}

#[test]
fn type_mismatch_leaves_the_stack_alone() {
    let mut vm = Vm::new();
    let mut chunk = Chunk::new();
    chunk.write_opcode(Opcode::True, 1);
    chunk.write_opcode(Opcode::Negate, 2);
    chunk.write_opcode(Opcode::Return, 3);
    assert_eq!(run(&mut vm, chunk), fault(FaultKind::TypeMismatch, 2));
    assert_eq!(vm.stack().len(), 1);
    assert!(top_bool(&vm));

    let (vm, r) = binary(&[Opcode::Add], Value::Number(num(1.0)), Value::Nil);
    assert_eq!(r, fault(FaultKind::TypeMismatch, 1));
    assert_eq!(vm.stack().len(), 2);
    let (_, r) = binary(
        &[Opcode::Multiply],
        Value::String("a".to_string()),
        Value::Number(num(2.0)),
    );
    assert_eq!(r, fault(FaultKind::TypeMismatch, 1));
}

#[test]
fn stack_underflow() {
    for op in [
        Opcode::Pop,
        Opcode::Print,
        Opcode::Negate,
        Opcode::Not,
        Opcode::Add,
        Opcode::Equal,
        Opcode::And,
    ] {
        let mut vm = Vm::new();
        let mut chunk = Chunk::new();
        chunk.write_opcode(op, 9);
        chunk.write_opcode(Opcode::Return, 9);
        assert_eq!(run(&mut vm, chunk), fault(FaultKind::StackUnderflow, 9));
    }
    let mut vm = Vm::new();
    let mut chunk = Chunk::new();
    chunk.write_opcode(Opcode::Nil, 1);
    chunk.write_opcode(Opcode::Add, 2);
    assert_eq!(run(&mut vm, chunk), fault(FaultKind::StackUnderflow, 2));
    assert_eq!(vm.stack().len(), 1);

    let mut vm = Vm::new();
    let mut chunk = Chunk::new();
    let x = chunk.add_const(Value::Ident("x".to_string())).unwrap();
    chunk.write_binary(Opcode::DefineGlobal, x, 1);
    assert_eq!(run(&mut vm, chunk), fault(FaultKind::StackUnderflow, 1));
}

#[test]
fn invalid_opcode() {
    let mut vm = Vm::new();
    let mut chunk = Chunk::new();
    chunk.write_opcode(Opcode::Nil, 1);
    chunk.write(200, 2);
    assert_eq!(run(&mut vm, chunk), fault(FaultKind::InvalidOpcode, 2));
    let mut chunk = Chunk::new();
    chunk.write_opcode(Opcode::Invalid, 4);
    assert_eq!(run(&mut vm, chunk), fault(FaultKind::InvalidOpcode, 4));
}

#[test]
fn running_off_the_end_is_a_fault() {
    let mut vm = Vm::new();
    assert_eq!(run(&mut vm, Chunk::new()), fault(FaultKind::InvalidOpcode, 0));
    let mut chunk = Chunk::new();
    chunk.write_opcode(Opcode::Nil, 1);
    assert_eq!(run(&mut vm, chunk), fault(FaultKind::InvalidOpcode, 0));
    assert_eq!(vm.stack().len(), 1);
}

#[test]
fn an_operand_must_name_a_constant() {
    let mut vm = Vm::new();
    let mut chunk = Chunk::new();
    chunk.write_opcode(Opcode::Constant, 3);
    assert_eq!(run(&mut vm, chunk), fault(FaultKind::InvalidOpcode, 3));
    let mut chunk = Chunk::new();
    chunk.add_const(Value::Nil).unwrap();
    chunk.write_binary(Opcode::Constant, 1, 3);
    chunk.write_opcode(Opcode::Return, 3);
    assert_eq!(run(&mut vm, chunk), fault(FaultKind::InvalidOpcode, 3));
    let mut chunk = Chunk::new();
    chunk.write_binary(Opcode::GetGlobal, 0, 5);
    assert_eq!(run(&mut vm, chunk), fault(FaultKind::InvalidOpcode, 5));
    assert!(vm.stack().is_empty());
}

#[test]
fn return_stops_the_run() {
    let mut vm = Vm::new();
    let mut chunk = Chunk::new();
    chunk.write_opcode(Opcode::True, 1);
    chunk.write_opcode(Opcode::Return, 1);
    chunk.write_opcode(Opcode::Pop, 1);
    chunk.write_opcode(Opcode::Pop, 1);
    assert_eq!(run(&mut vm, chunk), InterpretResult::Finished);
    assert_eq!(vm.stack().len(), 1);
}

#[test]
fn chunk_reads_what_was_written() {
    let mut chunk = Chunk::new();
    assert_eq!(chunk.len(), 0);
    chunk.write(7, 10);
    chunk.write_opcode(Opcode::Add, 11);
    chunk.write_binary(Opcode::Constant, 9, 12);
    assert_eq!(chunk.len(), 4);
    assert_eq!(chunk.read(0), 7);
    assert_eq!(chunk.read(1), 3);
    assert_eq!(chunk.read(2), 1);
    assert_eq!(chunk.read(3), 9);
    assert_eq!(chunk.read_opcode(0), Opcode::Nil);
    assert_eq!(chunk.read_opcode(1), Opcode::Add);
    assert_eq!(chunk.read_opcode(2), Opcode::Constant);
    assert_eq!(
        (chunk.line(0), chunk.line(1), chunk.line(2), chunk.line(3), chunk.line(4)),
        (10, 11, 12, 12, 0)
    );
}

#[test]
fn constants_are_numbered_from_zero() {
    let mut chunk = Chunk::new();
    assert_eq!(chunk.add_const(Value::Nil), Ok(0));
    assert_eq!(chunk.add_const(Value::Bool(true)), Ok(1));
    assert_eq!(chunk.add_const(Value::Number(num(2.0))), Ok(2));
    assert_eq!(chunk.constants_len(), 3);
    assert!(chunk.read_val(0).equals(&Value::Nil));
    assert!(chunk.read_val(1).equals(&Value::Bool(true)));
    assert!(chunk.read_val(2).equals(&Value::Number(num(2.0))));
}

#[test]
fn the_pool_holds_256_constants() {
    let mut chunk = Chunk::new();
    for i in 0..256usize {
        assert_eq!(chunk.add_const(Value::Number(num(i as f64))), Ok(i as u8));
    }
    assert_eq!(chunk.add_const(Value::Nil), Err(ChunkError::TooManyConstants));
    assert_eq!(chunk.add_const(Value::Nil), Err(ChunkError::TooManyConstants));
    assert_eq!(chunk.constants_len(), 256);
    assert!(chunk.read_val(255).equals(&Value::Number(num(255.0))));
}

#[test]
fn status_follows_the_run() {
    let mut vm = Vm::new();
    assert_eq!(vm.status(), Status::Idle);
    let mut chunk = Chunk::new();
    chunk.write_opcode(Opcode::Return, 1);
    assert_eq!(run(&mut vm, chunk), InterpretResult::Finished);
    assert_eq!(vm.status(), Status::Halted(InterpretResult::Finished));
    let mut chunk = Chunk::new();
    chunk.write_opcode(Opcode::Pop, 8);
    let result = run(&mut vm, chunk);
    assert_eq!(result, fault(FaultKind::StackUnderflow, 8));
    assert_eq!(vm.status(), Status::Halted(result));
}
