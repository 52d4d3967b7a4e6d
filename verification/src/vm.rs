use vstd::prelude::*;
use crate::chunk::{Chunk, ChunkView};
use crate::globals::Globals;
use crate::host::{arith_total, format_total, serves, Numerics};
use crate::opcode::Opcode;
use crate::parser::texts;
use crate::value::{views, ArithOp, Number, Value, ValueView};

verus! {

/// Why a program could not go on.
#[derive(Debug, Clone, Copy, PartialEq, Eq, Structural)]
pub enum FaultKind {
    /// An operand was of the wrong kind, or two numbers could not be
    /// ordered.
    TypeMismatch,
    /// A global variable was read that had not been defined.
    UndefinedGlobal,
    /// The stack held fewer values than the instruction needs.
    StackUnderflow,
    /// There was no instruction to run: a byte that encodes none, the end of
    /// the code, or an operand that names no constant.
    InvalidOpcode,
}

/// A fault, with the source line of the instruction that caused it.
#[derive(Debug, Clone, Copy, PartialEq, Eq, Structural)]
pub struct Fault {
    pub kind: FaultKind,
    pub line: u32,
}

/// How an attempt to run a program ended.
#[derive(Debug, Clone, Copy, PartialEq, Eq, Structural)]
pub enum InterpretResult {
    /// The program ran to a `Return`.
    Finished,
    /// The program was not run because it did not compile.
    CompileError,
    /// The program stopped at an instruction that could not be carried out.
    RuntimeError(Fault),
}

/// Where a machine stands: it has run nothing yet, it is running, or its
/// last run has ended.
#[derive(Debug, Clone, Copy, PartialEq, Eq, Structural)]
pub enum Status {
    Idle,
    Running,
    Halted(InterpretResult),
}

/// The mathematical content of a [`Vm`].
pub struct MachineView {
    pub status: Status,
    pub chunk: ChunkView,
    pub stack: Seq<ValueView>,
    pub pc: int,
    pub globals: Map<Seq<char>, ValueView>,
    /// The lines printed so far, oldest first.
    pub output: Seq<Seq<char>>,
}

/// What one instruction does to the machine.
pub enum Step {
    /// The instruction was carried out and the next one is due.
    Next(MachineView),
    /// The instruction was `Return`.
    Halt(MachineView),
    /// The instruction could not be carried out; the machine stays as it
    /// was.
    Fault(FaultKind),
}

/// The result of an instruction that takes one operand from the stack;
/// `None` where the operand is of the wrong kind.
pub open spec fn unary_result(op: Opcode, a: ValueView) -> Option<ValueView> {
    match op {
        Opcode::Negate => a.negated(),
        Opcode::Not => Some(a.inverted()),
        _ => None,
    }
}

/// The result of an instruction that takes two operands from the stack, `a`
/// pushed before `b`; `None` where the operands are of the wrong kind.
/// `And` and `Or` get both operands evaluated: `And` gives `b` if `a` is
/// truthy and `false` if not, `Or` gives `true` if `a` is truthy and `b` if
/// not.
pub open spec fn binary_result(op: Opcode, a: ValueView, b: ValueView, host: Numerics) -> Option<
    ValueView,
> {
    match op {
        Opcode::Add => a.plus(b, host.arith, host.format),
        Opcode::Subtract => a.combined(ArithOp::Subtract, b, host.arith),
        Opcode::Multiply => a.combined(ArithOp::Multiply, b, host.arith),
        Opcode::Divide => a.combined(ArithOp::Divide, b, host.arith),
        Opcode::Equal => Some(ValueView::Bool(a.same(b))),
        Opcode::Greater => match b.below(a) {
            Some(r) => Some(ValueView::Bool(r)),
            None => None,
        },
        Opcode::Lesser => match a.below(b) {
            Some(r) => Some(ValueView::Bool(r)),
            None => None,
        },
        Opcode::And => Some(
            if a.truthy() {
                b
            } else {
                ValueView::Bool(false)
            },
        ),
        Opcode::Or => Some(
            if a.truthy() {
                ValueView::Bool(true)
            } else {
                b
            },
        ),
        _ => None,
    }
}

/// Whether an instruction takes one operand from the stack and pushes a
/// result.
pub open spec fn is_unary(op: Opcode) -> bool {
    op == Opcode::Negate || op == Opcode::Not
}

/// Whether an instruction takes two operands from the stack and pushes a
/// result.
pub open spec fn is_binary(op: Opcode) -> bool {
    op == Opcode::Add || op == Opcode::Subtract || op == Opcode::Multiply || op == Opcode::Divide
        || op == Opcode::Equal || op == Opcode::Greater || op == Opcode::Lesser || op
        == Opcode::And || op == Opcode::Or
}

impl MachineView {
    /// The instruction at the program counter; `Invalid` past the end of the
    /// code.
    pub open spec fn opcode(self) -> Opcode {
        if 0 <= self.pc < self.chunk.code.len() {
            Opcode::decode(self.chunk.code[self.pc])
        } else {
            Opcode::Invalid
        }
    }

    /// The constant that the operand of the instruction names, if there is
    /// an operand and it names one.
    pub open spec fn constant(self) -> Option<ValueView> {
        if 0 <= self.pc && self.pc + 1 < self.chunk.code.len() && self.chunk.code[self.pc + 1]
            < self.chunk.constants.len() {
            Some(self.chunk.constants[self.chunk.code[self.pc + 1] as int])
        } else {
            None
        }
    }

    /// The value on top of the stack.
    pub open spec fn top(self) -> ValueView {
        self.stack.last()
    }

    /// The machine behind an instruction of `width` bytes that took `taken`
    /// values from the stack and pushed `value`.
    pub open spec fn replaced(self, width: int, taken: int, value: ValueView) -> MachineView {
        MachineView {
            pc: self.pc + width,
            stack: self.stack.take(self.stack.len() - taken).push(value),
            ..self
        }
    }

    /// The machine behind an instruction of one byte that took the top of
    /// the stack and pushed nothing.
    pub open spec fn dropped(self) -> MachineView {
        MachineView { pc: self.pc + 1, stack: self.stack.drop_last(), ..self }
    }

    /// What the instruction at the program counter does.
    pub open spec fn step(self, host: Numerics) -> Step {
        let op = self.opcode();
        if op == Opcode::Invalid {
            Step::Fault(FaultKind::InvalidOpcode)
        } else if op == Opcode::Return {
            Step::Halt(MachineView { pc: self.pc + 1, ..self })
        } else if op == Opcode::Constant {
            match self.constant() {
                None => Step::Fault(FaultKind::InvalidOpcode),
                Some(value) => Step::Next(self.replaced(2, 0, value)),
            }
        } else if op == Opcode::Nil {
            Step::Next(self.replaced(1, 0, ValueView::Nil))
        } else if op == Opcode::True {
            Step::Next(self.replaced(1, 0, ValueView::Bool(true)))
        } else if op == Opcode::False {
            Step::Next(self.replaced(1, 0, ValueView::Bool(false)))
        } else if is_unary(op) {
            if self.stack.len() < 1 {
                Step::Fault(FaultKind::StackUnderflow)
            } else {
                match unary_result(op, self.top()) {
                    None => Step::Fault(FaultKind::TypeMismatch),
                    Some(value) => Step::Next(self.replaced(1, 1, value)),
                }
            }
        } else if is_binary(op) {
            if self.stack.len() < 2 {
                Step::Fault(FaultKind::StackUnderflow)
            } else {
                match binary_result(op, self.stack[self.stack.len() - 2], self.top(), host) {
                    None => Step::Fault(FaultKind::TypeMismatch),
                    Some(value) => Step::Next(self.replaced(1, 2, value)),
                }
            }
        } else if op == Opcode::Print {
            if self.stack.len() < 1 {
                Step::Fault(FaultKind::StackUnderflow)
            } else {
                Step::Next(
                    MachineView {
                        output: self.output.push(self.top().shown(host.format)),
                        ..self.dropped()
                    },
                )
            }
        } else if op == Opcode::Pop {
            if self.stack.len() < 1 {
                Step::Fault(FaultKind::StackUnderflow)
            } else {
                Step::Next(self.dropped())
            }
        } else if op == Opcode::DefineGlobal {
            match self.constant() {
                None => Step::Fault(FaultKind::InvalidOpcode),
                Some(ValueView::Ident(name)) => if self.stack.len() < 1 {
                    Step::Fault(FaultKind::StackUnderflow)
                } else {
                    Step::Next(
                        MachineView {
                            pc: self.pc + 2,
                            globals: self.globals.insert(name, self.top()),
                            ..self
                        },
                    )
                },
                Some(_) => Step::Fault(FaultKind::TypeMismatch),
            }
        } else {
            match self.constant() {
                None => Step::Fault(FaultKind::InvalidOpcode),
                Some(ValueView::Ident(name)) => if self.globals.contains_key(name) {
                    Step::Next(self.replaced(2, 0, self.globals[name]))
                } else {
                    Step::Fault(FaultKind::UndefinedGlobal)
                },
                Some(_) => Step::Fault(FaultKind::TypeMismatch),
            }
        }
    }

    /// The fault of kind `kind` at the instruction at the program counter.
    pub open spec fn fault(self, kind: FaultKind) -> Fault {
        Fault { kind, line: self.chunk.line_at(self.pc) }
    }

    /// The machine at the end of a run, and how the run ended.
    pub open spec fn halted(self, result: InterpretResult) -> (MachineView, InterpretResult) {
        (MachineView { status: Status::Halted(result), ..self }, result)
    }

    /// The machine after it has run from the program counter on, and how
    /// the run ended: at a `Return`, or with the fault of the first
    /// instruction that could not be carried out.
    pub open spec fn run(self, host: Numerics) -> (MachineView, InterpretResult)
        decreases self.chunk.code.len() - self.pc,
    {
        match self.step(host) {
            Step::Fault(kind) => self.halted(InterpretResult::RuntimeError(self.fault(kind))),
            Step::Halt(after) => after.halted(InterpretResult::Finished),
            Step::Next(after) => after.run(host),
        }
    }

    /// The machine with `chunk` loaded and the program counter at its
    /// start, about to run. Stack, globals and output stay.
    pub open spec fn load(self, chunk: ChunkView) -> MachineView {
        MachineView { status: Status::Running, chunk, pc: 0, ..self }
    }

    /// A machine that has run nothing yet.
    pub open spec fn fresh() -> MachineView {
        MachineView {
            status: Status::Idle,
            chunk: ChunkView::empty(),
            stack: Seq::empty(),
            pc: 0,
            globals: Map::empty(),
            output: Seq::empty(),
        }
    }
}

/// What the machine is to do after an instruction.
enum Flow {
    Next,
    Halt,
    Fault(FaultKind),
}

/// Whether `flow` and the machine `after` are what `step` asks for from the
/// machine `before`.
spec fn obeys(step: Step, before: MachineView, flow: Flow, after: MachineView) -> bool {
    match step {
        Step::Next(m) => flow is Next && after == m,
        Step::Halt(m) => flow is Halt && after == m,
        Step::Fault(kind) => flow == Flow::Fault(kind) && after == before,
    }
}

/// A stack-based virtual machine: it owns a value stack, the table of
/// global variables and the lines that the program has printed.
pub struct Vm {
    status: Status,
    chunk: Chunk,
    stack: Vec<Value>,
    pc: usize,
    globals: Globals,
    output: Vec<String>,
}

impl View for Vm {
    type V = MachineView;

    closed spec fn view(&self) -> MachineView {
        MachineView {
            status: self.status,
            chunk: self.chunk@,
            stack: views(self.stack@),
            pc: self.pc as int,
            globals: self.globals@,
            output: texts(self.output@),
        }
    }
}

impl Vm {
    /// A machine with an empty stack, no globals and no output.
    pub fn new() -> (vm: Vm)
        ensures
            vm@ == MachineView::fresh(),
    {
        let vm = Vm {
            status: Status::Idle,
            chunk: Chunk::new(),
            stack: Vec::new(),
            pc: 0,
            globals: Globals::new(),
            output: Vec::new(),
        };
        assert(views(vm.stack@) =~= Seq::empty());
        assert(texts(vm.output@) =~= Seq::empty());
        vm
    }

    /// Runs `chunk` from its first instruction until a `Return`, or until an
    /// instruction cannot be carried out; stack, globals and output then
    /// stay as that instruction found them. In either case the machine is
    /// halted with the result that is returned. The stack, the globals and
    /// the output of earlier runs are kept. Numbers are combined by `arith`
    /// and turned into text by `format`.
    pub fn interpret<A: Fn(ArithOp, Number, Number) -> Number, F: Fn(Number) -> String>(
        &mut self,
        chunk: Chunk,
        arith: &A,
        format: &F,
    ) -> (result: InterpretResult)
        requires
            arith_total(*arith),
            format_total(*format),
        ensures
            forall|host: Numerics| #[trigger]
                serves(*arith, *format, host) ==> (final(self)@, result) == old(self)@.load(
                    chunk@,
                ).run(host),
            result != InterpretResult::CompileError,
    {
        self.status = Status::Running;
        self.chunk = chunk;
        self.pc = 0;
        self.run(arith, format)
    }

    fn run<A: Fn(ArithOp, Number, Number) -> Number, F: Fn(Number) -> String>(
        &mut self,
        arith: &A,
        format: &F,
    ) -> (result: InterpretResult)
        requires
            arith_total(*arith),
            format_total(*format),
        ensures
            forall|host: Numerics| #[trigger]
                serves(*arith, *format, host) ==> (final(self)@, result) == old(self)@.run(host),
            result != InterpretResult::CompileError,
    {
        loop
            invariant
                arith_total(*arith),
                format_total(*format),
                forall|host: Numerics| #[trigger]
                    serves(*arith, *format, host) ==> self@.run(host) == old(self)@.run(host),
            decreases self@.chunk.code.len() - self@.pc,
        {
            match self.step(arith, format) {
                Flow::Next => {},
                Flow::Halt => {
                    let result = InterpretResult::Finished;
                    self.status = Status::Halted(result);
                    return result;
                },
                Flow::Fault(kind) => {
                    let result = InterpretResult::RuntimeError(
                        Fault { kind, line: self.chunk.line(self.pc) },
                    );
                    self.status = Status::Halted(result);
                    return result;
                },
            }
        }
    }

    /// Where the machine stands.
    pub fn status(&self) -> (status: Status)
        ensures
            status == self@.status,
    {
        self.status
    }

    /// The value stack, the top last.
    pub fn stack(&self) -> (values: &Vec<Value>)
        ensures
            views(values@) == self@.stack,
    {
        &self.stack
    }

    /// The lines that programs have printed on this machine, oldest first.
    pub fn output(&self) -> (lines: &Vec<String>)
        ensures
            texts(lines@) == self@.output,
    {
        &self.output
    }

    /// Hands out the lines printed so far and forgets them.
    pub fn take_output(&mut self) -> (lines: Vec<String>)
        ensures
            texts(lines@) == old(self)@.output,
            final(self)@ == (MachineView { output: Seq::empty(), ..old(self)@ }),
    {
        let mut lines: Vec<String> = Vec::new();
        core::mem::swap(&mut lines, &mut self.output);
        assert(texts(self.output@) =~= Seq::empty());
        lines
    }

    /// The value of the global variable `name`, if it is defined.
    pub fn global(&self, name: &str) -> (value: Option<&Value>)
        ensures
            value is Some <==> self@.globals.contains_key(name@),
            value is Some ==> value->0@ == self@.globals[name@],
    {
        let key = name.to_owned();
        self.globals.get(&key)
    }

    /// The constant that the operand of the instruction at the program
    /// counter names.
    fn read_constant(&self) -> (value: Option<&Value>)
        ensures
            value is Some <==> self@.constant() is Some,
            value is Some ==> Some(value->0@) == self@.constant(),
    {
        let n = self.chunk.len();
        if self.pc < n && self.pc + 1 < n {
            let addr = self.chunk.read(self.pc + 1);
            if (addr as usize) < self.chunk.constants_len() {
                Some(self.chunk.read_val(addr))
            } else {
                None
            }
        } else {
            None
        }
    }

    fn push(&mut self, value: Value)
        ensures
            final(self)@ == (MachineView { stack: old(self)@.stack.push(value@), ..old(self)@ }),
    {
        self.stack.push(value);
        assert(views(self.stack@) =~= views(old(self).stack@).push(value@));
    }

    fn pop(&mut self) -> (value: Value)
        requires
            old(self)@.stack.len() > 0,
        ensures
            value@ == old(self)@.stack.last(),
            final(self)@ == (MachineView { stack: old(self)@.stack.drop_last(), ..old(self)@ }),
    {
        let value = self.stack.pop().unwrap();
        assert(views(self.stack@) =~= views(old(self).stack@).drop_last());
        value
    }

    /// Replaces the `taken` values on top of the stack by `value` and moves
    /// on by `width` bytes.
    fn replace(&mut self, width: usize, taken: usize, value: Value)
        requires
            taken <= 2,
            taken <= old(self)@.stack.len(),
            old(self)@.pc + width <= old(self)@.chunk.code.len(),
        ensures
            final(self)@ == old(self)@.replaced(width as int, taken as int, value@),
    {
        if taken >= 1 {
            self.pop();
        }
        if taken >= 2 {
            self.pop();
        }
        self.push(value);
        let _ = self.chunk.len();
        self.pc = self.pc + width;
        assert(self@.stack =~= old(self)@.stack.take(old(self)@.stack.len() - taken).push(value@));
    }

    fn unary(&mut self, op: Opcode) -> (flow: Flow)
        requires
            is_unary(op),
            old(self)@.opcode() == op,
        ensures
            forall|host: Numerics| obeys(#[trigger] old(self)@.step(host), old(self)@, flow, final(self)@),
            flow is Next ==> old(self)@.pc < final(self)@.pc <= final(self)@.chunk.code.len(),
            final(self)@.chunk == old(self)@.chunk,
    {
        let n = self.stack.len();
        if n < 1 {
            return Flow::Fault(FaultKind::StackUnderflow);
        }
        let result = match op {
            Opcode::Negate => self.stack[n - 1].neg(),
            _ => Some(self.stack[n - 1].not()),
        };
        match result {
            None => Flow::Fault(FaultKind::TypeMismatch),
            Some(value) => {
                self.replace(1, 1, value);
                Flow::Next
            },
        }
    }

    fn binary<A: Fn(ArithOp, Number, Number) -> Number, F: Fn(Number) -> String>(
        &mut self,
        op: Opcode,
        arith: &A,
        format: &F,
    ) -> (flow: Flow)
        requires
            is_binary(op),
            old(self)@.opcode() == op,
            arith_total(*arith),
            format_total(*format),
        ensures
            forall|host: Numerics| #[trigger]
                serves(*arith, *format, host) ==> obeys(
                    old(self)@.step(host),
                    old(self)@,
                    flow,
                    final(self)@,
                ),
            flow is Next ==> old(self)@.pc < final(self)@.pc <= final(self)@.chunk.code.len(),
            final(self)@.chunk == old(self)@.chunk,
    {
        let n = self.stack.len();
        if n < 2 {
            return Flow::Fault(FaultKind::StackUnderflow);
        }
        let a = &self.stack[n - 2];
        let b = &self.stack[n - 1];
        let result = match op {
            Opcode::Add => a.add(b, arith, format),
            Opcode::Subtract => a.sub(b, arith),
            Opcode::Multiply => a.mul(b, arith),
            Opcode::Divide => a.div(b, arith),
            Opcode::Equal => Some(Value::Bool(a.equals(b))),
            Opcode::Greater => match a.greater(b) {
                Some(r) => Some(Value::Bool(r)),
                None => None,
            },
            Opcode::Lesser => match a.less(b) {
                Some(r) => Some(Value::Bool(r)),
                None => None,
            },
            Opcode::And => Some(
                if a.truthy() {
                    b.duplicate()
                } else {
                    Value::Bool(false)
                },
            ),
            _ => Some(
                if a.truthy() {
                    Value::Bool(true)
                } else {
                    b.duplicate()
                },
            ),
        };
        match result {
            None => Flow::Fault(FaultKind::TypeMismatch),
            Some(value) => {
                self.replace(1, 2, value);
                Flow::Next
            },
        }
    }

    /// Carries out the instruction at the program counter.
    fn step<A: Fn(ArithOp, Number, Number) -> Number, F: Fn(Number) -> String>(
        &mut self,
        arith: &A,
        format: &F,
    ) -> (flow: Flow)
        requires
            arith_total(*arith),
            format_total(*format),
        ensures
            forall|host: Numerics| #[trigger]
                serves(*arith, *format, host) ==> obeys(
                    old(self)@.step(host),
                    old(self)@,
                    flow,
                    final(self)@,
                ),
            flow is Next ==> old(self)@.pc < final(self)@.pc <= final(self)@.chunk.code.len(),
            final(self)@.chunk == old(self)@.chunk,
    {
        if self.pc >= self.chunk.len() {
            return Flow::Fault(FaultKind::InvalidOpcode);
        }
        let opcode = self.chunk.read_opcode(self.pc);
        match opcode {
            Opcode::Invalid => Flow::Fault(FaultKind::InvalidOpcode),
            Opcode::Return => {
                self.pc = self.pc + 1;
                Flow::Halt
            },
            Opcode::Constant => {
                let value = match self.read_constant() {
                    None => {
                        return Flow::Fault(FaultKind::InvalidOpcode);
                    },
                    Some(constant) => constant.duplicate(),
                };
                self.replace(2, 0, value);
                Flow::Next
            },
            Opcode::Nil => {
                self.replace(1, 0, Value::Nil);
                Flow::Next
            },
            Opcode::True => {
                self.replace(1, 0, Value::Bool(true));
                Flow::Next
            },
            Opcode::False => {
                self.replace(1, 0, Value::Bool(false));
                Flow::Next
            },
            Opcode::Negate | Opcode::Not => self.unary(opcode),
            Opcode::Add
            | Opcode::Subtract
            | Opcode::Multiply
            | Opcode::Divide
            | Opcode::Equal
            | Opcode::Greater
            | Opcode::Lesser
            | Opcode::And
            | Opcode::Or => self.binary(opcode, arith, format),
            Opcode::Print => {
                if self.stack.len() < 1 {
                    return Flow::Fault(FaultKind::StackUnderflow);
                }
                let value = self.pop();
                let line = value.display(format);
                self.output.push(line);
                self.pc = self.pc + 1;
                assert(texts(self.output@) =~= texts(old(self).output@).push(line@));
                Flow::Next
            },
            Opcode::Pop => {
                if self.stack.len() < 1 {
                    return Flow::Fault(FaultKind::StackUnderflow);
                }
                self.pop();
                self.pc = self.pc + 1;
                Flow::Next
            },
            Opcode::DefineGlobal => {
                let name = match self.read_constant() {
                    None => {
                        return Flow::Fault(FaultKind::InvalidOpcode);
                    },
                    Some(Value::Ident(name)) => name.clone(),
                    Some(_) => {
                        return Flow::Fault(FaultKind::TypeMismatch);
                    },
                };
                let n = self.stack.len();
                if n < 1 {
                    return Flow::Fault(FaultKind::StackUnderflow);
                }
                let value = self.stack[n - 1].duplicate();
                self.globals.define(name, value);
                self.pc = self.pc + 2;
                Flow::Next
            },
            Opcode::GetGlobal => {
                let name = match self.read_constant() {
                    None => {
                        return Flow::Fault(FaultKind::InvalidOpcode);
                    },
                    Some(Value::Ident(name)) => name,
                    Some(_) => {
                        return Flow::Fault(FaultKind::TypeMismatch);
                    },
                };
                let value = match self.globals.get(name) {
                    None => {
                        return Flow::Fault(FaultKind::UndefinedGlobal);
                    },
                    Some(value) => value.duplicate(),
                };
                self.replace(2, 0, value);
                Flow::Next
            },
        }
    }
}

} // verus!
