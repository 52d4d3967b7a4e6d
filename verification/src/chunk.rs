use vstd::prelude::*;
use crate::opcode::Opcode;
use crate::value::{views, Value, ValueView};

verus! {

/// The greatest number of constants that a chunk can hold: an instruction
/// names a constant with a single byte.
pub const MAX_CONSTANTS: usize = 256;

/// Why a chunk refused a constant.
#[derive(Debug, Clone, Copy, PartialEq, Eq, Structural)]
pub enum ChunkError {
    /// The pool already holds [`MAX_CONSTANTS`] constants.
    TooManyConstants,
}

/// A compiled program: the instruction bytes, the source line of each byte,
/// and the pool of constants that the instructions refer to.
pub struct Chunk {
    /// Each byte of code with its source line.
    code: Vec<(u8, u32)>,
    values: Vec<Value>,
}

/// The mathematical content of a [`Chunk`].
pub struct ChunkView {
    pub code: Seq<u8>,
    pub lines: Seq<u32>,
    pub constants: Seq<ValueView>,
}

impl ChunkView {
    /// Every byte has its line.
    pub open spec fn well_formed(self) -> bool {
        self.lines.len() == self.code.len()
    }

    /// The chunk with one more byte, written for source line `line`.
    pub open spec fn write(self, byte: u8, line: u32) -> ChunkView {
        ChunkView { code: self.code.push(byte), lines: self.lines.push(line), ..self }
    }

    /// The chunk with one more constant.
    pub open spec fn add_const(self, value: ValueView) -> ChunkView {
        ChunkView { constants: self.constants.push(value), ..self }
    }

    /// The line of the byte at `offset`, 0 where there is no such byte.
    pub open spec fn line_at(self, offset: int) -> u32 {
        if 0 <= offset < self.lines.len() {
            self.lines[offset]
        } else {
            0
        }
    }

    /// Whether a whole instruction begins at `at`: a byte that encodes an
    /// instruction and, where the instruction has an operand, a byte behind
    /// it that names a constant of the pool.
    pub open spec fn instruction_at(self, at: int) -> bool {
        let op = Opcode::decode(self.code[at]);
        &&& 0 <= at < self.code.len()
        &&& op != Opcode::Invalid
        &&& op.width() == 2 ==> at + 1 < self.code.len() && self.code[at + 1]
            < self.constants.len()
    }

    /// Whether the code from `from` on is made of whole instructions.
    #[verifier::opaque]
    pub open spec fn instructions_from(self, from: int) -> bool
        decreases self.code.len() - from,
    {
        if from >= self.code.len() {
            from == self.code.len()
        } else if self.instruction_at(from) {
            self.instructions_from(from + Opcode::decode(self.code[from]).width())
        } else {
            false
        }
    }

    /// Whether the code from `from` on is made of whole instructions up to
    /// a `Return`.
    #[verifier::opaque]
    pub open spec fn runs_to_return(self, from: int) -> bool
        decreases self.code.len() - from,
    {
        if self.instruction_at(from) {
            Opcode::decode(self.code[from]) == Opcode::Return || self.runs_to_return(
                from + Opcode::decode(self.code[from]).width(),
            )
        } else {
            false
        }
    }

    /// Whether `self` begins with the code of `before` and has at least its
    /// constants.
    pub open spec fn extends(self, before: ChunkView) -> bool {
        &&& before.code.len() <= self.code.len()
        &&& forall|i: int| 0 <= i < before.code.len() ==> self.code[i] == before.code[i]
        &&& before.constants.len() <= self.constants.len()
    }

    /// Code made of whole instructions stays so when whole instructions are
    /// put behind it and constants into the pool.
    pub proof fn lemma_extended(self, before: ChunkView, from: int)
        requires
            0 <= from,
            before.instructions_from(from),
            self.extends(before),
            self.instructions_from(before.code.len() as int),
        ensures
            self.instructions_from(from),
        decreases before.code.len() - from,
    {
        reveal(ChunkView::instructions_from);
        if from < before.code.len() {
            let op = Opcode::decode(before.code[from]);
            assert(before.instruction_at(from));
            assert(self.code[from] == before.code[from]);
            if op.width() == 2 {
                assert(self.code[from + 1] == before.code[from + 1]);
            }
            assert(self.instruction_at(from));
            self.lemma_extended(before, from + op.width());
        }
    }

    /// An instruction without operand may follow whole instructions.
    pub proof fn lemma_write_opcode(self, op: Opcode, line: u32)
        requires
            self.instructions_from(0),
            op.width() == 1,
        ensures
            self.write(op.byte(), line).instructions_from(0),
            self.write(op.byte(), line).extends(self),
    {
        reveal(ChunkView::instructions_from);
        let after = self.write(op.byte(), line);
        Opcode::lemma_decode_byte(op);
        assert(after.instruction_at(self.code.len() as int));
        assert(after.instructions_from((self.code.len() + 1) as int));
        after.lemma_extended(self, 0);
    }

    /// An instruction with an operand that names a constant may follow whole
    /// instructions.
    pub proof fn lemma_write_binary(self, op: Opcode, operand: u8, first: u32, second: u32)
        requires
            self.instructions_from(0),
            op.width() == 2,
            operand < self.constants.len(),
        ensures
            self.write(op.byte(), first).write(operand, second).instructions_from(0),
            self.write(op.byte(), first).write(operand, second).extends(self),
    {
        reveal(ChunkView::instructions_from);
        let after = self.write(op.byte(), first).write(operand, second);
        Opcode::lemma_decode_byte(op);
        assert(after.instruction_at(self.code.len() as int));
        assert(after.instructions_from((self.code.len() + 2) as int));
        after.lemma_extended(self, 0);
    }

    /// Behind whole instructions, a `Return` is reached from each of them.
    pub proof fn lemma_write_return(self, from: int, line: u32)
        requires
            0 <= from,
            self.instructions_from(from),
        ensures
            self.write(Opcode::Return.byte(), line).runs_to_return(from),
        decreases self.code.len() - from,
    {
        reveal(ChunkView::instructions_from);
        reveal(ChunkView::runs_to_return);
        let after = self.write(Opcode::Return.byte(), line);
        if from < self.code.len() {
            let op = Opcode::decode(self.code[from]);
            assert(self.instruction_at(from));
            assert(after.code[from] == self.code[from]);
            if op.width() == 2 {
                assert(after.code[from + 1] == self.code[from + 1]);
            }
            assert(after.instruction_at(from));
            self.lemma_write_return(from + op.width(), line);
        } else {
            assert(after.instruction_at(from));
        }
    }

    /// Code is made of whole instructions from its end on, so the empty
    /// code is.
    pub proof fn lemma_instructions_from_end(self)
        ensures
            self.instructions_from(self.code.len() as int),
    {
        reveal(ChunkView::instructions_from);
    }

    /// Where the code is made of whole instructions up to a `Return`, a
    /// whole instruction begins, and unless it is a `Return`, the code
    /// behind it is made of whole instructions up to a `Return` too.
    pub proof fn lemma_runs_to_return(self, from: int)
        requires
            self.runs_to_return(from),
        ensures
            self.instruction_at(from),
            Opcode::decode(self.code[from]) != Opcode::Return ==> self.runs_to_return(
                from + Opcode::decode(self.code[from]).width(),
            ),
    {
        reveal(ChunkView::runs_to_return);
    }

    /// The empty chunk.
    pub open spec fn empty() -> ChunkView {
        ChunkView { code: Seq::empty(), lines: Seq::empty(), constants: Seq::empty() }
    }
}

impl View for Chunk {
    type V = ChunkView;

    closed spec fn view(&self) -> ChunkView {
        ChunkView {
            code: self.code@.map_values(|e: (u8, u32)| e.0),
            lines: self.code@.map_values(|e: (u8, u32)| e.1),
            constants: views(self.values@),
        }
    }
}

impl Chunk {
    /// Every chunk is well formed.
    pub proof fn lemma_well_formed(self)
        ensures
            self@.well_formed(),
    {
    }

    /// An empty chunk.
    pub fn new() -> (chunk: Chunk)
        ensures
            chunk@ == ChunkView::empty(),
    {
        let chunk = Chunk { code: Vec::new(), values: Vec::new() };
        assert(chunk@.constants =~= Seq::empty());
        assert(chunk@.code =~= Seq::empty());
        assert(chunk@.lines =~= Seq::empty());
        chunk
    }

    /// The byte at `addr`.
    pub fn read(&self, addr: usize) -> (byte: u8)
        requires
            addr < self@.code.len(),
        ensures
            byte == self@.code[addr as int],
    {
        self.code[addr].0
    }

    /// The instruction that the byte at `addr` encodes.
    pub fn read_opcode(&self, addr: usize) -> (op: Opcode)
        requires
            addr < self@.code.len(),
        ensures
            op == Opcode::decode(self@.code[addr as int]),
    {
        Opcode::from_byte(self.code[addr].0)
    }

    /// The constant at `addr`.
    pub fn read_val(&self, addr: u8) -> (value: &Value)
        requires
            addr < self@.constants.len(),
        ensures
            value@ == self@.constants[addr as int],
    {
        &self.values[addr as usize]
    }

    /// The source line of the byte at `offset`, 0 where there is no such
    /// byte.
    pub fn line(&self, offset: usize) -> (line: u32)
        ensures
            line == self@.line_at(offset as int),
    {
        if offset < self.code.len() {
            self.code[offset].1
        } else {
            0
        }
    }

    /// Appends an instruction without operand.
    pub fn write_opcode(&mut self, opcode: Opcode, line: u32)
        ensures
            final(self)@ == old(self)@.write(opcode.byte(), line),
    {
        self.write(opcode.to_byte(), line);
    }

    /// Appends one byte, written for source line `line`.
    pub fn write(&mut self, byte: u8, line: u32)
        ensures
            final(self)@ == old(self)@.write(byte, line),
    {
        self.code.push((byte, line));
        assert(self@.code =~= old(self)@.code.push(byte));
        assert(self@.lines =~= old(self)@.lines.push(line));
    }

    /// Appends an instruction and its operand byte.
    pub fn write_binary(&mut self, o: Opcode, b: u8, line: u32)
        ensures
            final(self)@ == old(self)@.write(o.byte(), line).write(b, line),
    {
        self.write_opcode(o, line);
        self.write(b, line);
    }

    /// Appends a constant to the pool and returns its index. A pool that
    /// holds [`MAX_CONSTANTS`] constants is full: the chunk then stays as it
    /// is.
    pub fn add_const(&mut self, val: Value) -> (r: Result<u8, ChunkError>)
        ensures
            old(self)@.constants.len() < MAX_CONSTANTS ==> r == Ok::<u8, ChunkError>(
                old(self)@.constants.len() as u8,
            ) && final(self)@ == old(self)@.add_const(val@),
            old(self)@.constants.len() >= MAX_CONSTANTS ==> r == Err::<u8, ChunkError>(
                ChunkError::TooManyConstants,
            ) && final(self)@ == old(self)@,
    {
        let n = self.values.len();
        if n >= MAX_CONSTANTS {
            return Err(ChunkError::TooManyConstants);
        }
        self.values.push(val);
        assert(views(self.values@) =~= views(old(self).values@).push(val@));
        Ok(n as u8)
    }

    /// The number of bytes of code.
    pub fn len(&self) -> (n: usize)
        ensures
            n == self@.code.len(),
            self@.well_formed(),
    {
        self.code.len()
    }

    /// The number of constants in the pool.
    pub fn constants_len(&self) -> (n: usize)
        ensures
            n == self@.constants.len(),
    {
        self.values.len()
    }
}

} // verus!
