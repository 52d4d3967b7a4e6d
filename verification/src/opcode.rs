use vstd::prelude::*;

verus! {

/// One instruction of the virtual machine.
///
/// `Constant`, `DefineGlobal` and `GetGlobal` are followed by one operand
/// byte, an index into the constant pool. `Invalid` stands for every byte
/// that encodes no instruction; the compiler never emits it.
#[derive(Debug, Clone, Copy, PartialEq, Eq, Structural)]
pub enum Opcode {
    Return,
    Constant,
    Negate,
    Add,
    Subtract,
    Multiply,
    Divide,
    Nil,
    True,
    False,
    Not,
    Equal,
    Greater,
    Lesser,
    And,
    Or,
    Print,
    Pop,
    DefineGlobal,
    GetGlobal,
    Invalid,
}

/// The byte that encodes `Invalid`.
pub const INVALID_BYTE: u8 = 255;

/// The number of instructions other than `Invalid`; they are encoded as the
/// bytes below this number.
pub const OPCODE_COUNT: u8 = 20;

impl Opcode {
    /// The byte that encodes this instruction.
    pub open spec fn byte(self) -> u8 {
        match self {
            Opcode::Return => 0,
            Opcode::Constant => 1,
            Opcode::Negate => 2,
            Opcode::Add => 3,
            Opcode::Subtract => 4,
            Opcode::Multiply => 5,
            Opcode::Divide => 6,
            Opcode::Nil => 7,
            Opcode::True => 8,
            Opcode::False => 9,
            Opcode::Not => 10,
            Opcode::Equal => 11,
            Opcode::Greater => 12,
            Opcode::Lesser => 13,
            Opcode::And => 14,
            Opcode::Or => 15,
            Opcode::Print => 16,
            Opcode::Pop => 17,
            Opcode::DefineGlobal => 18,
            Opcode::GetGlobal => 19,
            Opcode::Invalid => 255,
        }
    }

    /// The instruction that a byte encodes: the inverse of [`Opcode::byte`]
    /// on the bytes that it produces, `Invalid` on every other byte.
    pub open spec fn decode(b: u8) -> Opcode {
        if b == 0 {
            Opcode::Return
        } else if b == 1 {
            Opcode::Constant
        } else if b == 2 {
            Opcode::Negate
        } else if b == 3 {
            Opcode::Add
        } else if b == 4 {
            Opcode::Subtract
        } else if b == 5 {
            Opcode::Multiply
        } else if b == 6 {
            Opcode::Divide
        } else if b == 7 {
            Opcode::Nil
        } else if b == 8 {
            Opcode::True
        } else if b == 9 {
            Opcode::False
        } else if b == 10 {
            Opcode::Not
        } else if b == 11 {
            Opcode::Equal
        } else if b == 12 {
            Opcode::Greater
        } else if b == 13 {
            Opcode::Lesser
        } else if b == 14 {
            Opcode::And
        } else if b == 15 {
            Opcode::Or
        } else if b == 16 {
            Opcode::Print
        } else if b == 17 {
            Opcode::Pop
        } else if b == 18 {
            Opcode::DefineGlobal
        } else if b == 19 {
            Opcode::GetGlobal
        } else {
            Opcode::Invalid
        }
    }

    /// The encoded width of this instruction in bytes.
    pub open spec fn width(self) -> nat {
        match self {
            Opcode::Invalid => 0,
            Opcode::Constant | Opcode::DefineGlobal | Opcode::GetGlobal => 2,
            _ => 1,
        }
    }

    /// Encodes this instruction as a byte.
    pub fn to_byte(self) -> (b: u8)
        ensures
            b == self.byte(),
    {
        match self {
            Opcode::Return => 0,
            Opcode::Constant => 1,
            Opcode::Negate => 2,
            Opcode::Add => 3,
            Opcode::Subtract => 4,
            Opcode::Multiply => 5,
            Opcode::Divide => 6,
            Opcode::Nil => 7,
            Opcode::True => 8,
            Opcode::False => 9,
            Opcode::Not => 10,
            Opcode::Equal => 11,
            Opcode::Greater => 12,
            Opcode::Lesser => 13,
            Opcode::And => 14,
            Opcode::Or => 15,
            Opcode::Print => 16,
            Opcode::Pop => 17,
            Opcode::DefineGlobal => 18,
            Opcode::GetGlobal => 19,
            Opcode::Invalid => INVALID_BYTE,
        }
    }

    /// Decodes a byte; a byte that encodes no instruction gives `Invalid`.
    pub fn from_byte(b: u8) -> (op: Opcode)
        ensures
            op == Opcode::decode(b),
    {
        match b {
            0 => Opcode::Return,
            1 => Opcode::Constant,
            2 => Opcode::Negate,
            3 => Opcode::Add,
            4 => Opcode::Subtract,
            5 => Opcode::Multiply,
            6 => Opcode::Divide,
            7 => Opcode::Nil,
            8 => Opcode::True,
            9 => Opcode::False,
            10 => Opcode::Not,
            11 => Opcode::Equal,
            12 => Opcode::Greater,
            13 => Opcode::Lesser,
            14 => Opcode::And,
            15 => Opcode::Or,
            16 => Opcode::Print,
            17 => Opcode::Pop,
            18 => Opcode::DefineGlobal,
            19 => Opcode::GetGlobal,
            _ => Opcode::Invalid,
        }
    }

    /// Decodes a number; one that encodes no instruction gives `Invalid`.
    pub fn from_index(v: usize) -> (op: Opcode)
        ensures
            op == (if v < 256 {
                Opcode::decode(v as u8)
            } else {
                Opcode::Invalid
            }),
    {
        if v < 256 {
            Opcode::from_byte(v as u8)
        } else {
            Opcode::Invalid
        }
    }

    /// The encoded width of this instruction in bytes: 0 for `Invalid`, 2
    /// for the instructions with an operand, 1 for the others.
    pub fn len(&self) -> (n: usize)
        ensures
            n == self.width(),
    {
        match self {
            Opcode::Invalid => 0,
            Opcode::Constant | Opcode::DefineGlobal | Opcode::GetGlobal => 2,
            _ => 1,
        }
    }

    /// Decoding undoes encoding.
    pub proof fn lemma_decode_byte(op: Opcode)
        ensures
            Opcode::decode(op.byte()) == op,
    {
    }

    /// Only the bytes below [`OPCODE_COUNT`] decode to an instruction other
    /// than `Invalid`, and encoding undoes decoding on them.
    pub proof fn lemma_byte_decode(b: u8)
        ensures
            Opcode::decode(b) != Opcode::Invalid <==> b < OPCODE_COUNT,
            b < OPCODE_COUNT ==> Opcode::decode(b).byte() == b,
    {
    }
}

/// Binding strength of an operator, from weakest to strongest.
#[derive(Debug, Clone, Copy, PartialEq, Eq, Structural, PartialOrd, Ord)]
pub enum Precedence {
    Lowest,
    Assignment,
    Or,
    And,
    Equality,
    Comparison,
    Term,
    Factor,
    Unary,
    Call,
    Primary,
}

impl Precedence {
    /// The position of this level among the levels, `Lowest` being 0.
    pub open spec fn level(self) -> nat {
        match self {
            Precedence::Lowest => 0,
            Precedence::Assignment => 1,
            Precedence::Or => 2,
            Precedence::And => 3,
            Precedence::Equality => 4,
            Precedence::Comparison => 5,
            Precedence::Term => 6,
            Precedence::Factor => 7,
            Precedence::Unary => 8,
            Precedence::Call => 9,
            Precedence::Primary => 10,
        }
    }

    /// The level at a position; every position past the last is `Primary`.
    pub open spec fn at_level(n: nat) -> Precedence {
        if n == 0 {
            Precedence::Lowest
        } else if n == 1 {
            Precedence::Assignment
        } else if n == 2 {
            Precedence::Or
        } else if n == 3 {
            Precedence::And
        } else if n == 4 {
            Precedence::Equality
        } else if n == 5 {
            Precedence::Comparison
        } else if n == 6 {
            Precedence::Term
        } else if n == 7 {
            Precedence::Factor
        } else if n == 8 {
            Precedence::Unary
        } else if n == 9 {
            Precedence::Call
        } else {
            Precedence::Primary
        }
    }

    /// The position of this level among the levels.
    pub fn rank(self) -> (n: u8)
        ensures
            n == self.level(),
    {
        match self {
            Precedence::Lowest => 0,
            Precedence::Assignment => 1,
            Precedence::Or => 2,
            Precedence::And => 3,
            Precedence::Equality => 4,
            Precedence::Comparison => 5,
            Precedence::Term => 6,
            Precedence::Factor => 7,
            Precedence::Unary => 8,
            Precedence::Call => 9,
            Precedence::Primary => 10,
        }
    }

    /// The level at a position; every position past the last is `Primary`.
    pub fn from_index(v: usize) -> (p: Precedence)
        ensures
            p == Precedence::at_level(v as nat),
    {
        match v {
            0 => Precedence::Lowest,
            1 => Precedence::Assignment,
            2 => Precedence::Or,
            3 => Precedence::And,
            4 => Precedence::Equality,
            5 => Precedence::Comparison,
            6 => Precedence::Term,
            7 => Precedence::Factor,
            8 => Precedence::Unary,
            9 => Precedence::Call,
            _ => Precedence::Primary,
        }
    }

    /// The next stronger level; `Primary` is its own successor.
    pub fn next(&self) -> (p: Precedence)
        ensures
            p == Precedence::at_level(self.level() + 1),
            self.level() < 10 ==> p.level() == self.level() + 1,
            self.level() == 10 ==> p == Precedence::Primary,
    {
        let n: usize = self.rank() as usize;
        Precedence::from_index(n + 1)
    }

    /// Positions and levels correspond one to one.
    pub proof fn lemma_level_at_level(p: Precedence)
        ensures
            Precedence::at_level(p.level()) == p,
            p.level() <= 10,
    {
    }
}

impl From<u8> for Opcode {
    fn from(v: u8) -> (op: Opcode) {
        Opcode::from_byte(v)
    }
}

impl vstd::std_specs::convert::FromSpecImpl<u8> for Opcode {
    open spec fn obeys_from_spec() -> bool {
        true
    }

    open spec fn from_spec(v: u8) -> Opcode {
        Opcode::decode(v)
    }
}

impl From<usize> for Opcode {
    fn from(v: usize) -> (op: Opcode) {
        Opcode::from_index(v)
    }
}

impl vstd::std_specs::convert::FromSpecImpl<usize> for Opcode {
    open spec fn obeys_from_spec() -> bool {
        true
    }

    open spec fn from_spec(v: usize) -> Opcode {
        if v < 256 {
            Opcode::decode(v as u8)
        } else {
            Opcode::Invalid
        }
    }
}

impl From<Opcode> for u8 {
    fn from(op: Opcode) -> (b: u8) {
        op.to_byte()
    }
}

impl vstd::std_specs::convert::FromSpecImpl<Opcode> for u8 {
    open spec fn obeys_from_spec() -> bool {
        true
    }

    open spec fn from_spec(op: Opcode) -> u8 {
        op.byte()
    }
}

impl From<u8> for Precedence {
    fn from(v: u8) -> (p: Precedence) {
        Precedence::from_index(v as usize)
    }
}

impl vstd::std_specs::convert::FromSpecImpl<u8> for Precedence {
    open spec fn obeys_from_spec() -> bool {
        true
    }

    open spec fn from_spec(v: u8) -> Precedence {
        Precedence::at_level(v as nat)
    }
}

impl From<usize> for Precedence {
    fn from(v: usize) -> (p: Precedence) {
        Precedence::from_index(v)
    }
}

impl vstd::std_specs::convert::FromSpecImpl<usize> for Precedence {
    open spec fn obeys_from_spec() -> bool {
        true
    }

    open spec fn from_spec(v: usize) -> Precedence {
        Precedence::at_level(v as nat)
    }
}

} // verus!
