use vstd::prelude::*;
use vstd::string::StringExecFns;
use crate::chunk::{Chunk, ChunkView, MAX_CONSTANTS};
use crate::host::{parse_total, parse_within};
use crate::opcode::{Opcode, Precedence};
use crate::parser::{Parser, ParserView};
use crate::token::TokenType;
use crate::value::{Number, Value, ValueView};

verus! {

/// What the compiler does when it meets a token at the start of an
/// expression, or between two operands.
#[derive(Debug, Clone, Copy, PartialEq, Eq, Structural)]
pub enum Handler {
    /// A parenthesized expression.
    Grouping,
    /// A prefix operator and its operand.
    Unary,
    /// An infix operator and its right operand.
    Binary,
    /// A number literal.
    Number,
    /// A string literal.
    String,
    /// `nil`, `true` or `false`.
    Literal,
    /// The name of a global variable, read.
    Variable,
    /// `var`, a name, and an initializer if `=` follows.
    Declaration,
}

/// The row of the parse table for one kind of token.
#[derive(Debug, Clone, Copy, PartialEq, Eq, Structural)]
pub struct ParseRule {
    pub prefix: Option<Handler>,
    pub infix: Option<Handler>,
    pub precedence: Precedence,
}

/// What a token of this kind begins, if it can begin an expression.
pub open spec fn prefix_of(kind: TokenType) -> Option<Handler> {
    match kind {
        TokenType::LeftParen => Some(Handler::Grouping),
        TokenType::Minus | TokenType::Bang => Some(Handler::Unary),
        TokenType::Number => Some(Handler::Number),
        TokenType::String => Some(Handler::String),
        TokenType::False | TokenType::Nil | TokenType::True => Some(Handler::Literal),
        TokenType::Identifier => Some(Handler::Variable),
        TokenType::Var => Some(Handler::Declaration),
        _ => None,
    }
}

/// How strongly a token of this kind binds as an infix operator; `Lowest`
/// for a token that is none.
pub open spec fn binding_of(kind: TokenType) -> Precedence {
    match kind {
        TokenType::Minus | TokenType::Plus => Precedence::Term,
        TokenType::Slash | TokenType::Star => Precedence::Factor,
        TokenType::BangEqual | TokenType::EqualEqual => Precedence::Equality,
        TokenType::Greater
        | TokenType::GreaterEqual
        | TokenType::Lesser
        | TokenType::LesserEqual => Precedence::Comparison,
        TokenType::And => Precedence::And,
        TokenType::Or => Precedence::Or,
        _ => Precedence::Lowest,
    }
}

/// The row of the parse table for `kind`: the infix operators are the tokens
/// that bind at all.
pub open spec fn rule_of(kind: TokenType) -> ParseRule {
    ParseRule {
        prefix: prefix_of(kind),
        infix: if binding_of(kind) != Precedence::Lowest {
            Some(Handler::Binary)
        } else {
            None
        },
        precedence: binding_of(kind),
    }
}

/// The instructions that apply the infix operator `kind` to two operands on
/// the stack. `!=`, `>=` and `<=` are the negations of `==`, `<` and `>`.
pub open spec fn binary_code(kind: TokenType) -> Seq<Opcode> {
    match kind {
        TokenType::Plus => seq![Opcode::Add],
        TokenType::Minus => seq![Opcode::Subtract],
        TokenType::Star => seq![Opcode::Multiply],
        TokenType::Slash => seq![Opcode::Divide],
        TokenType::EqualEqual => seq![Opcode::Equal],
        TokenType::BangEqual => seq![Opcode::Equal, Opcode::Not],
        TokenType::Greater => seq![Opcode::Greater],
        TokenType::Lesser => seq![Opcode::Lesser],
        TokenType::GreaterEqual => seq![Opcode::Lesser, Opcode::Not],
        TokenType::LesserEqual => seq![Opcode::Greater, Opcode::Not],
        TokenType::And => seq![Opcode::And],
        TokenType::Or => seq![Opcode::Or],
        _ => seq![],
    }
}

/// The instructions that apply the prefix operator `kind` to the operand on
/// the stack.
pub open spec fn unary_code(kind: TokenType) -> Seq<Opcode> {
    match kind {
        TokenType::Minus => seq![Opcode::Negate],
        TokenType::Bang => seq![Opcode::Not],
        _ => seq![],
    }
}

/// The instructions that push the literal `kind`.
pub open spec fn literal_code(kind: TokenType) -> Seq<Opcode> {
    match kind {
        TokenType::Nil => seq![Opcode::Nil],
        TokenType::True => seq![Opcode::True],
        TokenType::False => seq![Opcode::False],
        _ => seq![],
    }
}

/// The text of a string literal without its quotes.
pub open spec fn unquoted(lexeme: Seq<char>) -> Seq<char> {
    if lexeme.len() >= 2 {
        lexeme.subrange(1, lexeme.len() - 1)
    } else {
        Seq::empty()
    }
}

/// The row of the parse table for one kind of token.
pub fn get_rule(ttype: TokenType) -> (rule: ParseRule)
    ensures
        rule == rule_of(ttype),
{
    let none: Option<Handler> = None;
    let binary = Some(Handler::Binary);
    match ttype {
        TokenType::LeftParen => ParseRule {
            prefix: Some(Handler::Grouping),
            infix: none,
            precedence: Precedence::Lowest,
        },
        TokenType::RightParen => ParseRule { prefix: none, infix: none, precedence: Precedence::Lowest },
        TokenType::LeftBrace => ParseRule { prefix: none, infix: none, precedence: Precedence::Lowest },
        TokenType::RightBrace => ParseRule { prefix: none, infix: none, precedence: Precedence::Lowest },
        TokenType::Comma => ParseRule { prefix: none, infix: none, precedence: Precedence::Lowest },
        TokenType::Dot => ParseRule { prefix: none, infix: none, precedence: Precedence::Lowest },
        TokenType::Minus => ParseRule {
            prefix: Some(Handler::Unary),
            infix: binary,
            precedence: Precedence::Term,
        },
        TokenType::Plus => ParseRule { prefix: none, infix: binary, precedence: Precedence::Term },
        TokenType::Semicolon => ParseRule { prefix: none, infix: none, precedence: Precedence::Lowest },
        TokenType::Slash => ParseRule { prefix: none, infix: binary, precedence: Precedence::Factor },
        TokenType::Star => ParseRule { prefix: none, infix: binary, precedence: Precedence::Factor },
        TokenType::Bang => ParseRule {
            prefix: Some(Handler::Unary),
            infix: none,
            precedence: Precedence::Lowest,
        },
        TokenType::BangEqual => ParseRule {
            prefix: none,
            infix: binary,
            precedence: Precedence::Equality,
        },
        TokenType::Equal => ParseRule { prefix: none, infix: none, precedence: Precedence::Lowest },
        TokenType::EqualEqual => ParseRule {
            prefix: none,
            infix: binary,
            precedence: Precedence::Equality,
        },
        TokenType::Greater => ParseRule {
            prefix: none,
            infix: binary,
            precedence: Precedence::Comparison,
        },
        TokenType::GreaterEqual => ParseRule {
            prefix: none,
            infix: binary,
            precedence: Precedence::Comparison,
        },
        TokenType::Lesser => ParseRule {
            prefix: none,
            infix: binary,
            precedence: Precedence::Comparison,
        },
        TokenType::LesserEqual => ParseRule {
            prefix: none,
            infix: binary,
            precedence: Precedence::Comparison,
        },
        TokenType::Identifier => ParseRule {
            prefix: Some(Handler::Variable),
            infix: none,
            precedence: Precedence::Lowest,
        },
        TokenType::String => ParseRule {
            prefix: Some(Handler::String),
            infix: none,
            precedence: Precedence::Lowest,
        },
        TokenType::Number => ParseRule {
            prefix: Some(Handler::Number),
            infix: none,
            precedence: Precedence::Lowest,
        },
        TokenType::And => ParseRule { prefix: none, infix: binary, precedence: Precedence::And },
        TokenType::Assert => ParseRule { prefix: none, infix: none, precedence: Precedence::Lowest },
        TokenType::Class => ParseRule { prefix: none, infix: none, precedence: Precedence::Lowest },
        TokenType::Else => ParseRule { prefix: none, infix: none, precedence: Precedence::Lowest },
        TokenType::False => ParseRule {
            prefix: Some(Handler::Literal),
            infix: none,
            precedence: Precedence::Lowest,
        },
        TokenType::For => ParseRule { prefix: none, infix: none, precedence: Precedence::Lowest },
        TokenType::Fun => ParseRule { prefix: none, infix: none, precedence: Precedence::Lowest },
        TokenType::If => ParseRule { prefix: none, infix: none, precedence: Precedence::Lowest },
        TokenType::Nil => ParseRule {
            prefix: Some(Handler::Literal),
            infix: none,
            precedence: Precedence::Lowest,
        },
        TokenType::Or => ParseRule { prefix: none, infix: binary, precedence: Precedence::Or },
        TokenType::Print => ParseRule { prefix: none, infix: none, precedence: Precedence::Lowest },
        TokenType::Return => ParseRule { prefix: none, infix: none, precedence: Precedence::Lowest },
        TokenType::Super => ParseRule { prefix: none, infix: none, precedence: Precedence::Lowest },
        TokenType::This => ParseRule { prefix: none, infix: none, precedence: Precedence::Lowest },
        TokenType::True => ParseRule {
            prefix: Some(Handler::Literal),
            infix: none,
            precedence: Precedence::Lowest,
        },
        TokenType::Var => ParseRule {
            prefix: Some(Handler::Declaration),
            infix: none,
            precedence: Precedence::Lowest,
        },
        TokenType::While => ParseRule { prefix: none, infix: none, precedence: Precedence::Lowest },
        TokenType::Error => ParseRule { prefix: none, infix: none, precedence: Precedence::Lowest },
        TokenType::Eof => ParseRule { prefix: none, infix: none, precedence: Precedence::Lowest },
    }
}

/// The mathematical content of a [`Compiler`] at work: the parser and the
/// chunk that is being written.
pub struct CompilerView {
    pub parser: ParserView,
    pub chunk: ChunkView,
}

impl CompilerView {
    /// A measure of the input that is left.
    pub open spec fn remaining(self) -> nat {
        self.parser.remaining()
    }

    /// The same compiler with another chunk.
    pub open spec fn with_chunk(self, chunk: ChunkView) -> CompilerView {
        CompilerView { chunk, ..self }
    }

    /// The same compiler with another parser state.
    pub open spec fn with_parser(self, parser: ParserView) -> CompilerView {
        CompilerView { parser, ..self }
    }

    /// Writes one byte, for the line of the previous token.
    pub open spec fn emit_byte(self, byte: u8) -> CompilerView {
        CompilerView { chunk: self.chunk.write(byte, self.parser.previous.line), ..self }
    }

    /// Writes one instruction without operand.
    pub open spec fn emit_opcode(self, opcode: Opcode) -> CompilerView {
        self.emit_byte(opcode.byte())
    }

    /// Writes some instructions without operand, one after the other.
    pub open spec fn emit_opcodes(self, opcodes: Seq<Opcode>) -> CompilerView
        decreases opcodes.len(),
    {
        if opcodes.len() == 0 {
            self
        } else {
            self.emit_opcodes(opcodes.drop_last()).emit_opcode(opcodes.last())
        }
    }

    /// Puts a constant into the pool and gives its index. Where the pool is
    /// full, an error is reported at the previous token and the index is 0.
    pub open spec fn make_const(self, value: ValueView) -> (CompilerView, u8) {
        if self.chunk.constants.len() < MAX_CONSTANTS {
            (
                CompilerView { chunk: self.chunk.add_const(value), ..self },
                self.chunk.constants.len() as u8,
            )
        } else {
            (self.with_parser(self.parser.error("Too many constants in one chunk."@)), 0u8)
        }
    }

    /// Writes the instruction that pushes `value`: `Constant`, and the index
    /// of the value in the pool.
    pub open spec fn emit_const(self, value: ValueView) -> CompilerView {
        let opened = self.emit_opcode(Opcode::Constant);
        let (stored, index) = opened.make_const(value);
        stored.emit_byte(index)
    }

    /// Reads one expression whose operators bind at least as strongly as
    /// `prec`: a token that begins an expression and what belongs to it,
    /// then every infix operator of that strength with its right operand.
    /// A token that begins no expression is reported.
    ///
    /// The comparison of what is left of the input is always true, as
    /// `lemma_parse_precedence_grows` shows; it is there to show that the
    /// definition ends.
    #[verifier::opaque]
    pub open spec fn parse_precedence(
        self,
        prec: Precedence,
        parse: spec_fn(Seq<char>) -> Number,
    ) -> CompilerView
        decreases self.parser.remaining(), 0nat,
    {
        let moved = self.with_parser(self.parser.advance());
        match prefix_of(moved.parser.previous.kind) {
            None => moved.with_parser(moved.parser.error("Expect expression."@)),
            Some(handler) => {
                proof {
                    self.parser.lemma_advance();
                }
                let operand = moved.apply(handler, parse);
                if operand.parser.remaining() < self.parser.remaining() {
                    operand.infix_loop(prec, parse)
                } else {
                    operand
                }
            },
        }
    }

    /// Reads infix operators that bind at least as strongly as `prec`, each
    /// with its right operand, as long as one follows.
    ///
    /// The comparison of what is left of the input is always true, as
    /// `lemma_infix_loop_grows` shows; it is there to show that the
    /// definition ends.
    #[verifier::opaque]
    pub open spec fn infix_loop(
        self,
        prec: Precedence,
        parse: spec_fn(Seq<char>) -> Number,
    ) -> CompilerView
        decreases self.parser.remaining(), 0nat,
    {
        let rule = rule_of(self.parser.current.kind);
        if rule.infix is Some && prec.level() <= rule.precedence.level() {
            proof {
                self.parser.lemma_advance();
            }
            let moved = self.with_parser(self.parser.advance());
            let applied = moved.apply(rule.infix->0, parse);
            if applied.parser.remaining() < self.parser.remaining() {
                applied.infix_loop(prec, parse)
            } else {
                applied
            }
        } else {
            self
        }
    }

    /// Compiles what the previous token begins, or, for an infix operator,
    /// what it continues.
    #[verifier::opaque]
    pub open spec fn apply(self, handler: Handler, parse: spec_fn(Seq<char>) -> Number) -> CompilerView
        decreases self.parser.remaining(), 1nat,
    {
        match handler {
            Handler::Grouping => {
                let inner = self.parse_precedence(Precedence::Assignment, parse);
                inner.with_parser(
                    inner.parser.consume(TokenType::RightParen, "Expect ')' after expression."@),
                )
            },
            Handler::Unary => {
                let operator = self.parser.previous.kind;
                self.parse_precedence(Precedence::Unary, parse).emit_opcodes(unary_code(operator))
            },
            Handler::Binary => {
                let operator = self.parser.previous.kind;
                let stronger = Precedence::at_level(binding_of(operator).level() + 1);
                self.parse_precedence(stronger, parse).emit_opcodes(binary_code(operator))
            },
            Handler::Number => self.emit_const(
                ValueView::Number(parse(self.parser.previous.lexeme)),
            ),
            Handler::String => self.emit_const(
                ValueView::String(unquoted(self.parser.previous.lexeme)),
            ),
            Handler::Literal => self.emit_opcodes(literal_code(self.parser.previous.kind)),
            Handler::Variable => {
                let (named, index) = self.make_const(ValueView::Ident(self.parser.previous.lexeme));
                named.emit_opcode(Opcode::GetGlobal).emit_byte(index)
            },
            Handler::Declaration => {
                let at_name = self.with_parser(
                    self.parser.consume(TokenType::Identifier, "Expect variable name."@),
                );
                let (named, index) = at_name.make_const(
                    ValueView::Ident(at_name.parser.previous.lexeme),
                );
                proof {
                    self.parser.lemma_advance();
                    named.parser.lemma_advance();
                }
                let valued = if named.parser.current.kind == TokenType::Equal {
                    named.with_parser(named.parser.advance()).parse_precedence(
                        Precedence::Assignment,
                        parse,
                    )
                } else {
                    named.emit_opcode(Opcode::Nil)
                };
                valued.emit_opcode(Opcode::DefineGlobal).emit_byte(index)
            },
        }
    }

    /// Reads one expression.
    pub open spec fn expression(self, parse: spec_fn(Seq<char>) -> Number) -> CompilerView {
        self.parse_precedence(Precedence::Assignment, parse)
    }

    /// Reads what follows `print`: an expression and a semicolon.
    pub open spec fn print_statement(self, parse: spec_fn(Seq<char>) -> Number) -> CompilerView {
        let value = self.expression(parse);
        value.with_parser(
            value.parser.consume(TokenType::Semicolon, "Expected ';' after print statement."@),
        ).emit_opcode(Opcode::Print)
    }

    /// Reads an expression and a semicolon.
    pub open spec fn expression_statement(self, parse: spec_fn(Seq<char>) -> Number) -> CompilerView {
        let value = self.expression(parse);
        value.with_parser(
            value.parser.consume(TokenType::Semicolon, "Expected ';' after expression."@),
        )
    }

    /// Reads one statement.
    pub open spec fn statement(self, parse: spec_fn(Seq<char>) -> Number) -> CompilerView {
        if self.parser.current.kind == TokenType::Print {
            self.with_parser(self.parser.advance()).print_statement(parse)
        } else {
            self.expression_statement(parse)
        }
    }

    /// Reads one statement and, after an error, skips to the start of the
    /// next.
    pub open spec fn declaration(self, parse: spec_fn(Seq<char>) -> Number) -> CompilerView {
        let read = self.statement(parse);
        if read.parser.panicking {
            read.with_parser(read.parser.synchronize())
        } else {
            read
        }
    }

    /// Reads statements up to the end of the input, and moves past it.
    ///
    /// The comparison of what is left of the input is always true, as
    /// `lemma_program_grows` shows; it is there to show that the definition
    /// ends.
    #[verifier::opaque]
    pub open spec fn program(self, parse: spec_fn(Seq<char>) -> Number) -> CompilerView
        decreases self.parser.remaining(),
    {
        if self.parser.current.kind == TokenType::Eof {
            self.with_parser(self.parser.advance())
        } else {
            let read = self.declaration(parse);
            if read.parser.remaining() < self.parser.remaining() {
                read.program(parse)
            } else {
                read
            }
        }
    }

    /// Compiles the whole input and ends the code with `Return`.
    pub open spec fn compile(self, parse: spec_fn(Seq<char>) -> Number) -> CompilerView {
        self.program(parse).emit_opcode(Opcode::Return)
    }
}

/// The compiler for `source` before it has read anything, about to write
/// into `chunk`.
pub open spec fn compiler_for(source: Seq<char>, chunk: ChunkView) -> CompilerView {
    CompilerView { parser: ParserView::start(source), chunk }
}

/// What compiling `source` into an empty chunk gives: the chunk, and in the
/// parser whether an error was found and the diagnostics.
pub open spec fn compiled(source: Seq<char>, parse: spec_fn(Seq<char>) -> Number) -> CompilerView {
    compiler_for(source, ChunkView::empty()).compile(parse)
}

impl CompilerView {
    /// What every step of the compiler keeps: it never leaves more input
    /// than it found, it reports as `reports_into` says, it takes no
    /// constant out of the pool, it writes a line for each byte, and it
    /// leaves code made of whole instructions if it found such code.
    pub open spec fn grows_into(self, after: CompilerView) -> bool {
        &&& self.parser.reports_into(after.parser)
        &&& after.parser.remaining() <= self.parser.remaining()
        &&& after.chunk.constants.len() >= self.chunk.constants.len()
        &&& after.chunk.lines.len() - after.chunk.code.len() == self.chunk.lines.len()
            - self.chunk.code.len()
        &&& self.chunk.instructions_from(0) ==> after.chunk.instructions_from(0)
    }

    /// Whether each of `opcodes` is an instruction without operand.
    pub open spec fn plain(opcodes: Seq<Opcode>) -> bool {
        forall|i: int| 0 <= i < opcodes.len() ==> (#[trigger] opcodes[i]).width() == 1
    }

    /// Writing instructions without operand keeps what `grows_into` says,
    /// and leaves parser and pool alone.
    pub proof fn lemma_emit_opcodes_grows(self, opcodes: Seq<Opcode>)
        requires
            Self::plain(opcodes),
        ensures
            self.grows_into(self.emit_opcodes(opcodes)),
            self.emit_opcodes(opcodes).parser == self.parser,
            self.emit_opcodes(opcodes).chunk.constants == self.chunk.constants,
        decreases opcodes.len(),
    {
        if opcodes.len() > 0 {
            let front = self.emit_opcodes(opcodes.drop_last());
            assert(Self::plain(opcodes.drop_last())) by {
                assert forall|i: int| 0 <= i < opcodes.drop_last().len() implies (
                #[trigger] opcodes.drop_last()[i]).width() == 1 by {
                    assert(opcodes[i].width() == 1);
                }
            }
            self.lemma_emit_opcodes_grows(opcodes.drop_last());
            assert(opcodes[opcodes.len() - 1].width() == 1);
            if front.chunk.instructions_from(0) {
                front.chunk.lemma_write_opcode(opcodes.last(), front.parser.previous.line);
            }
        }
    }

    /// Putting a constant into the pool keeps what `grows_into` says; the
    /// index that it gives names a constant of the pool, and the code and
    /// the tokens of the parser stay as they are.
    pub proof fn lemma_make_const_grows(self, value: ValueView)
        ensures
            self.grows_into(self.make_const(value).0),
            self.make_const(value).1 < self.make_const(value).0.chunk.constants.len(),
            self.make_const(value).0.chunk.code == self.chunk.code,
            self.make_const(value).0.chunk.lines == self.chunk.lines,
            self.make_const(value).0.parser.previous == self.parser.previous,
            self.make_const(value).0.parser.current == self.parser.current,
            self.make_const(value).0.parser.scanner == self.parser.scanner,
    {
        let after = self.make_const(value).0;
        if self.chunk.instructions_from(0) {
            assert(after.chunk.extends(self.chunk));
            after.chunk.lemma_instructions_from_end();
            after.chunk.lemma_extended(self.chunk, 0);
        }
    }

    /// Writing the instruction that pushes a constant keeps what
    /// `grows_into` says, and leaves the tokens of the parser alone.
    pub proof fn lemma_emit_const_grows(self, value: ValueView)
        ensures
            self.grows_into(self.emit_const(value)),
            self.emit_const(value).parser.previous == self.parser.previous,
            self.emit_const(value).parser.current == self.parser.current,
            self.emit_const(value).parser.scanner == self.parser.scanner,
    {
        let line = self.parser.previous.line;
        let opened = self.emit_opcode(Opcode::Constant);
        let (stored, index) = opened.make_const(value);
        let after = stored.emit_byte(index);
        if self.chunk.instructions_from(0) {
            if self.chunk.constants.len() < MAX_CONSTANTS {
                let pooled = self.chunk.add_const(value);
                assert(pooled.extends(self.chunk));
                pooled.lemma_instructions_from_end();
                pooled.lemma_extended(self.chunk, 0);
                pooled.lemma_write_binary(Opcode::Constant, index, line, line);
                assert(after.chunk == pooled.write(Opcode::Constant.byte(), line).write(index, line));
            } else {
                self.chunk.lemma_write_binary(Opcode::Constant, index, line, line);
            }
        }
    }

    /// The definition of `apply`, written out.
    pub proof fn lemma_apply_unfolds(self, handler: Handler, parse: spec_fn(Seq<char>) -> Number)
        ensures
            self.apply(handler, parse) == match handler {
                Handler::Grouping => {
                    let inner = self.parse_precedence(Precedence::Assignment, parse);
                    inner.with_parser(
                        inner.parser.consume(
                            TokenType::RightParen,
                            "Expect ')' after expression."@,
                        ),
                    )
                },
                Handler::Unary => self.parse_precedence(Precedence::Unary, parse).emit_opcodes(
                    unary_code(self.parser.previous.kind),
                ),
                Handler::Binary => self.parse_precedence(
                    Precedence::at_level(binding_of(self.parser.previous.kind).level() + 1),
                    parse,
                ).emit_opcodes(binary_code(self.parser.previous.kind)),
                Handler::Number => self.emit_const(
                    ValueView::Number(parse(self.parser.previous.lexeme)),
                ),
                Handler::String => self.emit_const(
                    ValueView::String(unquoted(self.parser.previous.lexeme)),
                ),
                Handler::Literal => self.emit_opcodes(literal_code(self.parser.previous.kind)),
                Handler::Variable => {
                    let (named, index) = self.make_const(
                        ValueView::Ident(self.parser.previous.lexeme),
                    );
                    named.emit_opcode(Opcode::GetGlobal).emit_byte(index)
                },
                Handler::Declaration => {
                    let at_name = self.with_parser(
                        self.parser.consume(TokenType::Identifier, "Expect variable name."@),
                    );
                    let (named, index) = at_name.make_const(
                        ValueView::Ident(at_name.parser.previous.lexeme),
                    );
                    let valued = if named.parser.current.kind == TokenType::Equal {
                        named.with_parser(named.parser.advance()).parse_precedence(
                            Precedence::Assignment,
                            parse,
                        )
                    } else {
                        named.emit_opcode(Opcode::Nil)
                    };
                    valued.emit_opcode(Opcode::DefineGlobal).emit_byte(index)
                },
            },
    {
        reveal(CompilerView::parse_precedence);
        reveal(CompilerView::infix_loop);
        reveal(CompilerView::apply);
    }

    /// The definition of `parse_precedence`, written out.
    pub proof fn lemma_parse_precedence_unfolds(
        self,
        prec: Precedence,
        parse: spec_fn(Seq<char>) -> Number,
    )
        ensures
            self.parse_precedence(prec, parse) == ({
                let moved = self.with_parser(self.parser.advance());
                match prefix_of(moved.parser.previous.kind) {
                    None => moved.with_parser(moved.parser.error("Expect expression."@)),
                    Some(handler) => {
                        let operand = moved.apply(handler, parse);
                        if operand.parser.remaining() < self.parser.remaining() {
                            operand.infix_loop(prec, parse)
                        } else {
                            operand
                        }
                    },
                }
            }),
    {
        reveal(CompilerView::parse_precedence);
        reveal(CompilerView::infix_loop);
        reveal(CompilerView::apply);
    }

    /// The definition of `infix_loop`, written out.
    pub proof fn lemma_infix_loop_unfolds(
        self,
        prec: Precedence,
        parse: spec_fn(Seq<char>) -> Number,
    )
        ensures
            self.infix_loop(prec, parse) == ({
                let rule = rule_of(self.parser.current.kind);
                if rule.infix is Some && prec.level() <= rule.precedence.level() {
                    let moved = self.with_parser(self.parser.advance());
                    let applied = moved.apply(rule.infix->0, parse);
                    if applied.parser.remaining() < self.parser.remaining() {
                        applied.infix_loop(prec, parse)
                    } else {
                        applied
                    }
                } else {
                    self
                }
            }),
    {
        reveal(CompilerView::parse_precedence);
        reveal(CompilerView::infix_loop);
        reveal(CompilerView::apply);
    }

    /// Compiling what a token begins or continues keeps what `grows_into`
    /// says.
    pub proof fn lemma_apply_grows(self, handler: Handler, parse: spec_fn(Seq<char>) -> Number)
        ensures
            self.grows_into(self.apply(handler, parse)),
        decreases self.parser.remaining(), 1nat,
    {
        self.lemma_apply_unfolds(handler, parse);
        let line = self.parser.previous.line;
        match handler {
            Handler::Grouping => {
                let inner = self.parse_precedence(Precedence::Assignment, parse);
                self.lemma_parse_precedence_grows(Precedence::Assignment, parse);
                inner.parser.lemma_advance();
            },
            Handler::Unary => {
                let operand = self.parse_precedence(Precedence::Unary, parse);
                self.lemma_parse_precedence_grows(Precedence::Unary, parse);
                operand.lemma_emit_opcodes_grows(unary_code(self.parser.previous.kind));
            },
            Handler::Binary => {
                let operator = self.parser.previous.kind;
                let stronger = Precedence::at_level(binding_of(operator).level() + 1);
                let right = self.parse_precedence(stronger, parse);
                self.lemma_parse_precedence_grows(stronger, parse);
                right.lemma_emit_opcodes_grows(binary_code(operator));
            },
            Handler::Number => {
                self.lemma_emit_const_grows(ValueView::Number(parse(self.parser.previous.lexeme)));
            },
            Handler::String => {
                self.lemma_emit_const_grows(
                    ValueView::String(unquoted(self.parser.previous.lexeme)),
                );
            },
            Handler::Literal => {
                self.lemma_emit_opcodes_grows(literal_code(self.parser.previous.kind));
            },
            Handler::Variable => {
                let name = ValueView::Ident(self.parser.previous.lexeme);
                let (named, index) = self.make_const(name);
                self.lemma_make_const_grows(name);
                if named.chunk.instructions_from(0) {
                    named.chunk.lemma_write_binary(Opcode::GetGlobal, index, line, line);
                }
            },
            Handler::Declaration => {
                let at_name = self.with_parser(
                    self.parser.consume(TokenType::Identifier, "Expect variable name."@),
                );
                self.parser.lemma_advance();
                let name = ValueView::Ident(at_name.parser.previous.lexeme);
                let (named, index) = at_name.make_const(name);
                at_name.lemma_make_const_grows(name);
                named.parser.lemma_advance();
                let valued = if named.parser.current.kind == TokenType::Equal {
                    let moved = named.with_parser(named.parser.advance());
                    moved.lemma_parse_precedence_grows(Precedence::Assignment, parse);
                    moved.parse_precedence(Precedence::Assignment, parse)
                } else {
                    named.lemma_emit_opcodes_grows(seq![Opcode::Nil]);
                    lemma_emit_opcodes(named, Opcode::Nil, Opcode::Nil);
                    named.emit_opcode(Opcode::Nil)
                };
                if valued.chunk.instructions_from(0) {
                    valued.chunk.lemma_write_binary(
                        Opcode::DefineGlobal,
                        index,
                        valued.parser.previous.line,
                        valued.parser.previous.line,
                    );
                }
            },
        }
    }

    /// Reading an expression keeps what `grows_into` says, and it leaves
    /// less input unless it began at the end of the input. So the first
    /// comparison in the definition of `parse_precedence` is true.
    pub proof fn lemma_parse_precedence_grows(
        self,
        prec: Precedence,
        parse: spec_fn(Seq<char>) -> Number,
    )
        ensures
            self.grows_into(self.parse_precedence(prec, parse)),
            self.parser.current.kind != TokenType::Eof ==> self.parse_precedence(
                prec,
                parse,
            ).parser.remaining() < self.parser.remaining(),
            prefix_of(self.parser.current.kind) matches Some(handler) ==> self.parse_precedence(
                prec,
                parse,
            ) == self.with_parser(self.parser.advance()).apply(handler, parse).infix_loop(
                prec,
                parse,
            ),
        decreases self.parser.remaining(), 0nat,
    {
        self.lemma_parse_precedence_unfolds(prec, parse);
        self.parser.lemma_advance();
        let moved = self.with_parser(self.parser.advance());
        match prefix_of(moved.parser.previous.kind) {
            None => {},
            Some(handler) => {
                moved.lemma_apply_grows(handler, parse);
                let operand = moved.apply(handler, parse);
                operand.lemma_infix_loop_grows(prec, parse);
            },
        }
    }

    /// Reading infix operators keeps what `grows_into` says. So the
    /// comparison in the definition of `infix_loop` is true.
    pub proof fn lemma_infix_loop_grows(self, prec: Precedence, parse: spec_fn(Seq<char>) -> Number)
        ensures
            self.grows_into(self.infix_loop(prec, parse)),
            rule_of(self.parser.current.kind).infix is Some && prec.level() <= binding_of(
                self.parser.current.kind,
            ).level() ==> self.infix_loop(prec, parse) == self.with_parser(
                self.parser.advance(),
            ).apply(Handler::Binary, parse).infix_loop(prec, parse),
        decreases self.parser.remaining(), 0nat,
    {
        self.lemma_infix_loop_unfolds(prec, parse);
        let rule = rule_of(self.parser.current.kind);
        if rule.infix is Some && prec.level() <= rule.precedence.level() {
            self.parser.lemma_advance();
            let moved = self.with_parser(self.parser.advance());
            moved.lemma_apply_grows(rule.infix->0, parse);
            let applied = moved.apply(rule.infix->0, parse);
            applied.lemma_infix_loop_grows(prec, parse);
        }
    }

    /// Reading a statement and resynchronizing keeps what `grows_into` says,
    /// and it leaves less input unless it began at the end of the input.
    pub proof fn lemma_declaration_grows(self, parse: spec_fn(Seq<char>) -> Number)
        ensures
            self.grows_into(self.declaration(parse)),
            self.parser.current.kind != TokenType::Eof ==> self.declaration(
                parse,
            ).parser.remaining() < self.parser.remaining(),
    {
        self.parser.lemma_advance();
        let read = if self.parser.current.kind == TokenType::Print {
            let moved = self.with_parser(self.parser.advance());
            moved.lemma_parse_precedence_grows(Precedence::Assignment, parse);
            let value = moved.expression(parse);
            value.parser.lemma_advance();
            let ended = value.with_parser(
                value.parser.consume(TokenType::Semicolon, "Expected ';' after print statement."@),
            );
            ended.lemma_emit_opcodes_grows(seq![Opcode::Print]);
            lemma_emit_opcodes(ended, Opcode::Print, Opcode::Print);
            ended.emit_opcode(Opcode::Print)
        } else {
            self.lemma_parse_precedence_grows(Precedence::Assignment, parse);
            let value = self.expression(parse);
            value.parser.lemma_advance();
            value.with_parser(
                value.parser.consume(TokenType::Semicolon, "Expected ';' after expression."@),
            )
        };
        assert(read == self.statement(parse));
        if read.parser.panicking {
            (ParserView { panicking: false, ..read.parser }).lemma_skip_statement();
        }
    }

    /// Reading a program keeps what `grows_into` says, and it ends behind
    /// the end of the input. So the comparison in the definition of
    /// `program` is true.
    pub proof fn lemma_program_grows(self, parse: spec_fn(Seq<char>) -> Number)
        ensures
            self.grows_into(self.program(parse)),
            self.program(parse).parser.previous.kind == TokenType::Eof,
            self.parser.current.kind != TokenType::Eof ==> self.program(parse) == self.declaration(
                parse,
            ).program(parse),
        decreases self.parser.remaining(),
    {
        reveal(CompilerView::program);
        self.parser.lemma_advance();
        if self.parser.current.kind != TokenType::Eof {
            self.lemma_declaration_grows(parse);
            self.declaration(parse).lemma_program_grows(parse);
        }
    }

    /// Compiled code is made of whole instructions up to its last, which is
    /// a `Return`, and each operand in it names a constant: provided that
    /// the code that the chunk held before was made of whole instructions.
    pub proof fn lemma_compile_runs_to_return(self, parse: spec_fn(Seq<char>) -> Number)
        requires
            self.chunk.instructions_from(0),
        ensures
            self.compile(parse).chunk.runs_to_return(0),
            self.compile(parse).chunk.instructions_from(0),
            self.compile(parse).chunk.code.last() == Opcode::Return.byte(),
            self.compile(parse).chunk.well_formed() == self.chunk.well_formed(),
            self.parser.reports_into(self.compile(parse).parser),
            self.compile(parse).parser.previous.kind == TokenType::Eof,
    {
        self.lemma_program_grows(parse);
        let read = self.program(parse);
        read.chunk.lemma_write_return(0, read.parser.previous.line);
        read.chunk.lemma_write_opcode(Opcode::Return, read.parser.previous.line);
    }
}

/// The three ways in which a run of instructions without operand is
/// written: none, one, or two of them.
pub proof fn lemma_emit_opcodes(c: CompilerView, first: Opcode, second: Opcode)
    ensures
        c.emit_opcodes(seq![]) == c,
        c.emit_opcodes(seq![first]) == c.emit_opcode(first),
        c.emit_opcodes(seq![first, second]) == c.emit_opcode(first).emit_opcode(second),
{
    reveal_with_fuel(CompilerView::emit_opcodes, 3);
    assert(seq![first].drop_last() =~= seq![]);
    assert(seq![first, second].drop_last() =~= seq![first]);
}

/// A single-pass compiler: it reads the tokens of a source text and writes
/// bytecode into a chunk as it recognizes the syntax.
pub struct Compiler {
    parser: Parser,
    chunk: Option<Chunk>,
}

impl View for Compiler {
    type V = CompilerView;

    closed spec fn view(&self) -> CompilerView {
        CompilerView {
            parser: self.parser@,
            chunk: match self.chunk {
                Some(chunk) => chunk@,
                None => ChunkView::empty(),
            },
        }
    }
}

impl Compiler {
    /// Whether the compiler holds a chunk.
    pub closed spec fn has_chunk(&self) -> bool {
        self.chunk is Some
    }

    /// A compiler at the start of `source`, without a chunk.
    pub fn new(source: &str) -> (compiler: Compiler)
        ensures
            compiler@ == compiler_for(source@, ChunkView::empty()),
            !compiler.has_chunk(),
    {
        Compiler { parser: Parser::new(source), chunk: None }
    }

    /// Compiles the source into `chunk` and says whether an error was
    /// found. The chunk is complete in either case and ends with `Return`;
    /// after an error it is not meant to be run. Number literals denote what
    /// `parse` gives for them.
    pub fn compile<P: Fn(&str) -> Number>(&mut self, chunk: Chunk, parse: &P) -> (had_error: bool)
        requires
            parse_total(*parse),
        ensures
            final(self).has_chunk(),
            forall|p: spec_fn(Seq<char>) -> Number| #[trigger]
                parse_within(*parse, p) ==> final(self)@ == old(self)@.with_chunk(chunk@).compile(p),
            had_error == final(self)@.parser.had_error,
            chunk@.instructions_from(0) ==> final(self)@.chunk.runs_to_return(0),
            final(self)@.chunk.code.len() > 0 && final(self)@.chunk.code.last()
                == Opcode::Return.byte(),
            old(self)@.parser.reports_into(final(self)@.parser),
            final(self)@.parser.previous.kind == TokenType::Eof,
    {
        self.set_chunk(chunk);
        loop
            invariant_except_break
                self.chunk is Some,
                parse_total(*parse),
                old(self)@.with_chunk(chunk@).grows_into(self@),
                forall|p: spec_fn(Seq<char>) -> Number| #[trigger]
                    parse_within(*parse, p) ==> self@.program(p) == old(self)@.with_chunk(
                        chunk@,
                    ).program(p),
            ensures
                self.chunk is Some,
                old(self)@.with_chunk(chunk@).grows_into(self@),
                self@.parser.previous.kind == TokenType::Eof,
                forall|p: spec_fn(Seq<char>) -> Number| #[trigger]
                    parse_within(*parse, p) ==> self@ == old(self)@.with_chunk(chunk@).program(p),
            decreases self@.parser.remaining(),
        {
            proof {
                reveal(CompilerView::program);
                self@.parser.lemma_advance();
            }
            if self.parser.match_token(TokenType::Eof) {
                break ;
            }
            self.declaration(parse);
        }
        proof {
            if self@.chunk.instructions_from(0) {
                self@.chunk.lemma_write_return(0, self@.parser.previous.line);
            }
        }
        self.end_compiler();
        self.parser.had_error
    }

    /// Gives the compiler the chunk to write into.
    pub fn set_chunk(&mut self, chunk: Chunk)
        ensures
            final(self).has_chunk(),
            final(self)@ == old(self)@.with_chunk(chunk@),
    {
        self.chunk = Some(chunk);
    }

    /// Takes the chunk out of the compiler.
    pub fn take_chunk(&mut self) -> (chunk: Chunk)
        requires
            old(self).has_chunk(),
        ensures
            !final(self).has_chunk(),
            chunk@ == old(self)@.chunk,
            final(self)@ == old(self)@.with_chunk(ChunkView::empty()),
    {
        self.chunk.take().unwrap()
    }

    /// Whether an error has been found.
    pub fn had_error(&self) -> (r: bool)
        ensures
            r == self@.parser.had_error,
    {
        self.parser.had_error
    }

    /// The diagnostics given so far, one line of text for each error.
    pub fn diagnostics(&self) -> (lines: &Vec<String>)
        ensures
            crate::parser::texts(lines@) == self@.parser.diagnostics,
    {
        &self.parser.diagnostics
    }

    fn emit_byte(&mut self, byte: u8)
        requires
            old(self).chunk is Some,
        ensures
            final(self).chunk is Some,
            final(self)@ == old(self)@.emit_byte(byte),
    {
        let line = self.parser.previous.line;
        match &mut self.chunk {
            Some(chunk) => {
                chunk.write(byte, line);
            },
            None => {},
        }
    }

    fn emit_opcode(&mut self, opcode: Opcode)
        requires
            old(self).chunk is Some,
        ensures
            final(self).chunk is Some,
            final(self)@ == old(self)@.emit_opcode(opcode),
            opcode.width() == 1 ==> old(self)@.grows_into(final(self)@),
    {
        proof {
            if opcode.width() == 1 {
                lemma_emit_opcodes(self@, opcode, opcode);
                self@.lemma_emit_opcodes_grows(seq![opcode]);
            }
        }
        let line = self.parser.previous.line;
        match &mut self.chunk {
            Some(chunk) => {
                chunk.write_opcode(opcode, line);
            },
            None => {},
        }
    }

    fn emit_two(&mut self, first: Opcode, second: u8)
        requires
            old(self).chunk is Some,
            first.width() == 2,
            second < old(self)@.chunk.constants.len(),
        ensures
            final(self).chunk is Some,
            final(self)@ == old(self)@.emit_opcode(first).emit_byte(second),
            old(self)@.grows_into(final(self)@),
    {
        proof {
            if self@.chunk.instructions_from(0) {
                self@.chunk.lemma_write_binary(
                    first,
                    second,
                    self@.parser.previous.line,
                    self@.parser.previous.line,
                );
            }
        }
        self.emit_opcode(first);
        self.emit_byte(second);
    }

    fn emit_const(&mut self, value: Value)
        requires
            old(self).chunk is Some,
        ensures
            final(self).chunk is Some,
            final(self)@ == old(self)@.emit_const(value@),
            old(self)@.grows_into(final(self)@),
    {
        proof {
            self@.lemma_emit_const_grows(value@);
        }
        self.emit_opcode(Opcode::Constant);
        let value_index = self.make_const(value);
        self.emit_byte(value_index);
    }

    fn make_const(&mut self, value: Value) -> (index: u8)
        requires
            old(self).chunk is Some,
        ensures
            final(self).chunk is Some,
            (final(self)@, index) == old(self)@.make_const(value@),
            old(self)@.grows_into(final(self)@),
            index < final(self)@.chunk.constants.len(),
    {
        proof {
            self@.lemma_make_const_grows(value@);
        }
        let stored = match &mut self.chunk {
            Some(chunk) => chunk.add_const(value),
            None => Ok(0),
        };
        match stored {
            Ok(index) => index,
            Err(_) => {
                self.parser.error("Too many constants in one chunk.");
                0
            },
        }
    }

    fn end_compiler(&mut self)
        requires
            old(self).chunk is Some,
        ensures
            final(self).chunk is Some,
            final(self)@ == old(self)@.emit_opcode(Opcode::Return),
    {
        self.emit_opcode(Opcode::Return);
    }

    fn parse_precedence<P: Fn(&str) -> Number>(&mut self, prec: Precedence, parse: &P)
        requires
            old(self).chunk is Some,
            parse_total(*parse),
        ensures
            final(self).chunk is Some,
            forall|p: spec_fn(Seq<char>) -> Number| #[trigger]
                parse_within(*parse, p) ==> final(self)@ == old(self)@.parse_precedence(prec, p),
            old(self)@.grows_into(final(self)@),
            old(self)@.parser.current.kind != TokenType::Eof ==> final(self)@.parser.remaining()
                < old(self)@.parser.remaining(),
        decreases old(self)@.parser.remaining(), 0nat,
    {
        proof {
            old(self)@.parser.lemma_advance();
        }
        self.parser.advance();
        let prefix_rule = get_rule(self.parser.previous.token_type).prefix;
        match prefix_rule {
            None => {
                self.parser.error("Expect expression.");
                proof {
                    assert forall|p: spec_fn(Seq<char>) -> Number| #[trigger]
                        parse_within(*parse, p) implies self@ == old(self)@.parse_precedence(
                        prec,
                        p,
                    ) by {
                        old(self)@.lemma_parse_precedence_unfolds(prec, p);
                    }
                }
            },
            Some(handler) => {
                self.apply(handler, parse);
                proof {
                    assert forall|p: spec_fn(Seq<char>) -> Number| #[trigger]
                        parse_within(*parse, p) implies self@.infix_loop(prec, p) == old(
                        self,
                    )@.parse_precedence(prec, p) by {
                        old(self)@.lemma_parse_precedence_unfolds(prec, p);
                    }
                }
                loop
                    invariant_except_break
                        self.chunk is Some,
                        parse_total(*parse),
                        old(self)@.grows_into(self@),
                        self@.parser.remaining() < old(self)@.parser.remaining(),
                        forall|p: spec_fn(Seq<char>) -> Number| #[trigger]
                            parse_within(*parse, p) ==> self@.infix_loop(prec, p) == old(
                                self,
                            )@.parse_precedence(prec, p),
                    ensures
                        self.chunk is Some,
                        old(self)@.grows_into(self@),
                        self@.parser.remaining() < old(self)@.parser.remaining(),
                        forall|p: spec_fn(Seq<char>) -> Number| #[trigger]
                            parse_within(*parse, p) ==> self@ == old(self)@.parse_precedence(
                                prec,
                                p,
                            ),
                    decreases self@.parser.remaining(),
                {
                    let ghost before = self@;
                    // We keep going as long as operators follow that bind at least
                    // as strongly as `prec`, as `*` does in `3 + 4 * 2`.
                    let rule = get_rule(self.parser.current.token_type);
                    match rule.infix {
                        Some(infix_rule) if prec.rank() <= rule.precedence.rank() => {
                            proof {
                                self@.parser.lemma_advance();
                            }
                            self.parser.advance();
                            self.apply(infix_rule, parse);
                            proof {
                                assert forall|p: spec_fn(Seq<char>) -> Number| #[trigger]
                                    parse_within(*parse, p) implies self@.infix_loop(prec, p)
                                    == old(self)@.parse_precedence(prec, p) by {
                                    before.lemma_infix_loop_unfolds(prec, p);
                                }
                            }
                        },
                        _ => {
                            proof {
                                assert forall|p: spec_fn(Seq<char>) -> Number| #[trigger]
                                    parse_within(*parse, p) implies self@ == old(
                                    self,
                                )@.parse_precedence(prec, p) by {
                                    before.lemma_infix_loop_unfolds(prec, p);
                                }
                            }
                            break ;
                        },
                    }
                }
            },
        }
    }

    fn apply<P: Fn(&str) -> Number>(&mut self, handler: Handler, parse: &P)
        requires
            old(self).chunk is Some,
            parse_total(*parse),
        ensures
            final(self).chunk is Some,
            forall|p: spec_fn(Seq<char>) -> Number| #[trigger]
                parse_within(*parse, p) ==> final(self)@ == old(self)@.apply(handler, p),
            old(self)@.grows_into(final(self)@),
        decreases old(self)@.parser.remaining(), 2nat,
    {
        match handler {
            Handler::Grouping => self.grouping(parse),
            Handler::Unary => self.unary(parse),
            Handler::Binary => self.binary(parse),
            Handler::Number => self.number(parse),
            Handler::String => self.string(),
            Handler::Literal => self.literal(),
            Handler::Variable => self.variable(),
            Handler::Declaration => self.var_declaration(parse),
        }
    }

    /// A program is a sequence of declarations; after an error the compiler
    /// skips to the start of the next one.
    fn declaration<P: Fn(&str) -> Number>(&mut self, parse: &P)
        requires
            old(self).chunk is Some,
            parse_total(*parse),
        ensures
            final(self).chunk is Some,
            forall|p: spec_fn(Seq<char>) -> Number| #[trigger]
                parse_within(*parse, p) ==> final(self)@ == old(self)@.declaration(p),
            old(self)@.grows_into(final(self)@),
            old(self)@.parser.current.kind != TokenType::Eof ==> final(self)@.parser.remaining()
                < old(self)@.parser.remaining(),
    {
        self.statement(parse);
        if self.parser.panicking {
            proof {
                (ParserView { panicking: false, ..self@.parser }).lemma_skip_statement();
            }
            self.parser.synchronize();
        }
    }

    /// A statement is a print statement or an expression statement.
    fn statement<P: Fn(&str) -> Number>(&mut self, parse: &P)
        requires
            old(self).chunk is Some,
            parse_total(*parse),
        ensures
            final(self).chunk is Some,
            forall|p: spec_fn(Seq<char>) -> Number| #[trigger]
                parse_within(*parse, p) ==> final(self)@ == old(self)@.statement(p),
            old(self)@.grows_into(final(self)@),
            old(self)@.parser.current.kind != TokenType::Eof ==> final(self)@.parser.remaining()
                < old(self)@.parser.remaining(),
    {
        proof {
            old(self)@.parser.lemma_advance();
        }
        if self.parser.match_token(TokenType::Print) {
            self.print_statement(parse);
        } else {
            self.expression_statement(parse);
        }
    }

    fn print_statement<P: Fn(&str) -> Number>(&mut self, parse: &P)
        requires
            old(self).chunk is Some,
            parse_total(*parse),
        ensures
            final(self).chunk is Some,
            forall|p: spec_fn(Seq<char>) -> Number| #[trigger]
                parse_within(*parse, p) ==> final(self)@ == old(self)@.print_statement(p),
            old(self)@.grows_into(final(self)@),
    {
        self.expression(parse);
        proof {
            self@.parser.lemma_advance();
        }
        self.parser.consume(TokenType::Semicolon, "Expected ';' after print statement.");
        self.emit_opcode(Opcode::Print);
    }

    fn expression_statement<P: Fn(&str) -> Number>(&mut self, parse: &P)
        requires
            old(self).chunk is Some,
            parse_total(*parse),
        ensures
            final(self).chunk is Some,
            forall|p: spec_fn(Seq<char>) -> Number| #[trigger]
                parse_within(*parse, p) ==> final(self)@ == old(self)@.expression_statement(p),
            old(self)@.grows_into(final(self)@),
            old(self)@.parser.current.kind != TokenType::Eof ==> final(self)@.parser.remaining()
                < old(self)@.parser.remaining(),
    {
        self.expression(parse);
        proof {
            self@.parser.lemma_advance();
        }
        self.parser.consume(TokenType::Semicolon, "Expected ';' after expression.");
    }

    fn number<P: Fn(&str) -> Number>(&mut self, parse: &P)
        requires
            old(self).chunk is Some,
            parse_total(*parse),
        ensures
            final(self).chunk is Some,
            forall|p: spec_fn(Seq<char>) -> Number| #[trigger]
                parse_within(*parse, p) ==> final(self)@ == old(self)@.apply(Handler::Number, p),
            old(self)@.grows_into(final(self)@),
    {
        let value = parse(self.parser.previous.lexeme.as_str());
        self.emit_const(Value::Number(value));
        proof {
            assert forall|p: spec_fn(Seq<char>) -> Number| #[trigger]
                parse_within(*parse, p) implies self@ == old(self)@.apply(Handler::Number, p) by {
                old(self)@.lemma_apply_unfolds(Handler::Number, p);
            }
        }
    }

    fn string(&mut self)
        requires
            old(self).chunk is Some,
        ensures
            final(self).chunk is Some,
            forall|p: spec_fn(Seq<char>) -> Number|
                final(self)@ == #[trigger] old(self)@.apply(Handler::String, p),
            old(self)@.grows_into(final(self)@),
    {
        let lexeme = self.parser.previous.lexeme.as_str();
        let length = lexeme.unicode_len();
        let value = if length >= 2 {
            String::from_str(lexeme.substring_char(1, length - 1))
        } else {
            String::new()
        };
        self.emit_const(Value::String(value));
        proof {
            assert forall|p: spec_fn(Seq<char>) -> Number|
                self@ == #[trigger] old(self)@.apply(Handler::String, p) by {
                old(self)@.lemma_apply_unfolds(Handler::String, p);
            }
        }
    }

    fn expression<P: Fn(&str) -> Number>(&mut self, parse: &P)
        requires
            old(self).chunk is Some,
            parse_total(*parse),
        ensures
            final(self).chunk is Some,
            forall|p: spec_fn(Seq<char>) -> Number| #[trigger]
                parse_within(*parse, p) ==> final(self)@ == old(self)@.expression(p),
            old(self)@.grows_into(final(self)@),
            old(self)@.parser.current.kind != TokenType::Eof ==> final(self)@.parser.remaining()
                < old(self)@.parser.remaining(),
    {
        self.parse_precedence(Precedence::Assignment, parse);
    }

    fn grouping<P: Fn(&str) -> Number>(&mut self, parse: &P)
        requires
            old(self).chunk is Some,
            parse_total(*parse),
        ensures
            final(self).chunk is Some,
            forall|p: spec_fn(Seq<char>) -> Number| #[trigger]
                parse_within(*parse, p) ==> final(self)@ == old(self)@.apply(Handler::Grouping, p),
            old(self)@.grows_into(final(self)@),
        decreases old(self)@.parser.remaining(), 1nat,
    {
        self.parse_precedence(Precedence::Assignment, parse);
        proof {
            self@.parser.lemma_advance();
        }
        self.parser.consume(TokenType::RightParen, "Expect ')' after expression.");
        proof {
            assert forall|p: spec_fn(Seq<char>) -> Number| #[trigger]
                parse_within(*parse, p) implies self@ == old(self)@.apply(Handler::Grouping, p) by {
                old(self)@.lemma_apply_unfolds(Handler::Grouping, p);
            }
        }
    }

    fn unary<P: Fn(&str) -> Number>(&mut self, parse: &P)
        requires
            old(self).chunk is Some,
            parse_total(*parse),
        ensures
            final(self).chunk is Some,
            forall|p: spec_fn(Seq<char>) -> Number| #[trigger]
                parse_within(*parse, p) ==> final(self)@ == old(self)@.apply(Handler::Unary, p),
            old(self)@.grows_into(final(self)@),
        decreases old(self)@.parser.remaining(), 1nat,
    {
        let op_type = self.parser.previous.token_type;
        self.parse_precedence(Precedence::Unary, parse);
        proof {
            lemma_emit_opcodes(self@, Opcode::Negate, Opcode::Not);
            lemma_emit_opcodes(self@, Opcode::Not, Opcode::Not);
        }
        match op_type {
            TokenType::Minus => self.emit_opcode(Opcode::Negate),
            TokenType::Bang => self.emit_opcode(Opcode::Not),
            _ => {},
        }
        proof {
            assert forall|p: spec_fn(Seq<char>) -> Number| #[trigger]
                parse_within(*parse, p) implies self@ == old(self)@.apply(Handler::Unary, p) by {
                old(self)@.lemma_apply_unfolds(Handler::Unary, p);
            }
        }
    }

    fn binary<P: Fn(&str) -> Number>(&mut self, parse: &P)
        requires
            old(self).chunk is Some,
            parse_total(*parse),
        ensures
            final(self).chunk is Some,
            forall|p: spec_fn(Seq<char>) -> Number| #[trigger]
                parse_within(*parse, p) ==> final(self)@ == old(self)@.apply(Handler::Binary, p),
            old(self)@.grows_into(final(self)@),
        decreases old(self)@.parser.remaining(), 1nat,
    {
        let op_type = self.parser.previous.token_type;
        let next_prec = get_rule(op_type).precedence.next();
        self.parse_precedence(next_prec, parse);
        proof {
            lemma_emit_opcodes(self@, Opcode::Add, Opcode::Not);
            lemma_emit_opcodes(self@, Opcode::Subtract, Opcode::Not);
            lemma_emit_opcodes(self@, Opcode::Multiply, Opcode::Not);
            lemma_emit_opcodes(self@, Opcode::Divide, Opcode::Not);
            lemma_emit_opcodes(self@, Opcode::Equal, Opcode::Not);
            lemma_emit_opcodes(self@, Opcode::Greater, Opcode::Not);
            lemma_emit_opcodes(self@, Opcode::Lesser, Opcode::Not);
            lemma_emit_opcodes(self@, Opcode::And, Opcode::Not);
            lemma_emit_opcodes(self@, Opcode::Or, Opcode::Not);
        }
        match op_type {
            TokenType::Plus => self.emit_opcode(Opcode::Add),
            TokenType::Minus => self.emit_opcode(Opcode::Subtract),
            TokenType::Star => self.emit_opcode(Opcode::Multiply),
            TokenType::Slash => self.emit_opcode(Opcode::Divide),
            TokenType::EqualEqual => self.emit_opcode(Opcode::Equal),
            TokenType::BangEqual => {
                self.emit_opcode(Opcode::Equal);
                self.emit_opcode(Opcode::Not);
            },
            TokenType::Greater => self.emit_opcode(Opcode::Greater),
            TokenType::Lesser => self.emit_opcode(Opcode::Lesser),
            TokenType::GreaterEqual => {
                self.emit_opcode(Opcode::Lesser);
                self.emit_opcode(Opcode::Not);
            },
            TokenType::LesserEqual => {
                self.emit_opcode(Opcode::Greater);
                self.emit_opcode(Opcode::Not);
            },
            TokenType::And => self.emit_opcode(Opcode::And),
            TokenType::Or => self.emit_opcode(Opcode::Or),
            _ => {},
        }
        proof {
            assert forall|p: spec_fn(Seq<char>) -> Number| #[trigger]
                parse_within(*parse, p) implies self@ == old(self)@.apply(Handler::Binary, p) by {
                old(self)@.lemma_apply_unfolds(Handler::Binary, p);
            }
        }
    }

    fn literal(&mut self)
        requires
            old(self).chunk is Some,
        ensures
            final(self).chunk is Some,
            forall|p: spec_fn(Seq<char>) -> Number|
                final(self)@ == #[trigger] old(self)@.apply(Handler::Literal, p),
            old(self)@.grows_into(final(self)@),
    {
        let op_type = self.parser.previous.token_type;
        proof {
            lemma_emit_opcodes(self@, Opcode::Nil, Opcode::Not);
            lemma_emit_opcodes(self@, Opcode::True, Opcode::Not);
            lemma_emit_opcodes(self@, Opcode::False, Opcode::Not);
        }
        match op_type {
            TokenType::Nil => self.emit_opcode(Opcode::Nil),
            TokenType::True => self.emit_opcode(Opcode::True),
            TokenType::False => self.emit_opcode(Opcode::False),
            _ => {},
        }
        proof {
            assert forall|p: spec_fn(Seq<char>) -> Number|
                self@ == #[trigger] old(self)@.apply(Handler::Literal, p) by {
                old(self)@.lemma_apply_unfolds(Handler::Literal, p);
            }
        }
    }

    /// Reads the global variable that the previous token names.
    fn variable(&mut self)
        requires
            old(self).chunk is Some,
        ensures
            final(self).chunk is Some,
            forall|p: spec_fn(Seq<char>) -> Number|
                final(self)@ == #[trigger] old(self)@.apply(Handler::Variable, p),
            old(self)@.grows_into(final(self)@),
    {
        let name = self.parser.previous.lexeme.clone();
        let index = self.make_const(Value::Ident(name));
        self.emit_two(Opcode::GetGlobal, index);
        proof {
            assert forall|p: spec_fn(Seq<char>) -> Number|
                self@ == #[trigger] old(self)@.apply(Handler::Variable, p) by {
                old(self)@.lemma_apply_unfolds(Handler::Variable, p);
            }
        }
    }

    /// Defines a global variable: the name, then the initializer if `=`
    /// follows and `nil` if not. The value stays on the stack.
    fn var_declaration<P: Fn(&str) -> Number>(&mut self, parse: &P)
        requires
            old(self).chunk is Some,
            parse_total(*parse),
        ensures
            final(self).chunk is Some,
            forall|p: spec_fn(Seq<char>) -> Number| #[trigger]
                parse_within(*parse, p) ==> final(self)@ == old(self)@.apply(
                    Handler::Declaration,
                    p,
                ),
            old(self)@.grows_into(final(self)@),
        decreases old(self)@.parser.remaining(), 1nat,
    {
        proof {
            old(self)@.parser.lemma_advance();
        }
        self.parser.consume(TokenType::Identifier, "Expect variable name.");
        let name = self.parser.previous.lexeme.clone();
        let index = self.make_const(Value::Ident(name));
        proof {
            self@.parser.lemma_advance();
        }
        if self.parser.match_token(TokenType::Equal) {
            self.parse_precedence(Precedence::Assignment, parse);
        } else {
            self.emit_opcode(Opcode::Nil);
        }
        self.emit_two(Opcode::DefineGlobal, index);
        proof {
            assert forall|p: spec_fn(Seq<char>) -> Number| #[trigger]
                parse_within(*parse, p) implies self@ == old(self)@.apply(
                Handler::Declaration,
                p,
            ) by {
                old(self)@.lemma_apply_unfolds(Handler::Declaration, p);
            }
        }
    }
}

} // verus!
