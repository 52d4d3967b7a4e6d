use vstd::prelude::*;
use vstd::string::StringExecFns;
use crate::scanner::{lemma_scan_moves, Scanner, ScannerView};
use crate::text::{decimal, push_decimal};
use crate::token::{Token, TokenType, TokenView};

verus! {

/// The parser's view of the token stream: the token to be read next, the
/// token read last, and the diagnostics given so far.
pub struct Parser {
    pub scanner: Scanner,
    pub current: Token,
    pub previous: Token,
    pub had_error: bool,
    pub panicking: bool,
    /// One line of text for each error reported, oldest first.
    pub diagnostics: Vec<String>,
}

/// The mathematical content of a [`Parser`].
pub struct ParserView {
    pub scanner: ScannerView,
    pub current: TokenView,
    pub previous: TokenView,
    pub had_error: bool,
    pub panicking: bool,
    pub diagnostics: Seq<Seq<char>>,
}

/// Which of the parser's two tokens an error is reported at.
#[derive(Debug, Clone, Copy, PartialEq, Eq, Structural)]
enum ErrorPoint {
    Current,
    Previous,
}

/// The texts of a sequence of strings.
pub open spec fn texts(lines: Seq<String>) -> Seq<Seq<char>> {
    lines.map_values(|s: String| s@)
}

impl View for Parser {
    type V = ParserView;

    open spec fn view(&self) -> ParserView {
        ParserView {
            scanner: self.scanner@,
            current: self.current@,
            previous: self.previous@,
            had_error: self.had_error,
            panicking: self.panicking,
            diagnostics: texts(self.diagnostics@),
        }
    }
}

/// The message with which an error token is reported.
pub open spec fn error_token_message() -> Seq<char> {
    "Encountered error token."@
}

/// The line of text that reports `message` at `token`:
/// `[line N] Error`, then ` at end` for the end of input, nothing for an
/// error token and ` at '<lexeme>'` for every other token, then `: ` and the
/// message.
pub open spec fn diagnostic(token: TokenView, message: Seq<char>) -> Seq<char> {
    let head = "[line "@ + decimal(token.line as nat) + "] Error"@;
    let place = match token.kind {
        TokenType::Eof => " at end"@,
        TokenType::Error => Seq::empty(),
        _ => " at '"@ + token.lexeme + "'"@,
    };
    head + place + ": "@ + message
}

/// Whether a statement can begin with a token of this kind.
pub open spec fn starts_statement(kind: TokenType) -> bool {
    kind == TokenType::Class || kind == TokenType::Fun || kind == TokenType::Var || kind
        == TokenType::For || kind == TokenType::If || kind == TokenType::While || kind
        == TokenType::Print || kind == TokenType::Return
}

impl ParserView {
    /// The parser at the start of `source`: the first token is read as it
    /// comes, and the token before it is an end-of-input token on line 1.
    pub open spec fn start(source: Seq<char>) -> ParserView {
        let scanner = ScannerView { text: source, pos: 0, line: 1 };
        ParserView {
            scanner: scanner.after_token(),
            current: scanner.token(),
            previous: TokenView { kind: TokenType::Eof, lexeme: Seq::empty(), line: 1 },
            had_error: false,
            panicking: false,
            diagnostics: Seq::empty(),
        }
    }

    /// A measure of the input that is left: the characters not yet scanned,
    /// and one more while the current token is not the end of input.
    pub open spec fn remaining(self) -> nat {
        let unread: nat = if self.scanner.pos < self.scanner.text.len() {
            (self.scanner.text.len() - self.scanner.pos) as nat
        } else {
            0
        };
        if self.current.kind != TokenType::Eof {
            unread + 1
        } else {
            unread
        }
    }

    /// Reports `message` at `token`, unless an earlier error still awaits
    /// resynchronization.
    pub open spec fn error_at(self, token: TokenView, message: Seq<char>) -> ParserView {
        if self.panicking {
            self
        } else {
            ParserView {
                panicking: true,
                had_error: true,
                diagnostics: self.diagnostics.push(diagnostic(token, message)),
                ..self
            }
        }
    }

    /// Reports `message` at the current token.
    pub open spec fn error_at_current(self, message: Seq<char>) -> ParserView {
        self.error_at(self.current, message)
    }

    /// Reports `message` at the previous token.
    pub open spec fn error(self, message: Seq<char>) -> ParserView {
        self.error_at(self.previous, message)
    }

    /// Reads tokens into `current` until one is no error token, and reports
    /// each error token on the way.
    #[verifier::opaque]
    pub open spec fn pull(self) -> ParserView
        decreases self.scanner.text.len() - self.scanner.pos,
    {
        let token = self.scanner.token();
        let read = ParserView { scanner: self.scanner.after_token(), current: token, ..self };
        if token.kind == TokenType::Error {
            proof {
                lemma_scan_moves(self.scanner.text, self.scanner.pos, self.scanner.line);
            }
            read.error_at_current(error_token_message()).pull()
        } else {
            read
        }
    }

    /// Moves on by one token: the current token becomes the previous one,
    /// and the next token that is no error token becomes the current one.
    pub open spec fn advance(self) -> ParserView {
        ParserView { previous: self.current, ..self }.pull()
    }

    /// Moves on if the current token is of kind `kind`, reports `message`
    /// at it otherwise.
    pub open spec fn consume(self, kind: TokenType, message: Seq<char>) -> ParserView {
        if self.current.kind == kind {
            self.advance()
        } else {
            self.error_at_current(message)
        }
    }

    /// Moves on if the current token is of kind `kind`.
    pub open spec fn match_token(self, kind: TokenType) -> ParserView {
        if self.current.kind == kind {
            self.advance()
        } else {
            self
        }
    }

    /// Skips tokens up to the end of input, to behind a semicolon, or to a
    /// token that can begin a statement.
    #[verifier::opaque]
    pub open spec fn skip_statement(self) -> ParserView
        decreases self.remaining(),
    {
        if self.current.kind == TokenType::Eof || self.previous.kind == TokenType::Semicolon
            || starts_statement(self.current.kind) {
            self
        } else {
            proof {
                self.lemma_advance();
            }
            self.advance().skip_statement()
        }
    }

    /// Ends the wait for resynchronization and skips to the next statement.
    pub open spec fn synchronize(self) -> ParserView {
        ParserView { panicking: false, ..self }.skip_statement()
    }

    /// What every step of the parser keeps: the text stays, the diagnostics
    /// given stay and new ones come behind them, and an error has been
    /// found exactly if one had been found before or a diagnostic was
    /// added.
    pub open spec fn reports_into(self, after: ParserView) -> bool {
        &&& after.scanner.text == self.scanner.text
        &&& self.diagnostics.len() <= after.diagnostics.len()
        &&& forall|i: int|
            0 <= i < self.diagnostics.len() ==> #[trigger] after.diagnostics[i]
                == self.diagnostics[i]
        &&& after.had_error == (self.had_error || after.diagnostics.len()
            > self.diagnostics.len())
    }

    /// Reading tokens leaves the text and the previous token alone, never
    /// goes back, keeps what `reports_into` says, and ends on a token that
    /// is no error token; unless that is the end of input, something was
    /// read.
    pub proof fn lemma_pull(self)
        ensures
            self.pull().scanner.pos >= self.scanner.pos,
            self.pull().previous == self.previous,
            self.pull().current.kind != TokenType::Error,
            self.reports_into(self.pull()),
            self.pull().current.kind != TokenType::Eof ==> self.pull().scanner.pos
                > self.scanner.pos && self.pull().scanner.pos <= self.scanner.text.len(),
        decreases self.scanner.text.len() - self.scanner.pos,
    {
        reveal(ParserView::pull);
        let token = self.scanner.token();
        let read = ParserView { scanner: self.scanner.after_token(), current: token, ..self };
        lemma_scan_moves(self.scanner.text, self.scanner.pos, self.scanner.line);
        if token.kind == TokenType::Error {
            read.error_at_current(error_token_message()).lemma_pull();
        }
    }

    /// Moving on from a token that is not the end of input leaves less
    /// input; moving on never leaves more, and it keeps what `reports_into`
    /// says.
    pub proof fn lemma_advance(self)
        ensures
            self.advance().remaining() <= self.remaining(),
            self.current.kind != TokenType::Eof ==> self.advance().remaining() < self.remaining(),
            self.advance().previous == self.current,
            self.reports_into(self.advance()),
    {
        let moved = ParserView { previous: self.current, ..self };
        moved.lemma_pull();
        if self.current.kind == TokenType::Eof && self.advance().current.kind != TokenType::Eof {
            assert(self.advance().scanner.pos > self.scanner.pos);
        }
    }

    /// Skipping to the next statement never leaves more input, and it keeps
    /// what `reports_into` says.
    pub proof fn lemma_skip_statement(self)
        ensures
            self.skip_statement().remaining() <= self.remaining(),
            self.reports_into(self.skip_statement()),
        decreases self.remaining(),
    {
        reveal(ParserView::skip_statement);
        if self.current.kind == TokenType::Eof || self.previous.kind == TokenType::Semicolon
            || starts_statement(self.current.kind) {
        } else {
            self.lemma_advance();
            self.advance().lemma_skip_statement();
        }
    }
}

/// The line of text that reports `message` at `token`.
pub fn diagnostic_text(token: &Token, message: &str) -> (line: String)
    ensures
        line@ == diagnostic(token@, message@),
{
    let mut line = String::from_str("[line ");
    push_decimal(&mut line, token.line);
    line.append("] Error");
    let ghost head = line@;
    match token.token_type {
        TokenType::Eof => {
            line.append(" at end");
        },
        TokenType::Error => {
            assert(line@ =~= head + Seq::<char>::empty());
        },
        _ => {
            line.append(" at '");
            line.append(token.lexeme.as_str());
            line.append("'");
            assert(line@ =~= head + (" at '"@ + token.lexeme@ + "'"@));
        },
    }
    line.append(": ");
    line.append(message);
    line
}

impl Parser {
    /// A parser at the start of `source`.
    pub fn new(source: &str) -> (parser: Parser)
        ensures
            parser@ == ParserView::start(source@),
    {
        let mut scanner = Scanner::new(source);
        let placeholder = Token::eof(1);
        let current = scanner.scan_token();
        let parser = Parser {
            scanner,
            current,
            previous: placeholder,
            had_error: false,
            panicking: false,
            diagnostics: Vec::new(),
        };
        assert(parser@.diagnostics =~= Seq::empty());
        parser
    }

    /// Moves on by one token. Error tokens are reported and passed over.
    pub fn advance(&mut self)
        ensures
            final(self)@ == old(self)@.advance(),
    {
        self.previous = self.current.duplicate();
        loop
            invariant_except_break
                self@.pull() == old(self)@.advance(),
            ensures
                self@ == old(self)@.advance(),
            decreases self@.scanner.text.len() - self@.scanner.pos,
        {
            proof {
                reveal(ParserView::pull);
                lemma_scan_moves(self@.scanner.text, self@.scanner.pos, self@.scanner.line);
            }
            self.current = self.scanner.scan_token();
            match self.current.token_type {
                TokenType::Error => {
                    self.error_at(ErrorPoint::Current, "Encountered error token.");
                },
                _ => {
                    break ;
                },
            }
        }
    }

    /// Moves on if the current token is of kind `token_type`, and reports
    /// `message` at the current token otherwise.
    pub fn consume(&mut self, token_type: TokenType, message: &str)
        ensures
            final(self)@ == old(self)@.consume(token_type, message@),
    {
        if self.current.token_type == token_type {
            self.advance();
        } else {
            self.error_at_current(message);
        }
    }

    /// Moves on if the current token is of kind `token_type`, and says
    /// whether it was.
    pub fn match_token(&mut self, token_type: TokenType) -> (matched: bool)
        ensures
            matched == (old(self)@.current.kind == token_type),
            final(self)@ == old(self)@.match_token(token_type),
    {
        if self.current.token_type == token_type {
            self.advance();
            true
        } else {
            false
        }
    }

    /// Reports `message` at the current token.
    pub fn error_at_current(&mut self, message: &str)
        ensures
            final(self)@ == old(self)@.error_at_current(message@),
    {
        self.error_at(ErrorPoint::Current, message);
    }

    /// Reports `message` at the previous token.
    pub fn error(&mut self, message: &str)
        ensures
            final(self)@ == old(self)@.error(message@),
    {
        self.error_at(ErrorPoint::Previous, message);
    }

    fn error_at(&mut self, location: ErrorPoint, message: &str)
        ensures
            final(self)@ == old(self)@.error_at(
                match location {
                    ErrorPoint::Current => old(self)@.current,
                    ErrorPoint::Previous => old(self)@.previous,
                },
                message@,
            ),
    {
        if self.panicking {
            return ;
        }
        self.panicking = true;
        let line = match location {
            ErrorPoint::Current => diagnostic_text(&self.current, message),
            ErrorPoint::Previous => diagnostic_text(&self.previous, message),
        };
        self.diagnostics.push(line);
        self.had_error = true;
        assert(self@.diagnostics =~= old(self)@.diagnostics.push(line@));
    }

    /// Ends the wait for resynchronization and skips tokens up to the end of
    /// input, to behind a semicolon, or to a token that can begin a
    /// statement.
    pub fn synchronize(&mut self)
        ensures
            final(self)@ == old(self)@.synchronize(),
    {
        self.panicking = false;
        loop
            invariant_except_break
                self@.skip_statement() == old(self)@.synchronize(),
            ensures
                self@ == old(self)@.synchronize(),
            decreases self@.remaining(),
        {
            proof {
                reveal(ParserView::skip_statement);
            }
            if self.current.token_type == TokenType::Eof {
                break ;
            }
            if self.previous.token_type == TokenType::Semicolon {
                break ;
            }
            match self.current.token_type {
                TokenType::Class
                | TokenType::Fun
                | TokenType::Var
                | TokenType::For
                | TokenType::If
                | TokenType::While
                | TokenType::Print
                | TokenType::Return => {
                    break ;
                },
                _ => {},
            }
            proof {
                self@.lemma_advance();
            }
            self.advance();
        }
    }
}

} // verus!
