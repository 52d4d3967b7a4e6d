use vstd::prelude::*;
use vstd::string::StringExecFns;
use crate::text::{chars_of, text_of};
use crate::token::{Token, TokenType, TokenView};

verus! {

/// Whether a character has the Unicode property Alphabetic, as
/// `char::is_alphabetic` of the standard library decides it.
pub uninterp spec fn unicode_alphabetic(c: char) -> bool;

/// `char::is_alphabetic` is a function of the character alone; its result
/// is known here only under the name [`unicode_alphabetic`].
pub assume_specification[ char::is_alphabetic ](c: char) -> (b: bool)
    ensures
        b == unicode_alphabetic(c),
;

/// A decimal digit.
pub open spec fn is_digit(c: char) -> bool {
    '0' <= c && c <= '9'
}

/// An ASCII letter or the underscore.
pub open spec fn is_alpha(c: char) -> bool {
    ('a' <= c && c <= 'z') || ('A' <= c && c <= 'Z') || c == '_'
}

/// A character that may begin an identifier: an ASCII letter, the
/// underscore, or any other alphabetic character.
pub open spec fn starts_word(c: char) -> bool {
    is_alpha(c) || unicode_alphabetic(c)
}

/// The message of the error token for a character that begins no token.
pub open spec fn invalid_token_message() -> Seq<char> {
    "Invalid token."@
}

/// The message of the error token for a string without closing quote.
pub open spec fn open_string_message() -> Seq<char> {
    "Reached Eof while scanning string."@
}

/// The kinds of character run that the scanner reads in one sweep.
pub enum Run {
    /// Decimal digits.
    Digits,
    /// ASCII letters, digits and underscores.
    Word,
    /// Everything up to the end of the line.
    Line,
    /// Everything up to the next double quote.
    Quoted,
}

impl Run {
    /// Whether `c` belongs to a run of this kind.
    pub open spec fn holds(self, c: char) -> bool {
        match self {
            Run::Digits => is_digit(c),
            Run::Word => is_alpha(c) || is_digit(c),
            Run::Line => c != '\n',
            Run::Quoted => c != '"',
        }
    }
}

/// The end of the longest run of the given kind that starts at `i`: the
/// first index from `i` on whose character does not belong to the run, or
/// the length of the text.
pub open spec fn run_end(s: Seq<char>, i: int, run: Run) -> int
    decreases s.len() - i,
{
    if 0 <= i < s.len() && run.holds(s[i]) {
        run_end(s, i + 1, run)
    } else {
        i
    }
}

/// A run ends at or after its start, within the text, on a character that
/// does not belong to it, and holds only characters that do.
pub proof fn lemma_run_end(s: Seq<char>, i: int, run: Run)
    requires
        0 <= i <= s.len(),
    ensures
        i <= run_end(s, i, run) <= s.len(),
        run_end(s, i, run) < s.len() ==> !run.holds(s[run_end(s, i, run)]),
        forall|k: int| i <= k < run_end(s, i, run) ==> run.holds(#[trigger] s[k]),
    decreases s.len() - i,
{
    if i < s.len() && run.holds(s[i]) {
        lemma_run_end(s, i + 1, run);
    }
}

/// The line number after one more line break. The counter stops at the
/// greatest number that it can hold.
pub open spec fn next_line(line: u32) -> u32 {
    if line < u32::MAX {
        (line + 1) as u32
    } else {
        line
    }
}

/// The position and line reached from `(i, line)` by skipping blanks, line
/// breaks and comments, which run from `//` to the end of their line.
pub open spec fn skip_blank(s: Seq<char>, i: int, line: u32) -> (int, u32)
    decreases s.len() - i,
{
    if i < 0 || i >= s.len() {
        (i, line)
    } else if s[i] == ' ' || s[i] == '\r' || s[i] == '\t' {
        skip_blank(s, i + 1, line)
    } else if s[i] == '\n' {
        skip_blank(s, i + 1, next_line(line))
    } else if s[i] == '/' && i + 1 < s.len() && s[i + 1] == '/' {
        proof {
            lemma_run_end(s, i + 2, Run::Line);
        }
        skip_blank(s, run_end(s, i + 2, Run::Line), line)
    } else {
        (i, line)
    }
}

/// The kind of the word `word`: that of the keyword it spells, or
/// `Identifier`.
pub open spec fn keyword_kind(word: Seq<char>) -> TokenType {
    if word == "and"@ {
        TokenType::And
    } else if word == "assert"@ {
        TokenType::Assert
    } else if word == "class"@ {
        TokenType::Class
    } else if word == "else"@ {
        TokenType::Else
    } else if word == "false"@ {
        TokenType::False
    } else if word == "for"@ {
        TokenType::For
    } else if word == "fun"@ {
        TokenType::Fun
    } else if word == "if"@ {
        TokenType::If
    } else if word == "nil"@ {
        TokenType::Nil
    } else if word == "or"@ {
        TokenType::Or
    } else if word == "print"@ {
        TokenType::Print
    } else if word == "return"@ {
        TokenType::Return
    } else if word == "super"@ {
        TokenType::Super
    } else if word == "this"@ {
        TokenType::This
    } else if word == "true"@ {
        TokenType::True
    } else if word == "var"@ {
        TokenType::Var
    } else if word == "while"@ {
        TokenType::While
    } else {
        TokenType::Identifier
    }
}

/// A token and the position behind it.
pub struct Scanned {
    pub token: TokenView,
    pub next: int,
}

/// The token of kind `kind` that covers `s[from..to]`.
pub open spec fn covering(s: Seq<char>, from: int, to: int, line: u32, kind: TokenType) -> Scanned {
    Scanned { token: TokenView { kind, lexeme: s.subrange(from, to), line }, next: to }
}

/// The error token with the given message, and the position behind the
/// text that it rejects.
pub open spec fn failing(message: Seq<char>, next: int, line: u32) -> Scanned {
    Scanned { token: TokenView { kind: TokenType::Error, lexeme: message, line }, next }
}

/// The token of one or two characters at `i`: `two` where a `=` follows,
/// else `one`.
pub open spec fn with_equal(s: Seq<char>, i: int, line: u32, two: TokenType, one: TokenType) -> Scanned {
    if i + 1 < s.len() && s[i + 1] == '=' {
        covering(s, i, i + 2, line, two)
    } else {
        covering(s, i, i + 1, line, one)
    }
}

/// The number literal at `i`: digits, then, if a dot and a digit follow,
/// the dot and the digits behind it.
pub open spec fn number_at(s: Seq<char>, i: int, line: u32) -> Scanned {
    let j = run_end(s, i + 1, Run::Digits);
    if j + 1 < s.len() && s[j] == '.' && is_digit(s[j + 1]) {
        covering(s, i, run_end(s, j + 1, Run::Digits), line, TokenType::Number)
    } else {
        covering(s, i, j, line, TokenType::Number)
    }
}

/// The string literal whose opening quote stands at `i`, or the error token
/// where no closing quote follows.
pub open spec fn string_at(s: Seq<char>, i: int, line: u32) -> Scanned {
    let j = run_end(s, i + 1, Run::Quoted);
    if j < s.len() {
        covering(s, i, j + 1, line, TokenType::String)
    } else {
        failing(open_string_message(), j, line)
    }
}

/// The identifier or keyword at `i`.
pub open spec fn word_at(s: Seq<char>, i: int, line: u32) -> Scanned {
    let j = run_end(s, i + 1, Run::Word);
    covering(s, i, j, line, keyword_kind(s.subrange(i, j)))
}

/// The token that begins at `i`, where `i` is a position within the text
/// at which no blank and no comment begins.
pub open spec fn token_at(s: Seq<char>, i: int, line: u32) -> Scanned {
    let c = s[i];
    if c == '(' {
        covering(s, i, i + 1, line, TokenType::LeftParen)
    } else if c == ')' {
        covering(s, i, i + 1, line, TokenType::RightParen)
    } else if c == '{' {
        covering(s, i, i + 1, line, TokenType::LeftBrace)
    } else if c == '}' {
        covering(s, i, i + 1, line, TokenType::RightBrace)
    } else if c == ',' {
        covering(s, i, i + 1, line, TokenType::Comma)
    } else if c == '.' {
        covering(s, i, i + 1, line, TokenType::Dot)
    } else if c == '-' {
        covering(s, i, i + 1, line, TokenType::Minus)
    } else if c == '+' {
        covering(s, i, i + 1, line, TokenType::Plus)
    } else if c == ';' {
        covering(s, i, i + 1, line, TokenType::Semicolon)
    } else if c == '*' {
        covering(s, i, i + 1, line, TokenType::Star)
    } else if c == '/' {
        covering(s, i, i + 1, line, TokenType::Slash)
    } else if c == '!' {
        with_equal(s, i, line, TokenType::BangEqual, TokenType::Bang)
    } else if c == '=' {
        with_equal(s, i, line, TokenType::EqualEqual, TokenType::Equal)
    } else if c == '>' {
        with_equal(s, i, line, TokenType::GreaterEqual, TokenType::Greater)
    } else if c == '<' {
        with_equal(s, i, line, TokenType::LesserEqual, TokenType::Lesser)
    } else if c == '"' {
        string_at(s, i, line)
    } else if is_digit(c) {
        number_at(s, i, line)
    } else if starts_word(c) {
        word_at(s, i, line)
    } else {
        failing(invalid_token_message(), i + 1, line)
    }
}

/// The next token from position `pos` on line `line`, and the position
/// behind it. Past the end of the text this is the end-of-input token; the
/// line of the token is the line that the scanner has reached.
#[verifier::opaque]
pub open spec fn scan(s: Seq<char>, pos: int, line: u32) -> Scanned {
    let (i, l) = skip_blank(s, pos, line);
    if i < 0 || i >= s.len() {
        Scanned { token: TokenView { kind: TokenType::Eof, lexeme: Seq::empty(), line: l }, next: i }
    } else {
        token_at(s, i, l)
    }
}

/// Skipping ends within the text or where it began, never before its start,
/// and on a character at which nothing is left to skip.
pub proof fn lemma_skip_blank(s: Seq<char>, i: int, line: u32)
    ensures
        i <= skip_blank(s, i, line).0,
        0 <= i <= s.len() ==> skip_blank(s, i, line).0 <= s.len(),
        skip_blank(s, skip_blank(s, i, line).0, skip_blank(s, i, line).1) == skip_blank(s, i, line),
    decreases s.len() - i,
{
    if i < 0 || i >= s.len() {
    } else if s[i] == ' ' || s[i] == '\r' || s[i] == '\t' {
        lemma_skip_blank(s, i + 1, line);
    } else if s[i] == '\n' {
        lemma_skip_blank(s, i + 1, next_line(line));
    } else if s[i] == '/' && i + 1 < s.len() && s[i + 1] == '/' {
        lemma_run_end(s, i + 2, Run::Line);
        lemma_skip_blank(s, run_end(s, i + 2, Run::Line), line);
    } else {
    }
}

/// A token other than end-of-input covers at least one character, and no
/// token reaches past the end of the text.
pub proof fn lemma_scan_advances(s: Seq<char>, pos: int, line: u32)
    requires
        0 <= pos,
    ensures
        pos <= scan(s, pos, line).next,
        scan(s, pos, line).token.kind != TokenType::Eof ==> pos < scan(s, pos, line).next
            <= s.len(),
        scan(s, pos, line).token.kind == TokenType::Eof ==> scan(s, pos, line).next >= s.len(),
{
    reveal(scan);
    lemma_skip_blank(s, pos, line);
    let (i, l) = skip_blank(s, pos, line);
    if 0 <= i < s.len() {
        lemma_run_end(s, i + 1, Run::Digits);
        lemma_run_end(s, i + 1, Run::Quoted);
        lemma_run_end(s, i + 1, Run::Word);
        let j = run_end(s, i + 1, Run::Digits);
        if j + 1 < s.len() {
            lemma_run_end(s, j + 1, Run::Digits);
        }
    }
}

/// A token other than end-of-input lies at or behind the place where the
/// scanner stood, whatever that place was.
pub proof fn lemma_scan_moves(s: Seq<char>, pos: int, line: u32)
    ensures
        scan(s, pos, line).token.kind != TokenType::Eof ==> 0 <= pos < scan(s, pos, line).next
            <= s.len(),
        scan(s, pos, line).next >= pos,
{
    reveal(scan);
    lemma_skip_blank(s, pos, line);
    if pos >= 0 {
        lemma_scan_advances(s, pos, line);
    }
}

/// Once the scanner has given the end-of-input token, it gives the same
/// token again and stays where it is, however often it is asked.
pub proof fn lemma_eof_repeats(s: Seq<char>, pos: int, line: u32)
    requires
        scan(s, pos, line).token.kind == TokenType::Eof,
    ensures
        scan(s, scan(s, pos, line).next, scan(s, pos, line).token.line) == scan(s, pos, line),
{
    reveal(scan);
    lemma_skip_blank(s, pos, line);
    let (i, l) = skip_blank(s, pos, line);
    if 0 <= i < s.len() {
        lemma_token_at_is_no_eof(s, i, l);
    }
}

/// No token that begins within the text is the end-of-input token.
pub proof fn lemma_token_at_is_no_eof(s: Seq<char>, i: int, line: u32)
    ensures
        token_at(s, i, line).token.kind != TokenType::Eof,
{
}

/// A scanner over a source text: it hands out the tokens of the text one by
/// one, and the end-of-input token from then on.
#[derive(Debug)]
pub struct Scanner {
    chars: Vec<char>,
    start: usize,
    current: usize,
    line: u32,
}

/// The mathematical content of a [`Scanner`]: the text, the position of the
/// next character to read, and the line of that position.
pub struct ScannerView {
    pub text: Seq<char>,
    pub pos: int,
    pub line: u32,
}

impl View for Scanner {
    type V = ScannerView;

    closed spec fn view(&self) -> ScannerView {
        ScannerView { text: self.chars@, pos: self.current as int, line: self.line }
    }
}

impl ScannerView {
    /// The scanner after its next token.
    pub open spec fn after_token(self) -> ScannerView {
        let found = scan(self.text, self.pos, self.line);
        ScannerView { text: self.text, pos: found.next, line: found.token.line }
    }

    /// The next token.
    pub open spec fn token(self) -> TokenView {
        scan(self.text, self.pos, self.line).token
    }
}

fn in_run(run: &Run, c: char) -> (b: bool)
    ensures
        b == run.holds(c),
{
    match run {
        Run::Digits => '0' <= c && c <= '9',
        Run::Word => ('a' <= c && c <= 'z') || ('A' <= c && c <= 'Z') || c == '_' || ('0' <= c
            && c <= '9'),
        Run::Line => c != '\n',
        Run::Quoted => c != '"',
    }
}

/// A word that begins as `full` does is `full` exactly if it goes on as
/// `full` does.
proof fn lemma_same_start(word: Seq<char>, full: Seq<char>, offset: int, rest: Seq<char>)
    requires
        0 <= offset <= full.len(),
        offset <= word.len(),
        full.subrange(offset, full.len() as int) == rest,
        forall|k: int| 0 <= k < offset ==> word[k] == full[k],
    ensures
        word == full <==> word.subrange(offset, word.len() as int) == rest,
{
    if word.subrange(offset, word.len() as int) == rest {
        assert(word.len() == full.len()) by {
            assert(word.subrange(offset, word.len() as int).len() == full.subrange(
                offset,
                full.len() as int,
            ).len());
        }
        assert forall|k: int| 0 <= k < word.len() implies word[k] == full[k] by {
            if k >= offset {
                assert(word.subrange(offset, word.len() as int)[k - offset] == full.subrange(
                    offset,
                    full.len() as int,
                )[k - offset]);
            }
        }
        assert(word =~= full);
    }
}

/// A word that differs from `full` in the letter at `k` is not `full`.
proof fn lemma_other_letter(word: Seq<char>, full: Seq<char>, k: int)
    requires
        0 <= k < full.len(),
        k >= word.len() || word[k] != full[k],
    ensures
        word != full,
{
}

/// The letters by which the scanner tells the keywords apart, and what
/// follows them in each keyword.
proof fn lemma_keywords()
    ensures
        "and"@.len() == 3 && "and"@[0] == 'a' && "and"@[1] == 'n' && "and"@.subrange(2, 3) == "d"@,
        "assert"@.len() == 6 && "assert"@[0] == 'a' && "assert"@[1] == 's' && "assert"@.subrange(
            2,
            6,
        ) == "sert"@,
        "class"@.len() == 5 && "class"@[0] == 'c' && "class"@.subrange(1, 5) == "lass"@,
        "else"@.len() == 4 && "else"@[0] == 'e' && "else"@.subrange(1, 4) == "lse"@,
        "false"@.len() == 5 && "false"@[0] == 'f' && "false"@[1] == 'a' && "false"@.subrange(2, 5)
            == "lse"@,
        "for"@.len() == 3 && "for"@[0] == 'f' && "for"@[1] == 'o' && "for"@.subrange(2, 3) == "r"@,
        "fun"@.len() == 3 && "fun"@[0] == 'f' && "fun"@[1] == 'u' && "fun"@.subrange(2, 3) == "n"@,
        "if"@.len() == 2 && "if"@[0] == 'i' && "if"@.subrange(1, 2) == "f"@,
        "nil"@.len() == 3 && "nil"@[0] == 'n' && "nil"@.subrange(1, 3) == "il"@,
        "or"@.len() == 2 && "or"@[0] == 'o' && "or"@.subrange(1, 2) == "r"@,
        "print"@.len() == 5 && "print"@[0] == 'p' && "print"@.subrange(1, 5) == "rint"@,
        "return"@.len() == 6 && "return"@[0] == 'r' && "return"@.subrange(1, 6) == "eturn"@,
        "super"@.len() == 5 && "super"@[0] == 's' && "super"@.subrange(1, 5) == "uper"@,
        "this"@.len() == 4 && "this"@[0] == 't' && "this"@[1] == 'h' && "this"@.subrange(2, 4)
            == "is"@,
        "true"@.len() == 4 && "true"@[0] == 't' && "true"@[1] == 'r' && "true"@.subrange(2, 4)
            == "ue"@,
        "var"@.len() == 3 && "var"@[0] == 'v' && "var"@.subrange(1, 3) == "ar"@,
        "while"@.len() == 5 && "while"@[0] == 'w' && "while"@.subrange(1, 5) == "hile"@,
{
    reveal_strlit("and");
    reveal_strlit("d");
    reveal_strlit("assert");
    reveal_strlit("sert");
    reveal_strlit("class");
    reveal_strlit("lass");
    reveal_strlit("else");
    reveal_strlit("lse");
    reveal_strlit("false");
    reveal_strlit("for");
    reveal_strlit("r");
    reveal_strlit("fun");
    reveal_strlit("n");
    reveal_strlit("if");
    reveal_strlit("f");
    reveal_strlit("nil");
    reveal_strlit("il");
    reveal_strlit("or");
    reveal_strlit("print");
    reveal_strlit("rint");
    reveal_strlit("return");
    reveal_strlit("eturn");
    reveal_strlit("super");
    reveal_strlit("uper");
    reveal_strlit("this");
    reveal_strlit("is");
    reveal_strlit("true");
    reveal_strlit("ue");
    reveal_strlit("var");
    reveal_strlit("ar");
    reveal_strlit("while");
    reveal_strlit("hile");
    assert("and"@.subrange(2, 3) =~= "d"@);
    assert("assert"@.subrange(2, 6) =~= "sert"@);
    assert("class"@.subrange(1, 5) =~= "lass"@);
    assert("else"@.subrange(1, 4) =~= "lse"@);
    assert("false"@.subrange(2, 5) =~= "lse"@);
    assert("for"@.subrange(2, 3) =~= "r"@);
    assert("fun"@.subrange(2, 3) =~= "n"@);
    assert("if"@.subrange(1, 2) =~= "f"@);
    assert("nil"@.subrange(1, 3) =~= "il"@);
    assert("or"@.subrange(1, 2) =~= "r"@);
    assert("print"@.subrange(1, 5) =~= "rint"@);
    assert("return"@.subrange(1, 6) =~= "eturn"@);
    assert("super"@.subrange(1, 5) =~= "uper"@);
    assert("this"@.subrange(2, 4) =~= "is"@);
    assert("true"@.subrange(2, 4) =~= "ue"@);
    assert("var"@.subrange(1, 3) =~= "ar"@);
    assert("while"@.subrange(1, 5) =~= "hile"@);
}

/// The kind of a word, found by its first letter, for some keywords by its
/// second letter too, and then by what follows them.
pub open spec fn kind_by_letters(word: Seq<char>) -> TokenType {
    if word.len() == 0 {
        TokenType::Identifier
    } else if word[0] == 'c' {
        kind_if(word, 1, "lass"@, TokenType::Class)
    } else if word[0] == 'e' {
        kind_if(word, 1, "lse"@, TokenType::Else)
    } else if word[0] == 'i' {
        kind_if(word, 1, "f"@, TokenType::If)
    } else if word[0] == 'n' {
        kind_if(word, 1, "il"@, TokenType::Nil)
    } else if word[0] == 'o' {
        kind_if(word, 1, "r"@, TokenType::Or)
    } else if word[0] == 'p' {
        kind_if(word, 1, "rint"@, TokenType::Print)
    } else if word[0] == 'r' {
        kind_if(word, 1, "eturn"@, TokenType::Return)
    } else if word[0] == 's' {
        kind_if(word, 1, "uper"@, TokenType::Super)
    } else if word[0] == 'v' {
        kind_if(word, 1, "ar"@, TokenType::Var)
    } else if word[0] == 'w' {
        kind_if(word, 1, "hile"@, TokenType::While)
    } else if word.len() == 1 {
        TokenType::Identifier
    } else if word[0] == 'a' {
        if word[1] == 'n' {
            kind_if(word, 2, "d"@, TokenType::And)
        } else if word[1] == 's' {
            kind_if(word, 2, "sert"@, TokenType::Assert)
        } else {
            TokenType::Identifier
        }
    } else if word[0] == 'f' {
        if word[1] == 'a' {
            kind_if(word, 2, "lse"@, TokenType::False)
        } else if word[1] == 'o' {
            kind_if(word, 2, "r"@, TokenType::For)
        } else if word[1] == 'u' {
            kind_if(word, 2, "n"@, TokenType::Fun)
        } else {
            TokenType::Identifier
        }
    } else if word[0] == 't' {
        if word[1] == 'h' {
            kind_if(word, 2, "is"@, TokenType::This)
        } else if word[1] == 'r' {
            kind_if(word, 2, "ue"@, TokenType::True)
        } else {
            TokenType::Identifier
        }
    } else {
        TokenType::Identifier
    }
}

/// `kind` if `word` goes on with `rest` from `offset`, else `Identifier`.
pub open spec fn kind_if(word: Seq<char>, offset: int, rest: Seq<char>, kind: TokenType) -> TokenType {
    if word.subrange(offset, word.len() as int) == rest {
        kind
    } else {
        TokenType::Identifier
    }
}

/// No keyword begins with a letter other than its own first letter.
proof fn lemma_not_a_keyword(word: Seq<char>)
    requires
        word.len() == 0 || (word[0] != 'a' && word[0] != 'c' && word[0] != 'e' && word[0] != 'f'
            && word[0] != 'i' && word[0] != 'n' && word[0] != 'o' && word[0] != 'p' && word[0]
            != 'r' && word[0] != 's' && word[0] != 't' && word[0] != 'v' && word[0] != 'w'),
    ensures
        keyword_kind(word) == TokenType::Identifier,
{
    lemma_keywords();
    lemma_other_letter(word, "and"@, 0);
    lemma_other_letter(word, "assert"@, 0);
    lemma_other_letter(word, "class"@, 0);
    lemma_other_letter(word, "else"@, 0);
    lemma_other_letter(word, "false"@, 0);
    lemma_other_letter(word, "for"@, 0);
    lemma_other_letter(word, "fun"@, 0);
    lemma_other_letter(word, "if"@, 0);
    lemma_other_letter(word, "nil"@, 0);
    lemma_other_letter(word, "or"@, 0);
    lemma_other_letter(word, "print"@, 0);
    lemma_other_letter(word, "return"@, 0);
    lemma_other_letter(word, "super"@, 0);
    lemma_other_letter(word, "this"@, 0);
    lemma_other_letter(word, "true"@, 0);
    lemma_other_letter(word, "var"@, 0);
    lemma_other_letter(word, "while"@, 0);
}

/// The keywords that begin with `c`, `e`, `i`, `n`, `o`, `p`, `r`, `s`, `v`
/// or `w`: each is alone with its first letter.
proof fn lemma_first_letter(word: Seq<char>, full: Seq<char>, rest: Seq<char>, kind: TokenType)
    requires
        word.len() >= 1,
        full.len() >= 1,
        word[0] == full[0],
        word[0] != 'a' && word[0] != 'f' && word[0] != 't',
        full.subrange(1, full.len() as int) == rest,
        keyword_kind(full) == kind,
        kind != TokenType::Identifier,
    ensures
        keyword_kind(word) == kind_if(word, 1, rest, kind),
{
    lemma_keywords();
    lemma_same_start(word, full, 1, rest);
    if word != full {
        lemma_other_letter(word, "and"@, 0);
        lemma_other_letter(word, "assert"@, 0);
        lemma_other_letter(word, "false"@, 0);
        lemma_other_letter(word, "for"@, 0);
        lemma_other_letter(word, "fun"@, 0);
        lemma_other_letter(word, "this"@, 0);
        lemma_other_letter(word, "true"@, 0);
        if word[0] != 'c' {
            lemma_other_letter(word, "class"@, 0);
        }
        if word[0] != 'e' {
            lemma_other_letter(word, "else"@, 0);
        }
        if word[0] != 'i' {
            lemma_other_letter(word, "if"@, 0);
        }
        if word[0] != 'n' {
            lemma_other_letter(word, "nil"@, 0);
        }
        if word[0] != 'o' {
            lemma_other_letter(word, "or"@, 0);
        }
        if word[0] != 'p' {
            lemma_other_letter(word, "print"@, 0);
        }
        if word[0] != 'r' {
            lemma_other_letter(word, "return"@, 0);
        }
        if word[0] != 's' {
            lemma_other_letter(word, "super"@, 0);
        }
        if word[0] != 'v' {
            lemma_other_letter(word, "var"@, 0);
        }
        if word[0] != 'w' {
            lemma_other_letter(word, "while"@, 0);
        }
        if full != "class"@ && word[0] == 'c' {
            lemma_other_letter(full, "class"@, 0);
        }
    }
}

/// The keywords that begin with `a`, `f` or `t` are told apart by their
/// second letter.
proof fn lemma_second_letter(word: Seq<char>)
    requires
        word.len() >= 1,
        word[0] == 'a' || word[0] == 'f' || word[0] == 't',
    ensures
        keyword_kind(word) == kind_by_letters(word),
{
    lemma_keywords();
    lemma_other_letter(word, "class"@, 0);
    lemma_other_letter(word, "else"@, 0);
    lemma_other_letter(word, "if"@, 0);
    lemma_other_letter(word, "nil"@, 0);
    lemma_other_letter(word, "or"@, 0);
    lemma_other_letter(word, "print"@, 0);
    lemma_other_letter(word, "return"@, 0);
    lemma_other_letter(word, "super"@, 0);
    lemma_other_letter(word, "var"@, 0);
    lemma_other_letter(word, "while"@, 0);
    if word.len() == 1 {
        lemma_other_letter(word, "and"@, 1);
        lemma_other_letter(word, "assert"@, 1);
        lemma_other_letter(word, "false"@, 1);
        lemma_other_letter(word, "for"@, 1);
        lemma_other_letter(word, "fun"@, 1);
        lemma_other_letter(word, "this"@, 1);
        lemma_other_letter(word, "true"@, 1);
    } else {
        if word[0] == 'a' && word[1] == 'n' {
            lemma_same_start(word, "and"@, 2, "d"@);
        } else {
            lemma_other_letter(word, "and"@, if word[0] == 'a' { 1 } else { 0 });
        }
        if word[0] == 'a' && word[1] == 's' {
            lemma_same_start(word, "assert"@, 2, "sert"@);
        } else {
            lemma_other_letter(word, "assert"@, if word[0] == 'a' { 1 } else { 0 });
        }
        if word[0] == 'f' && word[1] == 'a' {
            lemma_same_start(word, "false"@, 2, "lse"@);
        } else {
            lemma_other_letter(word, "false"@, if word[0] == 'f' { 1 } else { 0 });
        }
        if word[0] == 'f' && word[1] == 'o' {
            lemma_same_start(word, "for"@, 2, "r"@);
        } else {
            lemma_other_letter(word, "for"@, if word[0] == 'f' { 1 } else { 0 });
        }
        if word[0] == 'f' && word[1] == 'u' {
            lemma_same_start(word, "fun"@, 2, "n"@);
        } else {
            lemma_other_letter(word, "fun"@, if word[0] == 'f' { 1 } else { 0 });
        }
        if word[0] == 't' && word[1] == 'h' {
            lemma_same_start(word, "this"@, 2, "is"@);
        } else {
            lemma_other_letter(word, "this"@, if word[0] == 't' { 1 } else { 0 });
        }
        if word[0] == 't' && word[1] == 'r' {
            lemma_same_start(word, "true"@, 2, "ue"@);
        } else {
            lemma_other_letter(word, "true"@, if word[0] == 't' { 1 } else { 0 });
        }
    }
}

/// Telling the keywords apart by their letters finds for every word the
/// keyword that it spells.
pub proof fn lemma_kind_by_letters(word: Seq<char>)
    ensures
        kind_by_letters(word) == keyword_kind(word),
{
    lemma_keywords();
    if word.len() == 0 {
        lemma_not_a_keyword(word);
    } else if word[0] == 'c' {
        lemma_first_letter(word, "class"@, "lass"@, TokenType::Class);
    } else if word[0] == 'e' {
        lemma_first_letter(word, "else"@, "lse"@, TokenType::Else);
    } else if word[0] == 'i' {
        lemma_first_letter(word, "if"@, "f"@, TokenType::If);
    } else if word[0] == 'n' {
        lemma_first_letter(word, "nil"@, "il"@, TokenType::Nil);
    } else if word[0] == 'o' {
        lemma_first_letter(word, "or"@, "r"@, TokenType::Or);
    } else if word[0] == 'p' {
        lemma_first_letter(word, "print"@, "rint"@, TokenType::Print);
    } else if word[0] == 'r' {
        lemma_first_letter(word, "return"@, "eturn"@, TokenType::Return);
    } else if word[0] == 's' {
        lemma_first_letter(word, "super"@, "uper"@, TokenType::Super);
    } else if word[0] == 'v' {
        lemma_first_letter(word, "var"@, "ar"@, TokenType::Var);
    } else if word[0] == 'w' {
        lemma_first_letter(word, "while"@, "hile"@, TokenType::While);
    } else if word[0] == 'a' || word[0] == 'f' || word[0] == 't' {
        lemma_second_letter(word);
    } else {
        lemma_not_a_keyword(word);
    }
}

impl Scanner {
    /// A scanner at the start of `source`, on line 1.
    pub fn new(source: &str) -> (scanner: Scanner)
        ensures
            scanner@ == (ScannerView { text: source@, pos: 0, line: 1 }),
    {
        Scanner { chars: chars_of(source), start: 0, current: 0, line: 1 }
    }

    /// The next token. Blanks, line breaks and comments before it are
    /// skipped. At the end of the text this is the end-of-input token, and
    /// the scanner stays where it is.
    pub fn scan_token(&mut self) -> (token: Token)
        ensures
            token@ == old(self)@.token(),
            final(self)@ == old(self)@.after_token(),
    {
        proof {
            reveal(scan);
        }
        self.skip_whitespace();
        if self.current >= self.chars.len() {
            return Token::eof(self.line);
        }
        self.start = self.current;
        let c = self.chars[self.current];
        self.current = self.current + 1;
        if c == '(' {
            self.make_token(TokenType::LeftParen)
        } else if c == ')' {
            self.make_token(TokenType::RightParen)
        } else if c == '{' {
            self.make_token(TokenType::LeftBrace)
        } else if c == '}' {
            self.make_token(TokenType::RightBrace)
        } else if c == ',' {
            self.make_token(TokenType::Comma)
        } else if c == '.' {
            self.make_token(TokenType::Dot)
        } else if c == '-' {
            self.make_token(TokenType::Minus)
        } else if c == '+' {
            self.make_token(TokenType::Plus)
        } else if c == ';' {
            self.make_token(TokenType::Semicolon)
        } else if c == '*' {
            self.make_token(TokenType::Star)
        } else if c == '/' {
            self.make_token(TokenType::Slash)
        } else if c == '!' {
            self.eq_lookahead(TokenType::BangEqual, TokenType::Bang)
        } else if c == '=' {
            self.eq_lookahead(TokenType::EqualEqual, TokenType::Equal)
        } else if c == '>' {
            self.eq_lookahead(TokenType::GreaterEqual, TokenType::Greater)
        } else if c == '<' {
            self.eq_lookahead(TokenType::LesserEqual, TokenType::Lesser)
        } else if c == '"' {
            self.string()
        } else if '0' <= c && c <= '9' {
            self.number()
        } else if ('a' <= c && c <= 'z') || ('A' <= c && c <= 'Z') || c == '_'
            || c.is_alphabetic() {
            self.ident_and_keyword()
        } else {
            self.error_token("Invalid token.")
        }
    }

    /// Whether every character has been read.
    pub fn is_at_end(&self) -> (r: bool)
        ensures
            r == (self@.pos >= self@.text.len()),
    {
        self.current >= self.chars.len()
    }

    fn eq_lookahead(&mut self, two: TokenType, one: TokenType) -> (token: Token)
        requires
            old(self).start + 1 == old(self).current <= old(self).chars.len(),
        ensures
            final(self).chars == old(self).chars,
            final(self).line == old(self).line,
            final(self).current == with_equal(
                old(self).chars@,
                old(self).start as int,
                old(self).line,
                two,
                one,
            ).next,
            token@ == with_equal(
                old(self).chars@,
                old(self).start as int,
                old(self).line,
                two,
                one,
            ).token,
    {
        let kind = if self.consume_eq('=') {
            two
        } else {
            one
        };
        self.make_token(kind)
    }

    fn advance(&mut self) -> (c: Option<char>)
        ensures
            final(self).chars == old(self).chars,
            final(self).line == old(self).line,
            final(self).start == old(self).start,
            old(self).current < old(self).chars.len() ==> c == Some(
                old(self).chars[old(self).current as int],
            ) && final(self).current == old(self).current + 1,
            old(self).current >= old(self).chars.len() ==> c is None && final(self).current == old(
                self,
            ).current,
    {
        let c = self.peek();
        if c.is_some() {
            self.current += 1;
        }
        c
    }

    fn consume_eq(&mut self, c: char) -> (b: bool)
        ensures
            final(self).chars == old(self).chars,
            final(self).line == old(self).line,
            final(self).start == old(self).start,
            b == (old(self).current < old(self).chars.len() && old(self).chars[old(
                self,
            ).current as int] == c),
            final(self).current == if b {
                old(self).current + 1
            } else {
                old(self).current as int
            },
    {
        if let Some(p) = self.peek() {
            if c == p {
                self.advance();
                true
            } else {
                false
            }
        } else {
            false
        }
    }

    fn peek(&self) -> (c: Option<char>)
        ensures
            c == if self.current < self.chars.len() {
                Some(self.chars[self.current as int])
            } else {
                None
            },
    {
        if self.current < self.chars.len() {
            Some(self.chars[self.current])
        } else {
            None
        }
    }

    fn peek_next(&self) -> (c: Option<char>)
        ensures
            c == if self.current + 1 < self.chars.len() {
                Some(self.chars[self.current + 1])
            } else {
                None
            },
    {
        if self.current < self.chars.len() && self.current + 1 < self.chars.len() {
            Some(self.chars[self.current + 1])
        } else {
            None
        }
    }

    /// Reads on to the end of the run of the given kind.
    fn sweep(&mut self, run: Run)
        requires
            old(self).current <= old(self).chars.len(),
        ensures
            final(self).chars == old(self).chars,
            final(self).line == old(self).line,
            final(self).start == old(self).start,
            final(self).current == run_end(old(self).chars@, old(self).current as int, run),
            old(self).current <= final(self).current <= old(self).chars.len(),
    {
        while self.current < self.chars.len() && in_run(&run, self.chars[self.current])
            invariant
                self.chars == old(self).chars,
                self.line == old(self).line,
                self.start == old(self).start,
                old(self).current <= self.current <= self.chars.len(),
                run_end(self.chars@, self.current as int, run) == run_end(
                    old(self).chars@,
                    old(self).current as int,
                    run,
                ),
            decreases self.chars.len() - self.current,
        {
            self.current += 1;
        }
    }

    fn skip_whitespace(&mut self)
        ensures
            final(self).chars == old(self).chars,
            final(self).start == old(self).start,
            (final(self).current as int, final(self).line) == skip_blank(
                old(self).chars@,
                old(self).current as int,
                old(self).line,
            ),
    {
        loop
            invariant
                self.chars == old(self).chars,
                self.start == old(self).start,
                skip_blank(self.chars@, self.current as int, self.line) == skip_blank(
                    old(self).chars@,
                    old(self).current as int,
                    old(self).line,
                ),
            ensures
                self.chars == old(self).chars,
                self.start == old(self).start,
                (self.current as int, self.line) == skip_blank(
                    old(self).chars@,
                    old(self).current as int,
                    old(self).line,
                ),
            decreases self.chars.len() - self.current,
        {
            match self.peek() {
                None => {
                    break ;
                },
                Some(c) => {
                    if c == '\r' || c == ' ' || c == '\t' {
                        self.advance();
                    } else if c == '\n' {
                        self.advance();
                        if self.line < u32::MAX {
                            self.line += 1;
                        }
                    } else if c == '/' {
                        if let Some('/') = self.peek_next() {
                            self.advance();
                            self.advance();
                            self.sweep(Run::Line);
                        } else {
                            break ;
                        }
                    } else {
                        break ;
                    }
                },
            }
        }
    }

    fn string(&mut self) -> (token: Token)
        requires
            old(self).start + 1 == old(self).current <= old(self).chars.len(),
        ensures
            final(self).chars == old(self).chars,
            final(self).line == old(self).line,
            final(self).current == string_at(
                old(self).chars@,
                old(self).start as int,
                old(self).line,
            ).next,
            token@ == string_at(old(self).chars@, old(self).start as int, old(self).line).token,
    {
        self.sweep(Run::Quoted);
        match self.advance() {
            None => self.error_token("Reached Eof while scanning string."),
            Some(_) => self.make_token(TokenType::String),
        }
    }

    fn number(&mut self) -> (token: Token)
        requires
            old(self).start + 1 == old(self).current <= old(self).chars.len(),
        ensures
            final(self).chars == old(self).chars,
            final(self).line == old(self).line,
            final(self).current == number_at(
                old(self).chars@,
                old(self).start as int,
                old(self).line,
            ).next,
            token@ == number_at(old(self).chars@, old(self).start as int, old(self).line).token,
    {
        self.sweep(Run::Digits);
        if let Some('.') = self.peek() {
            if let Some(d) = self.peek_next() {
                if '0' <= d && d <= '9' {
                    self.advance();
                    self.sweep(Run::Digits);
                }
            }
        }
        self.make_token(TokenType::Number)
    }

    fn ident_and_keyword(&mut self) -> (token: Token)
        requires
            old(self).start + 1 == old(self).current <= old(self).chars.len(),
        ensures
            final(self).chars == old(self).chars,
            final(self).line == old(self).line,
            final(self).current == word_at(
                old(self).chars@,
                old(self).start as int,
                old(self).line,
            ).next,
            token@ == word_at(old(self).chars@, old(self).start as int, old(self).line).token,
    {
        self.sweep(Run::Word);
        let token_type = self.ident_keyword_type();
        self.make_token(token_type)
    }

    /// Whether the word read goes on with `rest` from `offset`.
    fn compare_rest(&self, offset: usize, rest: &str, kind: TokenType) -> (r: TokenType)
        requires
            self.start + offset <= self.current <= self.chars.len(),
        ensures
            r == kind_if(
                self.chars@.subrange(self.start as int, self.current as int),
                offset as int,
                rest@,
                kind,
            ),
    {
        let from = self.start + offset;
        let n = rest.unicode_len();
        let ghost word = self.chars@.subrange(self.start as int, self.current as int);
        let ghost tail = word.subrange(offset as int, word.len() as int);
        assert(tail =~= self.chars@.subrange(from as int, self.current as int));
        assert(tail.len() == self.current - from);
        if self.current - from != n {
            return TokenType::Identifier;
        }
        let mut i: usize = 0;
        while i < n
            invariant
                n == rest@.len(),
                from + n == self.current <= self.chars.len(),
                i <= n,
                from == self.start + offset,
                word == self.chars@.subrange(self.start as int, self.current as int),
                tail == word.subrange(offset as int, word.len() as int),
                tail == self.chars@.subrange(from as int, self.current as int),
                forall|k: int| 0 <= k < i ==> tail[k] == rest@[k],
            decreases n - i,
        {
            if self.chars[from + i] != rest.get_char(i) {
                assert(tail[i as int] != rest@[i as int]);
                return TokenType::Identifier;
            }
            i += 1;
        }
        assert(tail =~= rest@);
        kind
    }

    fn ident_keyword_type(&self) -> (kind: TokenType)
        requires
            self.start < self.current <= self.chars.len(),
        ensures
            kind == keyword_kind(self.chars@.subrange(self.start as int, self.current as int)),
    {
        let ghost word = self.chars@.subrange(self.start as int, self.current as int);
        proof {
            lemma_kind_by_letters(word);
        }
        let first = self.chars[self.start];
        if first == 'c' {
            self.compare_rest(1, "lass", TokenType::Class)
        } else if first == 'e' {
            self.compare_rest(1, "lse", TokenType::Else)
        } else if first == 'i' {
            self.compare_rest(1, "f", TokenType::If)
        } else if first == 'n' {
            self.compare_rest(1, "il", TokenType::Nil)
        } else if first == 'o' {
            self.compare_rest(1, "r", TokenType::Or)
        } else if first == 'p' {
            self.compare_rest(1, "rint", TokenType::Print)
        } else if first == 'r' {
            self.compare_rest(1, "eturn", TokenType::Return)
        } else if first == 's' {
            self.compare_rest(1, "uper", TokenType::Super)
        } else if first == 'v' {
            self.compare_rest(1, "ar", TokenType::Var)
        } else if first == 'w' {
            self.compare_rest(1, "hile", TokenType::While)
        } else if self.current - self.start == 1 {
            TokenType::Identifier
        } else {
            let second = self.chars[self.start + 1];
            if first == 'a' {
                if second == 'n' {
                    self.compare_rest(2, "d", TokenType::And)
                } else if second == 's' {
                    self.compare_rest(2, "sert", TokenType::Assert)
                } else {
                    TokenType::Identifier
                }
            } else if first == 'f' {
                if second == 'a' {
                    self.compare_rest(2, "lse", TokenType::False)
                } else if second == 'o' {
                    self.compare_rest(2, "r", TokenType::For)
                } else if second == 'u' {
                    self.compare_rest(2, "n", TokenType::Fun)
                } else {
                    TokenType::Identifier
                }
            } else if first == 't' {
                if second == 'h' {
                    self.compare_rest(2, "is", TokenType::This)
                } else if second == 'r' {
                    self.compare_rest(2, "ue", TokenType::True)
                } else {
                    TokenType::Identifier
                }
            } else {
                TokenType::Identifier
            }
        }
    }

    fn make_token(&self, token_type: TokenType) -> (token: Token)
        requires
            self.start <= self.current <= self.chars.len(),
        ensures
            token@ == (TokenView {
                kind: token_type,
                lexeme: self.chars@.subrange(self.start as int, self.current as int),
                line: self.line,
            }),
    {
        Token {
            token_type,
            lexeme: text_of(&self.chars, self.start, self.current),
            line: self.line,
        }
    }

    fn error_token(&self, message: &str) -> (token: Token)
        ensures
            token@ == (TokenView { kind: TokenType::Error, lexeme: message@, line: self.line }),
    {
        Token { token_type: TokenType::Error, lexeme: String::from_str(message), line: self.line }
    }
}

} // verus!
