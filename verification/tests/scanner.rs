use rustox::scanner::Scanner;
use rustox::token::{Token, TokenType};

use TokenType::{
    And, Bang, BangEqual, Comma, Dot, Eof, Equal, EqualEqual, Error, False, Greater, GreaterEqual,
    Identifier, LeftBrace, LeftParen, Lesser, LesserEqual, Minus, Number, Or, Plus, Print,
    RightBrace, RightParen, Semicolon, Slash, Star, String, True, Var,
};

fn scan_tokens(code: &str) -> Vec<Token> {
    let mut sc = Scanner::new(code);
    let mut v = Vec::new();
    while !sc.is_at_end() {
        v.push(sc.scan_token())
    }
    println!("{:?}", v);
    v
}

fn compare(result: Vec<Token>, expected: Vec<TokenType>) {
    assert_eq!(result.len(), expected.len());
    let compare_tt = |tt1, tt2| assert_eq!(tt1, tt2);

    result
        .into_iter()
        .zip(expected)
        .for_each(|(r, e)| compare_tt(r.token_type, e))
}

fn test_code(code: &str, expected: Vec<TokenType>) {
    let result = scan_tokens(code);
    compare(result, expected);
}

fn lexemes(code: &str) -> Vec<(TokenType, std::string::String, u32)> {
    let mut sc = Scanner::new(code);
    let mut v = Vec::new();
    loop {
        let t = sc.scan_token();
        let done = t.token_type == Eof;
        v.push((t.token_type, t.lexeme, t.line));
        if done {
            return v;
        }
    }
}

fn tok(kind: TokenType, lexeme: &str, line: u32) -> (TokenType, std::string::String, u32) {
    (kind, lexeme.to_string(), line)
}

#[test]
fn variable() {
    let code = "var a = 1;";
    let expected = vec![Var, Identifier, Equal, Number, Semicolon];
    test_code(code, expected);
}

#[test]
fn variable_long() {
    let code = "var a = 1;\n\
                var b = 2;\n\
                print a;";
    let expected = vec![
        Var,
        Identifier,
        Equal,
        Number,
        Semicolon,
        Var,
        Identifier,
        Equal,
        Number,
        Semicolon,
        Print,
        Identifier,
        Semicolon,
    ];
    test_code(code, expected);
}

#[test]
fn operators() {
    let code = "+ - * / < > = ! <= >= == !=";
    let expected = vec![
        Plus,
        Minus,
        Star,
        Slash,
        Lesser,
        Greater,
        Equal,
        Bang,
        LesserEqual,
        GreaterEqual,
        EqualEqual,
        BangEqual,
    ];
    test_code(code, expected);
}

#[test]
fn symbols() {
    let code = "} { ) ( . , ;";
    let expected = vec![
        RightBrace, LeftBrace, RightParen, LeftParen, Dot, Comma, Semicolon,
    ];
    test_code(code, expected);
}

#[test]
fn literals() {
    let code = "\"Hello World\" 3.1415";
    let expected = vec![String, Number];
    test_code(code, expected);
}

#[test]
fn comment() {
    let code = "// this is a comment\n\
                / \"this is not a comment\"";
    let expected = vec![Slash, String];
    test_code(code, expected);
}

#[test]
fn string_eof() {
    let code = "\"weird string";
    let expected = vec![Error];
    test_code(code, expected);
}

#[test]
fn comparison() {
    let code = "3 < 4";
    let expected = vec![Number, Lesser, Number];
    test_code(code, expected);
}

#[test]
fn logical() {
    let code = "true and false";
    let expected = vec![True, And, False];
    test_code(code, expected);
}

#[test]
fn logical2() {
    let code = "true or true and false";
    let expected = vec![True, Or, True, And, False];
    test_code(code, expected);
}

#[test]
fn global() {
    let code = r#"var beverage = "cafe au lait";"#;
    let expected = vec![Var, Identifier, Equal, String, Semicolon];
    test_code(code, expected);
}

#[test]
fn end_of_input_repeats() {
    let mut sc = Scanner::new("1 // done\n  ");
    assert_eq!(sc.scan_token().token_type, Number);
    for _ in 0..5 {
        let t = sc.scan_token();
        assert_eq!(t.token_type, Eof);
        assert_eq!(t.lexeme, "");
        assert_eq!(t.line, 2);
        assert!(sc.is_at_end());
    }
}

#[test]
fn empty_source_is_at_end() {
    let mut sc = Scanner::new("");
    assert!(sc.is_at_end());
    let t = sc.scan_token();
    assert_eq!(t.token_type, Eof);
    assert_eq!(t.line, 1);
}

#[test]
fn lexemes_are_the_source_text() {
    assert_eq!(
        lexemes("print  \"a b\"+12.50;"),
        vec![
            tok(Print, "print", 1),
            tok(String, "\"a b\"", 1),
            tok(Plus, "+", 1),
            tok(Number, "12.50", 1),
            tok(Semicolon, ";", 1),
            tok(Eof, "", 1),
        ]
    );
}

#[test]
fn lines_are_counted_from_one() {
    assert_eq!(
        lexemes("a\n\nb // c\n\r\n\td"),
        vec![
            tok(Identifier, "a", 1),
            tok(Identifier, "b", 3),
            tok(Identifier, "d", 5),
            tok(Eof, "", 5),
        ]
    );
}

#[test]
fn a_dot_needs_a_digit_behind_it() {
    assert_eq!(
        lexemes("1. 2.x .5 3.25"),
        vec![
            tok(Number, "1", 1),
            tok(Dot, ".", 1),
            tok(Number, "2", 1),
            tok(Dot, ".", 1),
            tok(Identifier, "x", 1),
            tok(Dot, ".", 1),
            tok(Number, "5", 1),
            tok(Number, "3.25", 1),
            tok(Eof, "", 1),
        ]
    );
}

#[test]
fn number_at_the_end_with_a_dot() {
    assert_eq!(
        lexemes("7."),
        vec![tok(Number, "7", 1), tok(Dot, ".", 1), tok(Eof, "", 1)]
    );
    assert_eq!(lexemes("7.1.2")[0], tok(Number, "7.1", 1));
}

#[test]
fn every_keyword() {
    let code = "and assert class else false for fun if nil or print return super this true var while";
    let expected = vec![
        And,
        TokenType::Assert,
        TokenType::Class,
        TokenType::Else,
        False,
        TokenType::For,
        TokenType::Fun,
        TokenType::If,
        TokenType::Nil,
        Or,
        Print,
        TokenType::Return,
        TokenType::Super,
        TokenType::This,
        True,
        Var,
        TokenType::While,
    ];
    test_code(code, expected);
}

#[test]
fn near_keywords_are_identifiers() {
    let code = "an andy a as asser asserts clas classy f fa fals falsey fo fort fu funk i iff \
                n ni nill o orb prin prints retur returns supe supers t th thi thiss tr tru truer \
                va vars whil whiles x And _ _if if_ t1 e els";
    let n = code.split_whitespace().count();
    test_code(code, vec![Identifier; n]);
}

#[test]
fn identifiers_take_letters_digits_and_underscores() {
    assert_eq!(
        lexemes("_a1_b2 x9y"),
        vec![
            tok(Identifier, "_a1_b2", 1),
            tok(Identifier, "x9y", 1),
            tok(Eof, "", 1)
        ]
    );
}

#[test]
fn other_alphabetic_characters_begin_identifiers() {
    assert_eq!(
        lexemes("\u{e9}t\u{e9}"),
        vec![
            tok(Identifier, "\u{e9}t", 1),
            tok(Identifier, "\u{e9}", 1),
            tok(Eof, "", 1)
        ]
    );
}

#[test]
fn invalid_characters_give_error_tokens() {
    assert_eq!(
        lexemes("@ #\n$"),
        vec![
            tok(Error, "Invalid token.", 1),
            tok(Error, "Invalid token.", 1),
            tok(Error, "Invalid token.", 2),
            tok(Eof, "", 2),
        ]
    );
}

#[test]
fn unterminated_string_message() {
    assert_eq!(
        lexemes("1 \"abc\ndef"),
        vec![
            tok(Number, "1", 1),
            tok(Error, "Reached Eof while scanning string.", 1),
            tok(Eof, "", 1),
        ]
    );
}

#[test]
fn strings_may_hold_anything_but_a_quote() {
    assert_eq!(
        lexemes("\"a // b\nc\" x"),
        vec![
            tok(String, "\"a // b\nc\"", 1),
            tok(Identifier, "x", 1),
            tok(Eof, "", 1)
        ]
    );
    assert_eq!(lexemes("\"\"")[0], tok(String, "\"\"", 1));
}

#[test]
fn comment_without_line_break_ends_the_input() {
    assert_eq!(lexemes("1 // rest"), vec![tok(Number, "1", 1), tok(Eof, "", 1)]);
    assert_eq!(lexemes("//"), vec![tok(Eof, "", 1)]);
}

#[test]
fn single_slash_at_the_end() {
    assert_eq!(lexemes("/"), vec![tok(Slash, "/", 1), tok(Eof, "", 1)]);
    assert_eq!(
        lexemes("/ /"),
        vec![tok(Slash, "/", 1), tok(Slash, "/", 1), tok(Eof, "", 1)]
    );
}

#[test]
fn two_character_operators_need_the_equal_sign_next() {
    assert_eq!(
        lexemes("! = <=>===!"),
        vec![
            tok(Bang, "!", 1),
            tok(Equal, "=", 1),
            tok(LesserEqual, "<=", 1),
            tok(GreaterEqual, ">=", 1),
            tok(EqualEqual, "==", 1),
            tok(Bang, "!", 1),
            tok(Eof, "", 1),
        ]
    );
    assert_eq!(lexemes(">")[0], tok(Greater, ">", 1));
    assert_eq!(lexemes("<")[0], tok(Lesser, "<", 1));
    assert_eq!(lexemes("!=")[0], tok(BangEqual, "!=", 1));
    assert_eq!(lexemes("-(")[0], tok(Minus, "-", 1));
    assert_eq!(lexemes("*")[0], tok(Star, "*", 1));
}
