use lumos::scanner::Scanner;
use lumos::scanner::Token;
use lumos::scanner::TokenType;
use lumos::scanner::token_type_code;
use lumos::compiler::compile;

fn scan_all(src: &str) -> Vec<Token> {
    let text = String::from(src);
    let mut scanner = Scanner::new(&text);
    let mut tokens = Vec::new();
    loop {
        let token = scanner.scan_token();
        let done = token.type_ == TokenType::EoF;
        tokens.push(token);
        if done {
            return tokens;
        }
    }
}

#[test]
fn blank_source_scans_to_single_eof() {
    for src in ["", "   ", " \t\r\n \n", "// just a comment", "// a\n// b\n", "  // c\n\t\n"] {
        let tokens = scan_all(src);
        assert_eq!(tokens.len(), 1);
        assert_eq!(tokens[0].type_, TokenType::EoF);
        assert_eq!(tokens[0].string, "");
    }
}

#[test]
fn number_literal_scans_verbatim() {
    for lit in ["0", "7", "123", "123.45", "0.5", "10.0"] {
        let tokens = scan_all(lit);
        assert_eq!(tokens.len(), 2);
        assert_eq!(tokens[0].type_, TokenType::Number);
        assert_eq!(tokens[0].string, lit);
        assert_eq!(tokens[0].line, 1);
    }
}

#[test]
fn trailing_dot_is_not_part_of_number() {
    let tokens = scan_all("12.");
    assert_eq!(tokens.len(), 3);
    assert_eq!(tokens[0].type_, TokenType::Number);
    assert_eq!(tokens[0].string, "12");
    assert_eq!(tokens[1].type_, TokenType::Dot);
}

#[test]
fn keywords_scan_to_keyword_kinds() {
    let table = [
        ("and", TokenType::And),
        ("class", TokenType::Class),
        ("else", TokenType::Else),
        ("false", TokenType::False),
        ("for", TokenType::For),
        ("fun", TokenType::Fun),
        ("if", TokenType::If),
        ("nil", TokenType::Nil),
        ("or", TokenType::Or),
        ("print", TokenType::Print),
        ("return", TokenType::Return),
        ("super", TokenType::Super),
        ("this", TokenType::This),
        ("true", TokenType::True),
        ("var", TokenType::Var),
        ("while", TokenType::While),
    ];
    for (word, kind) in table {
        let tokens = scan_all(word);
        assert_eq!(tokens.len(), 2);
        assert_eq!(tokens[0].type_, kind);
        assert_eq!(tokens[0].string, word);
    }
}

#[test]
fn keyword_superstrings_are_identifiers() {
    for word in ["andy", "classes", "orchid", "falsey", "fortune", "thisx", "truest", "vars", "whiles", "funny", "ifs", "nil0", "print_", "returns", "superb", "elsewhere"] {
        let tokens = scan_all(word);
        assert_eq!(tokens.len(), 2);
        assert_eq!(tokens[0].type_, TokenType::Identifier, "{}", word);
        assert_eq!(tokens[0].string, word);
    }
}

#[test]
fn identifiers_with_underscores_and_digits() {
    for word in ["_", "_foo", "x9", "snake_case_1"] {
        let tokens = scan_all(word);
        assert_eq!(tokens.len(), 2);
        assert_eq!(tokens[0].type_, TokenType::Identifier);
        assert_eq!(tokens[0].string, word);
    }
}

#[test]
fn punctuation_and_operators_scan() {
    let tokens = scan_all("(){};,.-+/*! != = == > >= < <=");
    let kinds: Vec<TokenType> = tokens.iter().map(|t| t.type_).collect();
    assert_eq!(
        kinds,
        vec![
            TokenType::LeftParen,
            TokenType::RightParen,
            TokenType::LeftBrace,
            TokenType::RightBrace,
            TokenType::Semicolon,
            TokenType::Comma,
            TokenType::Dot,
            TokenType::Minus,
            TokenType::Plus,
            TokenType::Slash,
            TokenType::Star,
            TokenType::Bang,
            TokenType::BangEqual,
            TokenType::Equal,
            TokenType::EqualEqual,
            TokenType::Greater,
            TokenType::GreaterEqual,
            TokenType::Less,
            TokenType::LessEqual,
            TokenType::EoF,
        ]
    );
}

#[test]
fn string_literal_keeps_quotes_and_counts_lines() {
    let tokens = scan_all("\"hi\nthere\"");
    assert_eq!(tokens.len(), 2);
    assert_eq!(tokens[0].type_, TokenType::Str);
    assert_eq!(tokens[0].string, "\"hi\nthere\"");
    assert_eq!(tokens[0].line, 2);
}

#[test]
fn unterminated_string_yields_error_token() {
    let tokens = scan_all("\"abc");
    assert_eq!(tokens.len(), 2);
    assert_eq!(tokens[0].type_, TokenType::Error);
    assert_eq!(tokens[0].string, "Unterminated string.");
    assert_ne!(token_type_code(tokens[0].type_), token_type_code(TokenType::Str));
    assert_ne!(token_type_code(tokens[0].type_), token_type_code(TokenType::EoF));
}

#[test]
fn unexpected_character_yields_error_token() {
    let tokens = scan_all("@");
    assert_eq!(tokens.len(), 2);
    assert_eq!(tokens[0].type_, TokenType::Error);
    assert_eq!(tokens[0].string, "Unexpected character.");
}

#[test]
fn comments_and_newlines_advance_the_line_counter() {
    let tokens = scan_all("// heading\nvar x\n  y");
    assert_eq!(tokens.len(), 4);
    assert_eq!(tokens[0].type_, TokenType::Var);
    assert_eq!(tokens[0].line, 2);
    assert_eq!(tokens[1].string, "x");
    assert_eq!(tokens[1].line, 2);
    assert_eq!(tokens[2].string, "y");
    assert_eq!(tokens[2].line, 3);
}

#[test]
fn token_type_codes_follow_declaration_order() {
    assert_eq!(token_type_code(TokenType::LeftParen), 0);
    assert_eq!(token_type_code(TokenType::Identifier), 19);
    assert_eq!(token_type_code(TokenType::Str), 20);
    assert_eq!(token_type_code(TokenType::Number), 21);
    assert_eq!(token_type_code(TokenType::Error), 38);
    assert_eq!(token_type_code(TokenType::EoF), 39);
}

#[test]
fn compile_renders_the_token_trace() {
    let src = String::from("var x = 1;");
    let trace = compile(&src);
    assert_eq!(trace, "0001 36 'var'\n   | 19 'x'\n   | 13 '='\n   | 21 '1'\n   | 08 ';'\n   | 39 ''\n");
}

#[test]
fn compile_marks_repeated_lines_with_a_continuation() {
    let src = String::from("1\n2 3");
    let trace = compile(&src);
    assert_eq!(trace, "0001 21 '1'\n0002 21 '2'\n   | 21 '3'\n   | 39 ''\n");
}
