use cfg_lexer::error::{CfgError, ErrorKind};
use cfg_lexer::scanner::{scan_source, Scanner};
use cfg_lexer::token::{Object, Token};
use cfg_lexer::token_type::TokenType;

fn scan_ok(src: &str) -> Vec<Token> {
    match scan_source(src.to_string()) {
        Ok(v) => v,
        Err(e) => panic!("unexpected error {:?}", e),
    }
}

fn scan_err(src: &str) -> CfgError {
    match scan_source(src.to_string()) {
        Ok(v) => panic!("unexpected tokens {:?}", v),
        Err(e) => e,
    }
}

fn kinds(ts: &[Token]) -> Vec<TokenType> {
    ts.iter().map(|t| t.ttype).collect()
}

fn num_text(t: &Token) -> String {
    match &t.literal {
        Some(Object::Num(s)) => s.clone(),
        other => panic!("not a number literal: {:?}", other),
    }
}

fn str_text(t: &Token) -> String {
    match &t.literal {
        Some(Object::Str(s)) => s.clone(),
        other => panic!("not a string literal: {:?}", other),
    }
}

#[test]
fn empty_source_gives_only_eof() {
    let ts = scan_ok("");
    assert_eq!(ts.len(), 1);
    assert_eq!(ts[0].ttype, TokenType::Eof);
    assert_eq!(ts[0].lexname, "");
    assert!(ts[0].literal.is_none());
    assert_eq!(ts[0].line, 1);
}

#[test]
fn blank_source_gives_eof_on_last_line() {
    let ts = scan_ok("  \n\t\r\n \n");
    assert_eq!(kinds(&ts), vec![TokenType::Eof]);
    assert_eq!(ts[0].line, 4);
}

#[test]
fn line_comment_is_skipped_and_newline_counts() {
    let ts = scan_ok("// anything ( \" /*\nx");
    assert_eq!(kinds(&ts), vec![TokenType::Identifier, TokenType::Eof]);
    assert_eq!(ts[0].lexname, "x");
    assert_eq!(ts[0].line, 2);
    assert_eq!(ts[1].line, 2);
}

#[test]
fn line_comment_at_end_of_input() {
    let ts = scan_ok("a // tail");
    assert_eq!(kinds(&ts), vec![TokenType::Identifier, TokenType::Eof]);
}

#[test]
fn nested_block_comment_produces_nothing() {
    let ts = scan_ok("/* a /* b */ c */");
    assert_eq!(kinds(&ts), vec![TokenType::Eof]);
    let ts = scan_ok("/* a /* b */ c */ d");
    assert_eq!(kinds(&ts), vec![TokenType::Identifier, TokenType::Eof]);
    assert_eq!(ts[0].lexname, "d");
}

#[test]
fn nested_block_comment_needs_every_level_closed() {
    let e = scan_err("/* a /* b */ c");
    assert_eq!(e.kind, ErrorKind::UnterminatedComment);
    assert_eq!(e.line, 1);
}

#[test]
fn block_comment_counts_lines() {
    let ts = scan_ok("/* one\ntwo\n*/ x");
    assert_eq!(ts[0].lexname, "x");
    assert_eq!(ts[0].line, 3);
}

#[test]
fn multi_line_string() {
    let ts = scan_ok("\"a\nb\"");
    assert_eq!(kinds(&ts), vec![TokenType::String, TokenType::Eof]);
    assert_eq!(str_text(&ts[0]), "a\nb");
    assert_eq!(ts[0].lexname, "\"a\nb\"");
    assert_eq!(ts[0].line, 1);
    assert_eq!(ts[1].line, 2);
}

#[test]
fn string_literal_strips_quotes() {
    let ts = scan_ok("x = \"hi there\";");
    assert_eq!(
        kinds(&ts),
        vec![TokenType::Identifier, TokenType::Assign, TokenType::String, TokenType::SemiColon, TokenType::Eof]
    );
    assert_eq!(str_text(&ts[2]), "hi there");
}

#[test]
fn number_with_fraction() {
    let ts = scan_ok("3.14");
    assert_eq!(kinds(&ts), vec![TokenType::Number, TokenType::Eof]);
    assert_eq!(ts[0].lexname, "3.14");
    let v: f64 = num_text(&ts[0]).parse().unwrap();
    assert_eq!(v, 3.14);
}

#[test]
fn number_with_trailing_dot() {
    let ts = scan_ok("3.");
    assert_eq!(kinds(&ts), vec![TokenType::Number, TokenType::Dot, TokenType::Eof]);
    let v: f64 = num_text(&ts[0]).parse().unwrap();
    assert_eq!(v, 3.0);
    assert_eq!(ts[1].lexname, ".");
}

#[test]
fn number_followed_by_dot_and_name() {
    let ts = scan_ok("12.abs");
    assert_eq!(kinds(&ts), vec![TokenType::Number, TokenType::Dot, TokenType::Identifier, TokenType::Eof]);
    assert_eq!(num_text(&ts[0]), "12");
}

#[test]
fn keyword_and_longer_identifier() {
    let ts = scan_ok("for");
    assert_eq!(kinds(&ts), vec![TokenType::For, TokenType::Eof]);
    let ts = scan_ok("forX");
    assert_eq!(kinds(&ts), vec![TokenType::Identifier, TokenType::Eof]);
    assert_eq!(ts[0].lexname, "forX");
    assert!(ts[0].literal.is_none());
}

#[test]
fn every_keyword() {
    let ts = scan_ok("and or true false class fun for var nil if this else while return super print");
    assert_eq!(
        kinds(&ts),
        vec![
            TokenType::And, TokenType::Or, TokenType::True, TokenType::False, TokenType::Class,
            TokenType::Fun, TokenType::For, TokenType::Var, TokenType::Nil, TokenType::If,
            TokenType::This, TokenType::Else, TokenType::While, TokenType::Return, TokenType::Super,
            TokenType::Print, TokenType::Eof,
        ]
    );
}

#[test]
fn keywords_are_case_sensitive() {
    let ts = scan_ok("For NIL");
    assert_eq!(kinds(&ts), vec![TokenType::Identifier, TokenType::Identifier, TokenType::Eof]);
}

#[test]
fn identifiers_take_underscores_and_digits() {
    let ts = scan_ok("_foo_bar9 x1");
    assert_eq!(kinds(&ts), vec![TokenType::Identifier, TokenType::Identifier, TokenType::Eof]);
    assert_eq!(ts[0].lexname, "_foo_bar9");
    assert_eq!(ts[1].lexname, "x1");
}

#[test]
fn two_character_operators_win() {
    let ts = scan_ok(">=");
    assert_eq!(kinds(&ts), vec![TokenType::GreaterEqual, TokenType::Eof]);
    assert_eq!(ts[0].lexname, ">=");
    let ts = scan_ok("!= == <= > = < !");
    assert_eq!(
        kinds(&ts),
        vec![
            TokenType::BangEqual, TokenType::Equal, TokenType::LessEqual, TokenType::Greater,
            TokenType::Assign, TokenType::Less, TokenType::Bang, TokenType::Eof,
        ]
    );
}

#[test]
fn punctuation_and_slash() {
    let ts = scan_ok("(){},.-+;*/");
    assert_eq!(
        kinds(&ts),
        vec![
            TokenType::LeftParen, TokenType::RightParen, TokenType::LeftBrace, TokenType::RightBrace,
            TokenType::Comma, TokenType::Dot, TokenType::Minus, TokenType::Plus, TokenType::SemiColon,
            TokenType::Star, TokenType::Slash, TokenType::Eof,
        ]
    );
}

#[test]
fn unterminated_string_reports_last_line() {
    let e = scan_err("x\n\"abc\ndef");
    assert_eq!(e.kind, ErrorKind::UnterminatedString);
    assert_eq!(e.line, 3);
}

#[test]
fn unterminated_comment_reports_last_line() {
    let e = scan_err("/* abc\n\n");
    assert_eq!(e.kind, ErrorKind::UnterminatedComment);
    assert_eq!(e.line, 3);
}

#[test]
fn unexpected_character() {
    let e = scan_err("a\nb @ c");
    assert_eq!(e.kind, ErrorKind::UnexpectedCharacter);
    assert_eq!(e.line, 2);
}

#[test]
fn error_stops_the_whole_scan() {
    let e = scan_err("# \"open");
    assert_eq!(e.kind, ErrorKind::UnexpectedCharacter);
}

#[test]
fn lines_are_tracked_per_token() {
    let ts = scan_ok("a\nb\n\nc");
    let lines: Vec<usize> = ts.iter().map(|t| t.line).collect();
    assert_eq!(lines, vec![1, 2, 4, 4]);
}

#[test]
fn separate_units_match_their_concatenation() {
    let a = "var x = 1;\n";
    let b = "print x >= 2.5; // done\n\"s\"\n";
    let ta = scan_ok(a);
    let tb = scan_ok(b);
    let tab = scan_ok(&format!("{}{}", a, b));
    let offset = ta[ta.len() - 1].line - 1;
    assert_eq!(tab.len(), ta.len() - 1 + tb.len());
    for (i, t) in tab.iter().enumerate() {
        let (u, d) = if i < ta.len() - 1 { (&ta[i], 0) } else { (&tb[i + 1 - ta.len()], offset) };
        assert_eq!(t.ttype, u.ttype);
        assert_eq!(t.lexname, u.lexname);
        assert_eq!(t.line, u.line + d);
    }
}

#[test]
fn scanner_step_by_step() {
    let mut s = Scanner::new("ab 1".to_string());
    assert!(!s.is_at_end());
    assert!(s.scan_token().is_ok());
    assert!(s.scan_token().is_ok());
    assert!(s.scan_token().is_ok());
    assert!(s.is_at_end());
    let ts = s.scan_tokens().unwrap();
    assert_eq!(kinds(&ts), vec![TokenType::Identifier, TokenType::Number, TokenType::Eof]);
}

#[test]
fn token_constructors() {
    let t = Token::new(TokenType::Identifier, "x".to_string(), None, 7);
    assert_eq!(t.ttype, TokenType::Identifier);
    assert_eq!(t.lexname, "x");
    assert_eq!(t.line, 7);
    let e = Token::eof(3);
    assert_eq!(e.ttype, TokenType::Eof);
    assert_eq!(e.lexname, "");
    assert_eq!(e.line, 3);
}

#[test]
fn error_constructor() {
    let e = CfgError::error(4, ErrorKind::UnterminatedString, "oops".to_string());
    assert_eq!(e.line, 4);
    assert_eq!(e.kind, ErrorKind::UnterminatedString);
    assert_eq!(e.message, "oops");
}

#[test]
fn error_messages_follow_the_kind() {
    assert_eq!(scan_err("@").message, "Unexpected character");
    assert_eq!(scan_err("\"x").message, "Unterminated string.");
    assert_eq!(scan_err("/*").message, "Unterminated comment.");
}

#[test]
fn scanner_state_after_unexpected_character() {
    let mut s = Scanner::new("a\n$".to_string());
    assert!(s.scan_token().is_ok());
    assert!(s.scan_token().is_ok());
    let e = s.scan_token().unwrap_err();
    assert_eq!(e.kind, ErrorKind::UnexpectedCharacter);
    assert_eq!(e.line, 2);
    assert_eq!(e.message, "Unexpected character");
}

#[test]
fn nested_comment_left_open_reports_line_reached() {
    let e = scan_err("/* a /* b */\n");
    assert_eq!(e.kind, ErrorKind::UnterminatedComment);
    assert_eq!(e.line, 2);
}
