use rlox::error::RloxError;
use rlox::scanner::Scanner;
use rlox::tokens::TokenType::{
    And, Bang, BangEqual, Break, Class, Comma, Dot, Else, Eof, Equal, EqualEqual, False, For, Fun,
    Greater, GreaterEqual, Ident, If, LBrace, LParen, Less, LessEqual, Minus, Nil, Number, Or,
    Plus, Print, RBrace, RParen, Return, SemiColon, Slash, Star, Super, This, True, Var, While,
};
use rlox::tokens::{Literal, Token, TokenType};

fn scan(src: &str) -> Vec<Result<Token, RloxError>> {
    let mut scanner = Scanner::new(src);
    let mut all = Vec::new();
    while let Some(t) = scanner.next() {
        all.push(t);
        assert!(all.len() <= src.chars().count() + 1);
    }
    assert!(scanner.next().is_none());
    all
}

fn kinds(src: &str) -> Vec<TokenType> {
    scan(src).into_iter().map(|t| t.unwrap().token_type).collect()
}

#[test]
fn empty_input_is_one_end_token() {
    let all = scan("");
    assert_eq!(all.len(), 1);
    let t = all[0].as_ref().unwrap();
    assert_eq!(t.token_type, TokenType::Eof);
    assert_eq!(t.line, 1);
}

#[test]
fn punctuation_and_operators() {
    assert_eq!(
        kinds("(){},.-+;*/ ! != = == < <= > >="),
        vec![
            LParen, RParen, LBrace, RBrace, Comma, Dot, Minus, Plus, SemiColon, Star, Slash, Bang,
            BangEqual, Equal, EqualEqual, Less, LessEqual, Greater, GreaterEqual, Eof
        ]
    );
}

#[test]
fn every_reserved_word_is_a_keyword() {
    assert_eq!(
        kinds("and class else false fun for if nil or print return super this true var while break"),
        vec![
            And, Class, Else, False, Fun, For, If, Nil, Or, Print, Return, Super, This, True, Var,
            While, Break, Eof
        ]
    );
}

#[test]
fn reserved_looks_words_up() {
    assert_eq!(TokenType::reserved("while"), Some(TokenType::While));
    assert_eq!(TokenType::reserved("break"), Some(TokenType::Break));
    assert_eq!(TokenType::reserved("init"), None);
    assert_eq!(TokenType::reserved("While"), None);
    assert_eq!(TokenType::reserved(""), None);
}

#[test]
fn identifiers_take_letters_digits_and_underscores() {
    let all = scan("foo _bar b4z classy nil_ a=b");
    let words: Vec<(TokenType, String)> =
        all.into_iter().map(|t| t.unwrap()).map(|t| (t.token_type, t.lexeme)).collect();
    assert_eq!(
        words,
        vec![
            (TokenType::Ident, "foo".to_string()),
            (TokenType::Ident, "_bar".to_string()),
            (TokenType::Ident, "b4z".to_string()),
            (TokenType::Ident, "classy".to_string()),
            (TokenType::Ident, "nil_".to_string()),
            (TokenType::Ident, "a".to_string()),
            (TokenType::Equal, "=".to_string()),
            (TokenType::Ident, "b".to_string()),
            (TokenType::Eof, "\0".to_string()),
        ]
    );
}

#[test]
fn literals_carry_their_value() {
    let all = scan("nil true false 12.50 \"text\"");
    let lits: Vec<Option<Literal>> = all.into_iter().map(|t| t.unwrap().literal).collect();
    assert!(matches!(&lits[0], Some(Literal::Nil)));
    assert!(matches!(&lits[1], Some(Literal::Boolean(true))));
    assert!(matches!(&lits[2], Some(Literal::Boolean(false))));
    assert!(matches!(&lits[3], Some(Literal::Number(n)) if n == "12.50"));
    assert!(matches!(&lits[4], Some(Literal::String(s)) if s == "text"));
    assert!(lits[5].is_none());
}

#[test]
fn number_takes_a_point_only_before_a_digit() {
    let all = scan("1.5 2. 3.x .4 12");
    let words: Vec<String> = all.into_iter().map(|t| t.unwrap().lexeme).collect();
    assert_eq!(words, vec!["1.5", "2", ".", "3", ".", "x", ".", "4", "12", "\0"]);
}

#[test]
fn lines_and_offsets_are_counted() {
    let all = scan("var a\n  = 1;\n\nprint a;");
    let at: Vec<(usize, usize)> =
        all.into_iter().map(|t| t.unwrap()).map(|t| (t.line, t.offset)).collect();
    assert_eq!(at, vec![(1, 0), (1, 4), (2, 2), (2, 4), (2, 5), (4, 0), (4, 6), (4, 7), (4, 8)]);
}

#[test]
fn comment_runs_to_the_end_of_the_line() {
    assert_eq!(kinds("1 // two three\n4 / 5 // six"), vec![Number, Number, Slash, Number, Eof]);
    assert_eq!(kinds("// only a comment"), vec![Eof]);
}

#[test]
fn string_may_span_lines() {
    let all = scan("\"a\nb\" x");
    let s = all[0].as_ref().unwrap();
    assert_eq!(s.token_type, TokenType::StringLiteral);
    assert_eq!(s.lexeme, "\"a\nb\"");
    assert_eq!(s.line, 2);
    assert_eq!(all[1].as_ref().unwrap().line, 2);
}

#[test]
fn backslash_keeps_a_quote_in_the_string() {
    let all = scan("\"a\\\"b\"");
    let s = all[0].as_ref().unwrap();
    assert!(matches!(&s.literal, Some(Literal::String(text)) if text == "a\"b"));
    assert_eq!(s.lexeme, "\"a\"b\"");
    assert_eq!(all.len(), 2);
}

#[test]
fn unterminated_string_is_an_error_at_the_opening_line() {
    let all = scan("1\n\"abc\n\ndef");
    assert_eq!(all.len(), 3);
    assert!(matches!(&all[1], Err(RloxError::Lexical(2, msg, what))
        if msg == "Unterminated String" && what == "\"abc\n\ndef"));
    assert_eq!(all[2].as_ref().unwrap().token_type, TokenType::Eof);
}

#[test]
fn unexpected_character_is_an_error_and_scanning_goes_on() {
    let all = scan("a # b");
    assert_eq!(all.len(), 4);
    assert!(matches!(&all[1], Err(RloxError::Lexical(1, msg, what))
        if msg == "Unexpected Character" && what == "#"));
    assert_eq!(all[2].as_ref().unwrap().lexeme, "b");
}

#[test]
fn unicode_blanks_are_passed_over() {
    assert_eq!(kinds("1\u{a0}+\u{2003}2\t\r\n"), vec![Number, Plus, Number, Eof]);
}

#[test]
fn nul_ends_the_input() {
    assert_eq!(kinds("a\0b"), vec![Ident, Eof]);
}

#[test]
fn scanner_steps_one_character_at_a_time() {
    let mut s = Scanner::new("ab=");
    assert_eq!(s.peek(), 'a');
    assert_eq!(s.peek_next(), 'b');
    assert_eq!(s.lookahead(3), '=');
    assert_eq!(s.lookahead(4), '\0');
    assert_eq!(s.advance(), Some('a'));
    assert!(!s.match_advance('x'));
    assert!(s.match_advance('b'));
    assert_eq!(s.advance_until(&['=']), '\0');
    assert_eq!(s.advance(), Some('='));
    assert_eq!(s.advance(), Some('\0'));
    assert_eq!(s.advance(), None);
}

#[test]
fn advance_until_stops_before_the_set() {
    let mut s = Scanner::new("abc;def");
    assert_eq!(s.advance_until(&[';', ',']), 'c');
    assert_eq!(s.peek(), ';');
    assert_eq!(s.advance_until(&[';']), '\0');
    s.advance();
    assert_eq!(s.advance_until(&['!']), 'f');
    assert_eq!(s.peek(), '\0');
}

#[test]
fn default_token_is_the_end_of_input() {
    let t = Token::default();
    assert_eq!(t.token_type, TokenType::Eof);
    assert_eq!(t.lexeme, "");
    assert!(t.literal.is_none());
    assert_eq!((t.line, t.offset), (0, 0));
    let t = Token::new(TokenType::Ident, "x".to_string(), None, 3, 4);
    assert!(t.in_types(&[TokenType::Number, TokenType::Ident]));
    assert!(!t.in_types(&[TokenType::Number]));
    assert!(!t.in_types(&[]));
}

#[test]
fn kinds_have_names() {
    assert_eq!(TokenType::LParen.name(), "L_PAREN");
    assert_eq!(TokenType::SemiColon.name(), "SEMICOLON");
    assert_eq!(TokenType::BangEqual.name(), "BANG_EQ");
    assert_eq!(TokenType::EqualEqual.name(), "EQ_EQ");
    assert_eq!(TokenType::GreaterEqual.name(), "GREATER_EQ");
    assert_eq!(TokenType::LessEqual.name(), "LESS_EQ");
    assert_eq!(TokenType::StringLiteral.name(), "STRING");
    assert_eq!(TokenType::Number.name(), "NUM");
    assert_eq!(TokenType::Ident.name(), "IDENT");
    assert_eq!(TokenType::Break.name(), "BREAK");
    assert_eq!(TokenType::While.name(), "WHILE");
    assert_eq!(TokenType::Eof.name(), "EOF");
    let names: Vec<&str> = kinds("and class else false fun for if nil or print return super this true var")
        .into_iter()
        .map(|k| k.name())
        .collect();
    assert_eq!(
        names,
        vec![
            "AND", "CLASS", "ELSE", "FALSE", "FUN", "FOR", "IF", "NIL", "OR", "PRINT", "RETURN",
            "SUPER", "THIS", "TRUE", "VAR", "EOF"
        ]
    );
}

#[test]
fn literals_are_written_out() {
    assert_eq!(Literal::Nil.text(), "nil");
    assert_eq!(Literal::Boolean(true).text(), "true");
    assert_eq!(Literal::Boolean(false).text(), "false");
    assert_eq!(Literal::Number("12.50".to_string()).text(), "12.50");
    assert_eq!(Literal::String("a b".to_string()).text(), "a b");
    let all = scan("\"hi\" 7 nil");
    let texts: Vec<String> =
        all.into_iter().filter_map(|t| t.unwrap().literal).map(|l| l.text()).collect();
    assert_eq!(texts, vec!["hi".to_string(), "7".to_string(), "nil".to_string()]);
}
