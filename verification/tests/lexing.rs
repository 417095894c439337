use tokenizer::lexer::{Lexer, Token, TokenKind};
use tokenizer::lexer_fsm::LexerFsm;

fn scan(source: &str) -> Vec<Token> {
    let mut lexer = Lexer::new(source);
    lexer.tokenize()
}

fn assert_token(t: &Token, kind: TokenKind, text: &str, line: usize, column: usize) {
    assert_eq!(t.kind, kind);
    assert_eq!(t.text, text.chars().collect::<Vec<char>>());
    assert_eq!(t.line, line);
    assert_eq!(t.column, column);
}

#[test]
fn empty_input_yields_no_tokens() {
    let tokens = scan("");
    assert_eq!(tokens.len(), 0);
}

#[test]
fn assignment_line() {
    let tokens = scan("a = 1 + 2 * 3\n");
    assert_eq!(tokens.len(), 8);
    assert_token(&tokens[0], TokenKind::Identifier, "a", 0, 1);
    assert_token(&tokens[1], TokenKind::Equals, "=", 0, 3);
    assert_token(&tokens[2], TokenKind::Number, "1", 0, 5);
    assert_token(&tokens[3], TokenKind::Plus, "+", 0, 7);
    assert_token(&tokens[4], TokenKind::Number, "2", 0, 9);
    assert_token(&tokens[5], TokenKind::Star, "*", 0, 11);
    assert_token(&tokens[6], TokenKind::Number, "3", 0, 13);
    assert_token(&tokens[7], TokenKind::EndOfLine, "\n", 0, 14);
}

#[test]
fn comment_line_is_one_token_without_newline() {
    let tokens = scan("# comment\n");
    assert_eq!(tokens.len(), 1);
    assert_token(&tokens[0], TokenKind::Comment, "# comment", 0, 1);
}

#[test]
fn comment_advances_line_counter() {
    let tokens = scan("# comment\nx");
    assert_eq!(tokens.len(), 2);
    assert_token(&tokens[0], TokenKind::Comment, "# comment", 0, 1);
    assert_token(&tokens[1], TokenKind::Identifier, "x", 1, 1);
}

#[test]
fn two_lines_increment_line_values() {
    let tokens = scan("b = 4 - 5\nb = 6 / 2\n");
    assert_eq!(tokens.len(), 12);
    assert_token(&tokens[0], TokenKind::Identifier, "b", 0, 1);
    assert_token(&tokens[1], TokenKind::Equals, "=", 0, 3);
    assert_token(&tokens[2], TokenKind::Number, "4", 0, 5);
    assert_token(&tokens[3], TokenKind::Minus, "-", 0, 7);
    assert_token(&tokens[4], TokenKind::Number, "5", 0, 9);
    assert_token(&tokens[5], TokenKind::EndOfLine, "\n", 0, 10);
    assert_token(&tokens[6], TokenKind::Identifier, "b", 1, 1);
    assert_token(&tokens[7], TokenKind::Equals, "=", 1, 3);
    assert_token(&tokens[8], TokenKind::Number, "6", 1, 5);
    assert_token(&tokens[9], TokenKind::Slash, "/", 1, 7);
    assert_token(&tokens[10], TokenKind::Number, "2", 1, 9);
    assert_token(&tokens[11], TokenKind::EndOfLine, "\n", 1, 10);
}

#[test]
fn unknown_character_does_not_abort_the_scan() {
    let tokens = scan("a = 1 @ 2\n");
    assert_eq!(tokens.len(), 6);
    assert_token(&tokens[0], TokenKind::Identifier, "a", 0, 1);
    assert_token(&tokens[1], TokenKind::Equals, "=", 0, 3);
    assert_token(&tokens[2], TokenKind::Number, "1", 0, 5);
    assert_token(&tokens[3], TokenKind::Unknown, "@", 0, 7);
    assert_token(&tokens[4], TokenKind::Number, "2", 0, 9);
    assert_token(&tokens[5], TokenKind::EndOfLine, "\n", 0, 10);
}

#[test]
fn token_texts_plus_skipped_account_for_the_input() {
    let source = "a = 1 + 2 * 3\n";
    let tokens = scan(source);
    let text_total: usize = tokens.iter().map(|t| t.text.len()).sum();
    let skipped_blanks = 6;
    assert_eq!(text_total + skipped_blanks, source.chars().count());
}

#[test]
fn comment_newline_is_the_only_dropped_comment_character() {
    let source = "# c\nx";
    let tokens = scan(source);
    let text_total: usize = tokens.iter().map(|t| t.text.len()).sum();
    let dropped_newline = 1;
    assert_eq!(text_total + dropped_newline, source.chars().count());
}

#[test]
fn two_independent_scans_yield_identical_tokens() {
    let source = "a = 1 + 2 * 3\n# note\nb = a / 7\n";
    let first = scan(source);
    let second = scan(source);
    assert_eq!(first, second);
}

#[test]
fn maximal_runs_are_single_tokens() {
    let tokens = scan("abc123");
    assert_eq!(tokens.len(), 2);
    assert_token(&tokens[0], TokenKind::Identifier, "abc", 0, 1);
    assert_token(&tokens[1], TokenKind::Number, "123", 0, 4);
}

#[test]
fn parentheses() {
    let tokens = scan("(a)");
    assert_eq!(tokens.len(), 3);
    assert_token(&tokens[0], TokenKind::LeftParen, "(", 0, 1);
    assert_token(&tokens[1], TokenKind::Identifier, "a", 0, 2);
    assert_token(&tokens[2], TokenKind::RightParen, ")", 0, 3);
}

#[test]
fn tab_is_skipped_but_counted_in_columns() {
    let tokens = scan("a\tb");
    assert_eq!(tokens.len(), 2);
    assert_token(&tokens[0], TokenKind::Identifier, "a", 0, 1);
    assert_token(&tokens[1], TokenKind::Identifier, "b", 0, 3);
}

#[test]
fn comment_at_end_of_input_without_newline() {
    let tokens = scan("# end");
    assert_eq!(tokens.len(), 1);
    assert_token(&tokens[0], TokenKind::Comment, "# end", 0, 1);
}

#[test]
fn minus_before_digits_is_a_separate_token() {
    let tokens = scan("-5");
    assert_eq!(tokens.len(), 2);
    assert_token(&tokens[0], TokenKind::Minus, "-", 0, 1);
    assert_token(&tokens[1], TokenKind::Number, "5", 0, 2);
}

#[test]
fn fsm_starts_at_the_beginning() {
    let symbols: Vec<char> = "a = 1\n".chars().collect();
    let fsm = LexerFsm::new(&symbols);
    assert_eq!(fsm.symbols, symbols);
    assert_eq!(fsm.position, 0);
}
