use dotfiles_installer::config::lexer::{Lexer, Token};

#[test]
fn test_basic_ident() {
    let mut lexer = Lexer::new("git.repo");
    assert_eq!(lexer.next_token(), Token::Ident("git.repo".to_string()));
    assert_eq!(lexer.next_token(), Token::Eof);
}

#[test]
fn test_string() {
    let mut lexer = Lexer::new("\"hello world\"");
    assert_eq!(lexer.next_token(), Token::String("hello world".to_string()));
    assert_eq!(lexer.next_token(), Token::Eof);
}

#[test]
fn test_comment() {
    let mut lexer = Lexer::new("# this is a comment\nkey = \"value\"");
    assert_eq!(lexer.next_token(), Token::Comment);
    assert_eq!(lexer.next_token(), Token::Ident("key".to_string()));
}

#[test]
fn slash_comment_stops_before_line_break() {
    let mut lexer = Lexer::new("// note\nx");
    assert_eq!(lexer.next_token(), Token::Comment);
    assert_eq!(lexer.next_token(), Token::Newline);
    assert_eq!(lexer.next_token(), Token::Ident("x".to_string()));
    assert_eq!(lexer.next_token(), Token::Eof);
}

#[test]
fn punctuation_and_keyword() {
    let mut lexer = Lexer::new("include = [ \"a\" , ]");
    assert_eq!(lexer.next_token(), Token::Include);
    assert_eq!(lexer.next_token(), Token::Equals);
    assert_eq!(lexer.next_token(), Token::ListStart);
    assert_eq!(lexer.next_token(), Token::String("a".to_string()));
    assert_eq!(lexer.next_token(), Token::Comma);
    assert_eq!(lexer.next_token(), Token::ListEnd);
    assert_eq!(lexer.next_token(), Token::Eof);
}

#[test]
fn line_and_column_follow_the_text() {
    let mut lexer = Lexer::new("a\n  b");
    assert_eq!(lexer.current_line(), 1);
    assert_eq!(lexer.next_token(), Token::Ident("a".to_string()));
    assert_eq!(lexer.current_col(), 2);
    assert_eq!(lexer.next_token(), Token::Newline);
    assert_eq!((lexer.current_line(), lexer.current_col()), (2, 1));
    assert_eq!(lexer.next_token(), Token::Ident("b".to_string()));
    assert_eq!((lexer.current_line(), lexer.current_col()), (2, 4));
}

#[test]
fn unterminated_string_runs_to_the_end() {
    let mut lexer = Lexer::new("\"abc");
    assert_eq!(lexer.next_token(), Token::String("abc".to_string()));
    assert_eq!(lexer.next_token(), Token::Eof);
}

#[test]
fn lone_slash_is_not_a_token() {
    let mut lexer = Lexer::new("  /x");
    assert!(!lexer.at_token());
    assert_eq!(lexer.fault_message(), "Unexpected character '/' at 1:3");
    let mut other = Lexer::new("@");
    assert!(!other.at_token());
    assert_eq!(other.fault_message(), "Unexpected character at 1:1");
}

#[test]
fn line_counts_breaks_and_column_counts_since() {
    let mut lx = Lexer::new("k = \"v\"\n# c\nz  = \"a\nb\"");
    assert_eq!((lx.line, lx.col), (1, 1));
    let expected = [
        (Token::Ident("k".to_string()), (1, 2)),
        (Token::Equals, (1, 4)),
        (Token::String("v".to_string()), (1, 8)),
        (Token::Newline, (2, 1)),
        (Token::Comment, (3, 1)),
        (Token::Ident("z".to_string()), (3, 2)),
        (Token::Equals, (3, 5)),
        (Token::String("a\nb".to_string()), (4, 3)),
        (Token::Eof, (4, 3)),
    ];
    for (t, pos) in expected {
        assert_eq!(lx.next_token(), t);
        assert_eq!((lx.line, lx.col), pos);
    }
}
