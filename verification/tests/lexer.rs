use rdfio::parse::lexer::Lexer;
use rdfio::parse::lexer::Token;

#[test]
fn parse_period() {
    let mut l = Lexer::new(".");
    assert_eq!(l.next().unwrap().unwrap().1, Token::Period);
}

#[test]
fn parse_double_caret() {
    let mut l = Lexer::new("^^");
    assert_eq!(l.next().unwrap().unwrap().1, Token::Carets);
}

#[test]
fn iriref_token_with_span() {
    let mut l = Lexer::new("<foo>");
    assert_eq!(l.next().unwrap().unwrap(), (0, Token::IRIRef("foo"), 5));
    assert!(l.next().is_none());
}

#[test]
fn empty_iriref_token() {
    let mut l = Lexer::new("<>");
    assert_eq!(l.next().unwrap().unwrap(), (0, Token::IRIRef(""), 2));
    assert!(l.next().is_none());
}

#[test]
fn unterminated_iriref_fails() {
    let mut l = Lexer::new("<foo");
    assert_eq!(l.next().unwrap().unwrap_err().offset, 0);
}

#[test]
fn string_literal_token() {
    let mut l = Lexer::new("\"hi\"");
    assert_eq!(l.next().unwrap().unwrap(), (0, Token::StringLiteralQuote("hi"), 4));
}

#[test]
fn unterminated_string_fails() {
    let mut l = Lexer::new("\"hi");
    assert_eq!(l.next().unwrap().unwrap_err().offset, 0);
}

#[test]
fn lang_tag_and_directives() {
    let mut l = Lexer::new("@en");
    assert_eq!(l.next().unwrap().unwrap(), (0, Token::LangTag("en"), 3));
    let mut l = Lexer::new("@en-us");
    assert_eq!(l.next().unwrap().unwrap().1, Token::LangTag("en-us"));
    let mut l = Lexer::new("@prefix");
    assert_eq!(l.next().unwrap().unwrap().1, Token::Prefix);
    let mut l = Lexer::new("@base");
    assert_eq!(l.next().unwrap().unwrap().1, Token::Base);
    let mut l = Lexer::new("@");
    assert_eq!(l.next().unwrap().unwrap_err().offset, 0);
}

#[test]
fn keywords() {
    let mut l = Lexer::new("a");
    assert_eq!(l.next().unwrap().unwrap().1, Token::A);
    let mut l = Lexer::new("true");
    assert_eq!(l.next().unwrap().unwrap().1, Token::True);
    let mut l = Lexer::new("false");
    assert_eq!(l.next().unwrap().unwrap().1, Token::False);
    let mut l = Lexer::new("PREFIX");
    assert_eq!(l.next().unwrap().unwrap().1, Token::SparqlPrefix);
    let mut l = Lexer::new("Base");
    assert_eq!(l.next().unwrap().unwrap().1, Token::SparqlBase);
}

#[test]
fn prefixed_names() {
    let mut l = Lexer::new("ex:b");
    assert_eq!(l.next().unwrap().unwrap().1, Token::PNAME_LN);
    let mut l = Lexer::new("ex:");
    assert_eq!(l.next().unwrap().unwrap().1, Token::PNAME_NS);
    let mut l = Lexer::new("ex");
    assert_eq!(l.next().unwrap().unwrap_err().offset, 0);
}

#[test]
fn numeric_classes() {
    let mut l = Lexer::new("42");
    assert_eq!(l.next().unwrap().unwrap(), (0, Token::Integer, 2));
    let mut l = Lexer::new("-7");
    assert_eq!(l.next().unwrap().unwrap().1, Token::Integer);
    let mut l = Lexer::new("3.25");
    assert_eq!(l.next().unwrap().unwrap(), (0, Token::Decimal, 4));
    let mut l = Lexer::new("4e2");
    assert_eq!(l.next().unwrap().unwrap().1, Token::Double);
    let mut l = Lexer::new("1.5E-3");
    assert_eq!(l.next().unwrap().unwrap(), (0, Token::Double, 6));
    let mut l = Lexer::new("+");
    assert_eq!(l.next().unwrap().unwrap_err().offset, 0);
    let mut l = Lexer::new("1e");
    assert_eq!(l.next().unwrap().unwrap_err().offset, 0);
}

#[test]
fn integer_then_period() {
    let mut l = Lexer::new("1.");
    assert_eq!(l.next().unwrap().unwrap(), (0, Token::Integer, 1));
    assert_eq!(l.next().unwrap().unwrap(), (1, Token::Period, 2));
    assert!(l.next().is_none());
}

#[test]
fn comment_runs_to_end_of_line() {
    let mut l = Lexer::new("# hi\n.");
    assert_eq!(l.next().unwrap().unwrap(), (0, Token::Comment(" hi"), 4));
    assert_eq!(l.next().unwrap().unwrap(), (4, Token::EOL, 5));
    assert_eq!(l.next().unwrap().unwrap(), (5, Token::Period, 6));
    assert!(l.next().is_none());
}

#[test]
fn blank_node_label_token() {
    let mut l = Lexer::new("_:b");
    assert_eq!(l.next().unwrap().unwrap(), (0, Token::BlankNodeLabel("b"), 3));
    let mut l = Lexer::new("_:");
    assert_eq!(l.next().unwrap().unwrap_err().offset, 0);
}

#[test]
fn brackets_and_anon() {
    let mut l = Lexer::new("[]");
    assert_eq!(l.next().unwrap().unwrap(), (0, Token::ANON, 2));
    let mut l = Lexer::new("[ ]");
    assert_eq!(l.next().unwrap().unwrap().1, Token::LeftBracket);
    assert_eq!(l.next().unwrap().unwrap().1, Token::RightBracket);
    let mut l = Lexer::new("();,");
    assert_eq!(l.next().unwrap().unwrap().1, Token::LeftParen);
    assert_eq!(l.next().unwrap().unwrap().1, Token::RightParen);
    assert_eq!(l.next().unwrap().unwrap().1, Token::SemiColon);
    assert_eq!(l.next().unwrap().unwrap().1, Token::Comma);
}

#[test]
fn whitespace_is_skipped() {
    let mut l = Lexer::new("  .\t.");
    assert_eq!(l.next().unwrap().unwrap(), (2, Token::Period, 3));
    assert_eq!(l.next().unwrap().unwrap(), (4, Token::Period, 5));
    assert!(l.next().is_none());
}

#[test]
fn unknown_character_fails_with_offset() {
    let mut l = Lexer::new(" %");
    assert_eq!(l.next().unwrap().unwrap_err().offset, 1);
}

#[test]
fn single_caret_fails() {
    let mut l = Lexer::new("^a");
    assert_eq!(l.next().unwrap().unwrap_err().offset, 0);
}

#[test]
fn statement_token_stream() {
    let mut l = Lexer::new("<a> <b> \"c\"@en .");
    assert_eq!(l.next().unwrap().unwrap(), (0, Token::IRIRef("a"), 3));
    assert_eq!(l.next().unwrap().unwrap(), (4, Token::IRIRef("b"), 7));
    assert_eq!(l.next().unwrap().unwrap(), (8, Token::StringLiteralQuote("c"), 11));
    assert_eq!(l.next().unwrap().unwrap(), (11, Token::LangTag("en"), 14));
    assert_eq!(l.next().unwrap().unwrap(), (15, Token::Period, 16));
    assert!(l.next().is_none());
}
