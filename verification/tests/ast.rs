use fetefoto::ast::{tokenize, QueryError, Token, AST};

#[test]
fn test_parsing() {
    let input = "a AND b AND c d";
    let parsed = AST::try_parse_query(input);

    assert!(parsed.is_err(), "invalid parse succeeded");
    let input = "a AND (NOT (b OR c))";
    let ast = AST::parse_query(input);
    assert_eq!(
        ast.to_string(),
        "(name = \'a\' AND (NOT (name = \'b\' OR name = \'c\')))"
    );

    let input = "a AND b AND c AND d";
    let ast = AST::parse_query(input);
    assert_eq!(
        ast.to_string(),
        "(((name = \'a\' AND name = \'b\') AND name = \'c\') AND name = \'d\')"
    );
}

#[test]
fn or_groups_to_the_left_and_binds_looser_than_and() {
    let ast = AST::parse_query("a OR b AND c OR d");
    assert_eq!(
        ast.to_string(),
        "((name = 'a' OR (name = 'b' AND name = 'c')) OR name = 'd')"
    );
}

#[test]
fn not_binds_tighter_than_and() {
    let ast = AST::parse_query("NOT a AND NOT NOT b");
    assert_eq!(
        ast.to_string(),
        "((NOT name = 'a') AND (NOT (NOT name = 'b')))"
    );
}

#[test]
fn unicode_names_and_blanks() {
    let ast = AST::parse_query("\t(hi AND bye)\nOR NOT 你好  ");
    assert_eq!(
        ast.to_string(),
        "((name = 'hi' AND name = 'bye') OR (NOT name = '你好'))"
    );
}

#[test]
fn parentheses_need_no_blanks() {
    let ast = AST::parse_query("(a)AND(b)");
    assert_eq!(ast.to_string(), "(name = 'a' AND name = 'b')");
}

#[test]
fn single_name() {
    let ast = AST::parse_query("holiday");
    assert!(matches!(ast, AST::VAL(ref s) if s == "holiday"));
    assert_eq!(ast.to_string(), "name = 'holiday'");
}

#[test]
fn lower_case_keywords_are_names() {
    let ast = AST::parse_query("and OR not");
    assert_eq!(ast.to_string(), "(name = 'and' OR name = 'not')");
}

#[test]
fn refused_texts() {
    for bad in [
        "", "   ", "AND", "a AND", "a OR OR b", "(a", "a)", "()", "NOT", "a b", "(a AND b))",
        "NOT (a OR)",
    ] {
        match AST::try_parse_query(bad) {
            Err(e) => assert_eq!(e, QueryError::ParseFailed),
            Ok(a) => panic!("accepted {:?} as {:?}", bad, a),
        }
    }
}

#[test]
fn fully_parenthesised_text_reads_back() {
    let text = "((a OR NOT b) AND NOT NOT (c OR d))";
    let ast = AST::parse_query(text);
    assert_eq!(
        ast.to_string(),
        "((name = 'a' OR (NOT name = 'b')) AND (NOT (NOT (name = 'c' OR name = 'd'))))"
    );
}

#[test]
fn tokens_of_a_text() {
    let toks = tokenize(" (x\tAND y)OR NOT z_1 ");
    assert_eq!(toks.len(), 8);
    assert!(matches!(toks[0], Token::LParen));
    assert!(matches!(&toks[1], Token::Word(w) if w == "x"));
    assert!(matches!(toks[2], Token::And));
    assert!(matches!(&toks[3], Token::Word(w) if w == "y"));
    assert!(matches!(toks[4], Token::RParen));
    assert!(matches!(toks[5], Token::Or));
    assert!(matches!(toks[6], Token::Not));
    assert!(matches!(&toks[7], Token::Word(w) if w == "z_1"));
}
