use lexparse::ll1::Grammar;
use lexparse::ll1::Token;

#[test]
fn test_first_e() {
    let grammar = Grammar::new();
    let expected_set = vec![Token::OpenBracket, Token::Id];

    let first_set = grammar.get_first("E");

    assert_eq!(expected_set, first_set);
}

#[test]
fn test_first_e_stroke() {
    let grammar = Grammar::new();
    let expected_set = vec![Token::Plus, Token::EmptySet];

    let first_set = grammar.get_first("E'");

    assert_eq!(expected_set, first_set);
}

#[test]
fn test_first_t() {
    let grammar = Grammar::new();
    let expected_set = vec![Token::OpenBracket, Token::Id];

    let first_set = grammar.get_first("T");

    assert_eq!(expected_set, first_set);
}

#[test]
fn test_first_t_stroke() {
    let grammar = Grammar::new();
    let expected_set = vec![Token::Times, Token::EmptySet];

    let first_set = grammar.get_first("T'");

    assert_eq!(expected_set, first_set);
}

#[test]
fn test_first_f() {
    let grammar = Grammar::new();
    let expected_set = vec![Token::OpenBracket, Token::Id];

    let first_set = grammar.get_first("F");

    assert_eq!(expected_set, first_set);
}

#[test]
fn test_follow_e() {
    let grammar = Grammar::new();
    let expected_set = vec![Token::EndSymbol, Token::ClosingBracket];

    let follow_set = grammar.get_follow("E");

    assert_eq!(expected_set, follow_set);
}

#[test]
fn test_follow_e_stroke() {
    let grammar = Grammar::new();
    let expected_set = vec![Token::EndSymbol, Token::ClosingBracket];

    let follow_set = grammar.get_follow("E'");

    assert_eq!(expected_set, follow_set);
}

#[test]
fn test_follow_t() {
    let grammar = Grammar::new();
    let expected_set = vec![Token::Plus, Token::EndSymbol, Token::ClosingBracket];

    let follow_set = grammar.get_follow("T");

    assert_eq!(expected_set, follow_set);
}

#[test]
fn test_follow_t_stroke() {
    let grammar = Grammar::new();
    let expected_set = vec![Token::Plus, Token::EndSymbol, Token::ClosingBracket];

    let follow_set = grammar.get_follow("T'");

    assert_eq!(expected_set, follow_set);
}

#[test]
fn test_follow_f() {
    let grammar = Grammar::new();
    let expected_set = vec![
        Token::Times,
        Token::Plus,
        Token::EndSymbol,
        Token::ClosingBracket,
    ];

    let follow_set = grammar.get_follow("F");

    assert_eq!(expected_set, follow_set);
}
