use lexparse::ll1::Grammar;
use lexparse::ll1::GrammarSymbol;
use lexparse::ll1::Token;

#[test]
fn first_e() {
    let grammar = Grammar::new();
    let expected_set = vec![Token::OpenBracket, Token::Id];

    let first_set = grammar.get_first("E");

    assert_eq!(expected_set, first_set);
}

#[test]
fn first_e_stroke() {
    let grammar = Grammar::new();
    let expected_set = vec![Token::Plus, Token::EmptySet];

    let first_set = grammar.get_first("E'");

    assert_eq!(expected_set, first_set);
}

#[test]
fn first_t() {
    let grammar = Grammar::new();
    let expected_set = vec![Token::OpenBracket, Token::Id];

    let first_set = grammar.get_first("T");

    assert_eq!(expected_set, first_set);
}

#[test]
fn first_t_stroke() {
    let grammar = Grammar::new();
    let expected_set = vec![Token::Times, Token::EmptySet];

    let first_set = grammar.get_first("T'");

    assert_eq!(expected_set, first_set);
}

#[test]
fn first_f() {
    let grammar = Grammar::new();
    let expected_set = vec![Token::OpenBracket, Token::Id];

    let first_set = grammar.get_first("F");

    assert_eq!(expected_set, first_set);
}

#[test]
fn follow_e() {
    let grammar = Grammar::new();
    let expected_set = vec![Token::EndSymbol, Token::ClosingBracket];

    let follow_set = grammar.get_follow("E");

    assert_eq!(expected_set, follow_set);
}

#[test]
fn follow_e_stroke() {
    let grammar = Grammar::new();
    let expected_set = vec![Token::EndSymbol, Token::ClosingBracket];

    let follow_set = grammar.get_follow("E'");

    assert_eq!(expected_set, follow_set);
}

#[test]
fn follow_t() {
    let grammar = Grammar::new();
    let expected_set = vec![Token::Plus, Token::EndSymbol, Token::ClosingBracket];

    let follow_set = grammar.get_follow("T");

    assert_eq!(expected_set, follow_set);
}

#[test]
fn follow_t_stroke() {
    let grammar = Grammar::new();
    let expected_set = vec![Token::Plus, Token::EndSymbol, Token::ClosingBracket];

    let follow_set = grammar.get_follow("T'");

    assert_eq!(expected_set, follow_set);
}

#[test]
fn follow_f() {
    let grammar = Grammar::new();
    let expected_set = vec![
        Token::Times,
        Token::Plus,
        Token::EndSymbol,
        Token::ClosingBracket,
    ];

    let follow_set = grammar.get_follow("F");

    assert_eq!(expected_set, follow_set);
}

#[test]
fn get_parser_table() {
    let grammar = Grammar::new();
    let parser_table = grammar.get_parse_table();
    let expected_table = get_expected_parser_table();

    // Compare the table row by row in order to see where an error is.
    for (expected_row, parser_row) in expected_table.iter().zip(parser_table.iter()) {
        assert_eq!(expected_row, parser_row);
    }

    assert_eq!(expected_table, parser_table);
}

fn get_expected_parser_table() -> Vec<(String, Vec<(Token, Vec<GrammarSymbol>)>)> {
    let e_opening_bracket_and_id_production = vec![
        GrammarSymbol::NonTerminal("T".to_string()),
        GrammarSymbol::NonTerminal("E'".to_string()),
    ];

    let e_stroke_plus_production = vec![
        GrammarSymbol::Terminal(Token::Plus),
        GrammarSymbol::NonTerminal("T".to_string()),
        GrammarSymbol::NonTerminal("E'".to_string()),
    ];

    let t_opening_bracket_and_id_production = vec![
        GrammarSymbol::NonTerminal("F".to_string()),
        GrammarSymbol::NonTerminal("T'".to_string()),
    ];

    let t_stroke_times_production = vec![
        GrammarSymbol::Terminal(Token::Times),
        GrammarSymbol::NonTerminal("F".to_string()),
        GrammarSymbol::NonTerminal("T'".to_string()),
    ];

    let f_id_production = vec![GrammarSymbol::Terminal(Token::Id)];
    let f_opening_bracket_production = vec![
        GrammarSymbol::Terminal(Token::OpenBracket),
        GrammarSymbol::NonTerminal("E".to_string()),
        GrammarSymbol::Terminal(Token::ClosingBracket),
    ];

    let e_line = vec![
        (Token::OpenBracket, e_opening_bracket_and_id_production.clone()),
        (Token::Id, e_opening_bracket_and_id_production),
    ];

    let e_stroke_line = vec![
        (Token::ClosingBracket, Vec::new()),
        (Token::Plus, e_stroke_plus_production),
        (Token::EndSymbol, Vec::new()),
    ];

    let t_line = vec![
        (Token::OpenBracket, t_opening_bracket_and_id_production.clone()),
        (Token::Id, t_opening_bracket_and_id_production),
    ];

    let t_stroke_line = vec![
        (Token::ClosingBracket, Vec::new()),
        (Token::Plus, Vec::new()),
        (Token::Times, t_stroke_times_production),
        (Token::EndSymbol, Vec::new()),
    ];

    let f_line = vec![
        (Token::Id, f_id_production),
        (Token::OpenBracket, f_opening_bracket_production),
    ];

    vec![
        ("E".to_string(), e_line),
        ("E'".to_string(), e_stroke_line),
        ("T".to_string(), t_line),
        ("T'".to_string(), t_stroke_line),
        ("F".to_string(), f_line),
    ]
}
