use lexparse::slr::grammar::Grammar;
use lexparse::slr::AstOperation;
use lexparse::slr::Reaction;
use lexparse::slr::Reduction;
use lexparse::slr::Token;

#[test]
fn table_lengths() {
    let grammar = Grammar::new();

    assert_eq!(12, grammar.get_goto_table().len());
    assert_eq!(12, grammar.get_slr_table().len());
}

#[test]
fn correct_action_table() {
    let grammar = Grammar::new();
    let expected_action_table = get_action_table();

    let action_table = grammar.get_slr_table();

    assert_eq!(expected_action_table, action_table);
}

#[test]
fn correct_goto_table() {
    let grammar = Grammar::new();
    let expected_goto_table = get_goto_table();

    let goto_table = grammar.get_goto_table();

    assert_eq!(expected_goto_table, goto_table);
}

fn get_action_table() -> Vec<Vec<(Token, Reaction)>> {
    let state_0_tokens = vec![
        (Token::new("Id"), Reaction::ShiftTo(5)),
        (Token::new("OpeningBracket"), Reaction::ShiftTo(4)),
    ];

    let state_1_tokens = vec![
        (Token::new("Plus"), Reaction::ShiftTo(6)),
        (Token::end_token("EndSymbol"), Reaction::Accept),
    ];

    let state_2_tokens = vec![
        (Token::new("Plus"), Reaction::Reduce(Reduction::new("E", 1))),
        (Token::new("Times"), Reaction::ShiftTo(7)),
        (
            Token::new("ClosingBracket"),
            Reaction::Reduce(Reduction::new("E", 1)),
        ),
        (
            Token::end_token("EndSymbol"),
            Reaction::Reduce(Reduction::new("E", 1)),
        ),
    ];

    let state_3_tokens = vec![
        (Token::new("Plus"), Reaction::Reduce(Reduction::new("T", 1))),
        (Token::new("Times"), Reaction::Reduce(Reduction::new("T", 1))),
        (
            Token::new("ClosingBracket"),
            Reaction::Reduce(Reduction::new("T", 1)),
        ),
        (
            Token::end_token("EndSymbol"),
            Reaction::Reduce(Reduction::new("T", 1)),
        ),
    ];

    let state_4_tokens = vec![
        (Token::new("Id"), Reaction::ShiftTo(5)),
        (Token::new("OpeningBracket"), Reaction::ShiftTo(4)),
    ];

    let reduce_to_number =
        Reaction::Reduce(Reduction::with_function("F", 1, AstOperation::CreateNumber));
    let state_5_tokens = vec![
        (Token::new("Plus"), reduce_to_number.clone()),
        (Token::new("Times"), reduce_to_number.clone()),
        (Token::new("ClosingBracket"), reduce_to_number.clone()),
        (Token::end_token("EndSymbol"), reduce_to_number.clone()),
    ];

    let state_6_tokens = vec![
        (Token::new("Id"), Reaction::ShiftTo(5)),
        (Token::new("OpeningBracket"), Reaction::ShiftTo(4)),
    ];

    let state_7_tokens = vec![
        (Token::new("Id"), Reaction::ShiftTo(5)),
        (Token::new("OpeningBracket"), Reaction::ShiftTo(4)),
    ];

    let state_8_tokens = vec![
        (Token::new("Plus"), Reaction::ShiftTo(6)),
        (Token::new("ClosingBracket"), Reaction::ShiftTo(11)),
    ];

    let reduce_to_addition =
        Reaction::Reduce(Reduction::with_function("E", 3, AstOperation::CreateAddition));
    let state_9_tokens = vec![
        (Token::new("Plus"), reduce_to_addition.clone()),
        (Token::new("Times"), Reaction::ShiftTo(7)),
        (Token::new("ClosingBracket"), reduce_to_addition.clone()),
        (Token::end_token("EndSymbol"), reduce_to_addition.clone()),
    ];

    let reduce_to_multiplication = Reaction::Reduce(Reduction::with_function(
        "T",
        3,
        AstOperation::CreateMultiplication,
    ));
    let state_10_tokens = vec![
        (Token::new("Plus"), reduce_to_multiplication.clone()),
        (Token::new("Times"), reduce_to_multiplication.clone()),
        (Token::new("ClosingBracket"), reduce_to_multiplication.clone()),
        (Token::end_token("EndSymbol"), reduce_to_multiplication.clone()),
    ];

    let reduce_to_calculation = Reaction::Reduce(Reduction::with_function(
        "F",
        3,
        AstOperation::CreateCalculation,
    ));
    let state_11_tokens = vec![
        (Token::new("Plus"), reduce_to_calculation.clone()),
        (Token::new("Times"), reduce_to_calculation.clone()),
        (Token::new("ClosingBracket"), reduce_to_calculation.clone()),
        (Token::end_token("EndSymbol"), reduce_to_calculation.clone()),
    ];

    vec![
        state_0_tokens,
        state_1_tokens,
        state_2_tokens,
        state_3_tokens,
        state_4_tokens,
        state_5_tokens,
        state_6_tokens,
        state_7_tokens,
        state_8_tokens,
        state_9_tokens,
        state_10_tokens,
        state_11_tokens,
    ]
}

fn get_goto_table() -> Vec<Vec<(String, usize)>> {
    let state_0_goto = vec![
        ("E".to_string(), 1),
        ("T".to_string(), 2),
        ("F".to_string(), 3),
    ];

    let state_4_goto = vec![
        ("E".to_string(), 8),
        ("T".to_string(), 2),
        ("F".to_string(), 3),
    ];

    let state_6_goto = vec![("T".to_string(), 9), ("F".to_string(), 3)];

    let state_7_goto = vec![("F".to_string(), 10)];

    vec![
        state_0_goto,
        Vec::new(),
        Vec::new(),
        Vec::new(),
        state_4_goto,
        Vec::new(),
        state_6_goto,
        state_7_goto,
        Vec::new(),
        Vec::new(),
        Vec::new(),
        Vec::new(),
    ]
}
