use lexparse::ast::RegexAstElements;
use lexparse::characters::get_character_array;
use lexparse::get_regex_engine;
use lexparse::get_regex_syntax_tree;
use lexparse::groups::MatchingGroup;
use lexparse::parsing::CharacterGroupCalculation;
use lexparse::parsing::ConcatenationList;
use lexparse::parsing::RegexError;
use lexparse::parsing::State;
use lexparse::slr::ast::ast_create_addition;
use lexparse::slr::ast::ast_create_calculation;
use lexparse::slr::ast::ast_create_multiplication;
use lexparse::slr::ast::ast_create_number;
use lexparse::slr::ast::Ast;
use lexparse::state_machine_builder::DeterministicState;

#[test]
fn empty_input_matches_exactly_the_nullable_patterns() {
    let nullable = get_regex_engine("b*").unwrap();
    assert_eq!(true, nullable.matches(""));

    let also_nullable = get_regex_engine("a?").unwrap();
    assert_eq!(true, also_nullable.matches(""));

    let not_nullable = get_regex_engine("ab").unwrap();
    assert_eq!(false, not_nullable.matches(""));

    let alternation = get_regex_engine("a|b*").unwrap();
    assert_eq!(true, alternation.matches(""));
}

#[test]
fn matching_is_deterministic_across_repeated_calls() {
    let engine = get_regex_engine("a(b|c)d*").unwrap();
    let inputs = ["abd", "acddd", "ab", "ad", "", "abdz"];
    for input in inputs {
        let first_verdict = engine.matches(input);
        let second_verdict = engine.matches(input);
        let third_verdict = engine.matches(input);
        assert_eq!(first_verdict, second_verdict);
        assert_eq!(second_verdict, third_verdict);
    }
}

#[test]
fn plus_desugars_to_one_occurrence_and_zero_or_more() {
    let plus_tree = get_regex_syntax_tree("ab+").unwrap();
    let star_tree = get_regex_syntax_tree("abb*").unwrap();
    assert_eq!(plus_tree, star_tree);

    let plus_engine = get_regex_engine("ab+").unwrap();
    let star_engine = get_regex_engine("abb*").unwrap();
    for input in ["", "a", "ab", "abb", "abbbbb", "b", "aab"] {
        assert_eq!(plus_engine.matches(input), star_engine.matches(input));
    }

    // A group's `+` repeats the last concatenation entry of the group.
    let group_plus_tree = get_regex_syntax_tree("(ab)+").unwrap();
    let group_star_tree = get_regex_syntax_tree("abb*").unwrap();
    assert_eq!(group_star_tree, group_plus_tree);
}

#[test]
fn range_class_rejects_characters_outside_the_range() {
    let engine = get_regex_engine("[a-c]").unwrap();
    assert_eq!(true, engine.matches("a"));
    assert_eq!(true, engine.matches("b"));
    assert_eq!(true, engine.matches("c"));
    assert_eq!(false, engine.matches("d"));
    assert_eq!(false, engine.matches(""));
}

#[test]
fn unterminated_character_class_is_rejected() {
    assert_eq!(
        Err(RegexError::UnterminatedCharacterClass),
        get_regex_syntax_tree("[ab")
    );
    assert_eq!(
        Some(RegexError::UnterminatedCharacterClass),
        get_regex_engine("a[b").err()
    );
}

#[test]
fn dangling_operators_are_rejected() {
    assert_eq!(Err(RegexError::DanglingOperator), get_regex_syntax_tree("*"));
    assert_eq!(Err(RegexError::DanglingOperator), get_regex_syntax_tree("?a"));
    assert_eq!(Err(RegexError::DanglingOperator), get_regex_syntax_tree("+b"));
    assert!(get_regex_engine("*a").is_err());
}

#[test]
fn empty_pattern_cannot_be_compiled() {
    // The empty pattern parses to the transient empty marker, which the
    // compiler rejects; an empty alternation branch does the same.
    let tree = get_regex_syntax_tree("").unwrap();
    assert_eq!(
        RegexAstElements::Concatenation(
            Box::new(RegexAstElements::Empty),
            Box::new(RegexAstElements::Leaf(MatchingGroup::AcceptedState)),
        ),
        tree
    );
    assert_eq!(
        Some(RegexError::InvalidOperatorState),
        get_regex_engine("").err()
    );
    assert!(get_regex_engine("a|").is_err());
}

#[test]
fn pre_lexer_resolves_escapes_and_keeps_incomplete_ones_literal() {
    assert_eq!(
        vec![MatchingGroup::Character('\u{ff}')],
        get_character_array("\\xff")
    );
    assert_eq!(
        vec![MatchingGroup::Character('a'), MatchingGroup::Character('\n')],
        get_character_array("a\\n")
    );
    assert_eq!(
        vec![
            MatchingGroup::Character('\\'),
            MatchingGroup::Character('x')
        ],
        get_character_array("\\x")
    );
    assert_eq!(
        vec![
            MatchingGroup::Character('\\'),
            MatchingGroup::Character('x'),
            MatchingGroup::Character('f')
        ],
        get_character_array("\\xf")
    );
    assert_eq!(vec![MatchingGroup::Character('\\')], get_character_array("\\"));
}

#[test]
fn quoting_suppresses_operators_and_negative_classes_invert() {
    let quoted = get_regex_engine("\"a*\"").unwrap();
    assert_eq!(true, quoted.matches("a*"));
    assert_eq!(false, quoted.matches("a"));
    assert_eq!(false, quoted.matches("aa"));

    // Group resolution scans the interned table in order, so the negative
    // class is placed after the literal here to keep both reachable.
    let negative = get_regex_engine("c[^ab]").unwrap();
    assert_eq!(true, negative.matches("cz"));
    assert_eq!(false, negative.matches("ca"));
    assert_eq!(false, negative.matches("c"));
}

#[test]
fn parse_state_constructors_record_their_fields() {
    let state = State::new(MatchingGroup::Character('a'), None, None);
    assert_eq!(false, state.is_escaped);
    let escaped = State::new_escaped(MatchingGroup::Character('*'), Some(vec![0]), None);
    assert_eq!(true, escaped.is_escaped);
    assert_eq!(Some(vec![0]), escaped.left_next);

    let list = ConcatenationList::new(vec![1, 2], 5);
    assert_eq!(vec![1, 2], list.list);
    assert_eq!(5, list.consumed_characters);

    let class = CharacterGroupCalculation::new(MatchingGroup::NegativeGroup(Vec::new()), 3);
    assert_eq!(3, class.consumed_characters);

    let deterministic = DeterministicState::new(2, vec![4, 7]);
    assert_eq!(2, deterministic.index);
    assert_eq!(vec![4, 7], deterministic.non_deterministic_states);
    assert_eq!(false, deterministic.is_marked);
}

#[test]
fn arithmetic_tree_operations_rebuild_the_stack() {
    let mut stack = vec![Ast::Number(0)];
    ast_create_number(&mut stack);
    assert_eq!(vec![Ast::Number(0), Ast::Number(0)], stack);

    ast_create_addition(&mut stack);
    assert_eq!(
        vec![Ast::Add(Box::new(Ast::Number(0)), Box::new(Ast::Number(0)))],
        stack
    );

    ast_create_calculation(&mut stack);
    assert_eq!(
        vec![Ast::Calculation(Box::new(Ast::Add(
            Box::new(Ast::Number(0)),
            Box::new(Ast::Number(0))
        )))],
        stack
    );

    ast_create_number(&mut stack);
    ast_create_multiplication(&mut stack);
    match &stack[0] {
        Ast::Multiply(left, _) => assert_eq!(Ast::Number(0), **left),
        other => panic!("unexpected tree: {:?}", other),
    }
}

#[test]
fn unknown_names_have_empty_first_sets() {
    let grammar = lexparse::ll1::Grammar::new();
    let first = grammar.get_first("X");
    assert_eq!(Vec::<lexparse::ll1::Token>::new(), first);
}
