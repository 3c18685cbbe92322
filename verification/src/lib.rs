//! A small compiler-construction library. Its centre is a regular-expression
//! engine that compiles a pattern string straight to a deterministic finite
//! automaton through the position calculus (nullable / firstpos / lastpos /
//! followpos), with no nondeterministic automaton in between. Beside it stand
//! two classroom parser generators over a four-symbol arithmetic grammar: an
//! LL(1) parse-table builder and an SLR automaton.

pub mod ast;
pub mod characters;
pub mod engine;
pub mod groups;
pub mod laws;
pub mod ll1;
pub mod parsing;
pub mod slr;
pub mod state_machine_builder;

use vstd::prelude::*;

use crate::ast::get_ast_for_concatenation_list;
use crate::ast::spec_full_ast;
use crate::ast::spec_no_accept_leaf;
use crate::ast::spec_nullable;
use crate::ast::RegexAst;
use crate::ast::RegexAstElements;
use crate::characters::pre_lex_seeds;
use crate::characters::spec_pre_lex;
use crate::characters::spec_pre_lex_widths;
use crate::engine::spec_accepting;
use crate::engine::RegexEngine;
use crate::groups::MatchingGroupView;
use crate::parsing::calculate_concatenation_list;
use crate::parsing::stack_views;
use crate::parsing::RegexError;
use crate::parsing::SpecParseResult;
use crate::parsing::State;
use crate::state_machine_builder::spec_no_empty_marker;
use crate::state_machine_builder::StateMachineBuilder;

verus! {

/// The syntax tree a pattern string denotes: its seeds pre-lexed, parsed into
/// an arena and a concatenation list, and folded into a tree with the one
/// accepting sentinel appended.
pub open spec fn spec_regex_tree(s: Seq<char>) -> Result<RegexAst, RegexError> {
    match crate::parsing::spec_parse_tokens(spec_pre_lex(s), spec_pre_lex_widths(s)) {
        SpecParseResult::Parsed(stack, list, consumed_source, consumed_seeds) => spec_full_ast(
            stack,
            list,
        ),
        SpecParseResult::Failed(e) => Result::Err(e),
    }
}

/// Parses a pattern into its syntax tree: the tree is exactly the one the
/// pattern denotes, a concatenation of the parsed expression with the
/// accepting sentinel leaf, and the parsed expression holds no sentinel of
/// its own.
pub fn get_regex_syntax_tree(regex: &str) -> (r: Result<RegexAstElements, RegexError>)
    ensures
        match r {
            Result::Ok(tree) => {
                &&& spec_regex_tree(regex@) == Result::<RegexAst, RegexError>::Ok(tree@)
                &&& match tree@ {
                    RegexAst::Concatenation(inner, sentinel) => spec_no_accept_leaf(*inner)
                        && *sentinel == RegexAst::Leaf(MatchingGroupView::AcceptedState),
                    _ => false,
                }
            },
            Result::Err(e) => spec_regex_tree(regex@) == Result::<RegexAst, RegexError>::Err(e),
        },
{
    let mut stack: Vec<State> = Vec::new();
    let (tokens, widths) = pre_lex_seeds(regex);
    proof {
        assert(stack_views(stack@) =~= Seq::<crate::parsing::StateView>::empty());
    }
    let (concatenation_list, _seeds_consumed) = match calculate_concatenation_list(
        &mut stack,
        &tokens,
        &widths,
        0,
    ) {
        Result::Ok(parsed) => parsed,
        Result::Err(e) => {
            return Result::Err(e);
        },
    };
    get_ast_for_concatenation_list(&stack, &concatenation_list.list)
}

impl RegexEngine {
    /// Compiles a finished syntax tree.
    pub(crate) fn new(ast: &RegexAstElements) -> (r: Result<RegexEngine, RegexError>)
        ensures
            match r {
                Result::Ok(engine) => spec_accepting(engine@, 0)
                    == crate::ast::spec_firstpos_has_accept(ast@) && spec_no_empty_marker(ast@)
                    && crate::engine::engine_wf(engine@)
                    && crate::state_machine_builder::engine_realizes_tree(engine@, ast@),
                Result::Err(e) => e == RegexError::InvalidOperatorState && !spec_no_empty_marker(
                    ast@,
                ),
            },
    {
        StateMachineBuilder::create_regex_engine(ast)
    }
}

/// Compiles a pattern string into a matching engine. On success, the engine's
/// verdict on the empty input is the start state's accepting flag, and both
/// equal the nullability of the parsed expression (the tree left of the
/// appended sentinel).
pub fn get_regex_engine(regex: &str) -> (r: Result<RegexEngine, RegexError>)
    ensures
        match r {
            Result::Ok(engine) => match spec_regex_tree(regex@) {
                Result::Ok(tree) => {
                    &&& spec_no_empty_marker(tree)
                    &&& crate::engine::engine_wf(engine@)
                    &&& crate::state_machine_builder::engine_realizes_tree(engine@, tree)
                    &&& match tree {
                        RegexAst::Concatenation(inner, sentinel) => {
                            &&& spec_accepting(engine@, 0) == spec_nullable(*inner)
                            &&& crate::engine::spec_matches(engine@, Seq::<char>::empty())
                                == spec_nullable(*inner)
                        },
                        _ => false,
                    }
                },
                Result::Err(_) => false,
            },
            Result::Err(e) => match spec_regex_tree(regex@) {
                Result::Ok(tree) => e == RegexError::InvalidOperatorState && !spec_no_empty_marker(
                    tree,
                ),
                Result::Err(parse_error) => e == parse_error,
            },
        },
{
    let tree = match get_regex_syntax_tree(regex) {
        Result::Ok(tree) => tree,
        Result::Err(e) => {
            return Result::Err(e);
        },
    };
    let engine = match RegexEngine::new(&tree) {
        Result::Ok(engine) => engine,
        Result::Err(e) => {
            return Result::Err(e);
        },
    };
    proof {
        match tree@ {
            RegexAst::Concatenation(inner, sentinel) => {
                crate::ast::lemma_no_accept_leaf_firstpos(*inner);
                assert(crate::ast::spec_firstpos_has_accept(
                    RegexAst::Leaf(MatchingGroupView::AcceptedState),
                ));
                assert(crate::ast::spec_firstpos_has_accept(tree@) == (
                crate::ast::spec_firstpos_has_accept(*inner) || (spec_nullable(*inner)
                    && crate::ast::spec_firstpos_has_accept(*sentinel))));
                assert(crate::ast::spec_firstpos_has_accept(tree@) == spec_nullable(*inner));
                crate::laws::lemma_empty_match_is_start_acceptance(engine@);
            },
            _ => {
                assert(false);
            },
        }
    }
    Result::Ok(engine)
}

} // verus!
