//! The laws of the engine, stated and proved once for all inputs: what the
//! empty input means, that matching is a pure function of the engine, and
//! that `+` desugars to one occurrence concatenated with `*` of the same
//! sub-expression.

use vstd::prelude::*;

use crate::ast::lemma_seq_bound_ge;
use crate::ast::lemma_seq_bound_le;
use crate::ast::seq_bound;
use crate::ast::spec_effective;
use crate::ast::spec_fold_piece;
use crate::ast::spec_full_ast;
use crate::ast::spec_partial_ast_from;
use crate::ast::RegexAst;
use crate::engine::spec_accepting;
use crate::engine::spec_matches;
use crate::engine::RegexEngineView;
use crate::groups::MatchingGroupView;
use crate::parsing::arena_wf;
use crate::parsing::entry_wf;
use crate::parsing::list_wf;
use crate::parsing::spec_leaf;
use crate::parsing::spec_parse;
use crate::parsing::spec_unary;
use crate::parsing::RegexError;
use crate::parsing::SpecParseResult;
use crate::parsing::StateView;

verus! {

/// On the empty input, a match is exactly the start state's accepting flag.
pub proof fn lemma_empty_match_is_start_acceptance(v: RegexEngineView)
    ensures
        spec_matches(v, Seq::<char>::empty()) == spec_accepting(v, 0),
{
}

} // verus!
verus! {

/// Matching is deterministic: two verdicts over the same engine tables and
/// the same input are the same verdict (there is no hidden state).
pub proof fn lemma_matching_has_no_hidden_state(
    v: RegexEngineView,
    s: Seq<char>,
    first_verdict: bool,
    second_verdict: bool,
)
    requires
        first_verdict == spec_matches(v, s),
        second_verdict == spec_matches(v, s),
    ensures
        first_verdict == second_verdict,
{
}

/// The runtime resolves a character only to a matching group that accepts
/// it: whenever resolution from position `i` finds a group, that group
/// matches the character.
pub proof fn lemma_resolved_group_accepts(groups: Seq<MatchingGroupView>, c: char, i: int)
    ensures
        match crate::engine::spec_resolve_from(groups, c, i) {
            Option::Some(k) => 0 <= k < groups.len() && crate::groups::group_matches(groups[k], c),
            Option::None => true,
        },
    decreases groups.len() - i,
{
    if 0 <= i < groups.len() {
        lemma_resolved_group_accepts(groups, c, i + 1);
    }
}

/// A fold reads only the arena entries below the bound of its list, so a
/// grown arena folds the same list to the same tree.
proof fn lemma_fold_frame(
    stack1: Seq<StateView>,
    stack2: Seq<StateView>,
    list: Seq<usize>,
    i: int,
    acc: RegexAst,
)
    requires
        arena_wf(stack1),
        arena_wf(stack2),
        stack2.len() >= stack1.len(),
        forall|k: int| 0 <= k < stack1.len() ==> stack2[k] == #[trigger] stack1[k],
        list_wf(stack1, list),
    ensures
        spec_partial_ast_from(stack1, list, i, acc) == spec_partial_ast_from(stack2, list, i, acc),
    decreases seq_bound(list), list.len() - i,
{
    if 0 <= i < list.len() {
        let idx = list[i] as int;
        assert(entry_wf(stack1[idx], idx));
        assert(stack2[idx] == stack1[idx]);
        let entry = stack1[idx];
        let effective = spec_effective(entry);
        lemma_seq_bound_ge(list, i);
        if effective == MatchingGroupView::Character('*') || effective
            == MatchingGroupView::Character('?') {
            match entry.left_next {
                Option::Some(sub) => {
                    lemma_seq_bound_le(sub, idx);
                    lemma_fold_frame(stack1, stack2, sub, 0, RegexAst::Empty);
                    match spec_partial_ast_from(stack1, sub, 0, RegexAst::Empty) {
                        Result::Ok(child) => {
                            let node = if effective == MatchingGroupView::Character('*') {
                                RegexAst::ZeroOrMore(Box::new(child))
                            } else {
                                RegexAst::ZeroOrOne(Box::new(child))
                            };
                            lemma_fold_frame(stack1, stack2, list, i + 1, spec_fold_piece(acc, node));
                        },
                        Result::Err(_) => {},
                    }
                },
                Option::None => {},
            }
        } else if effective == MatchingGroupView::Character('|') {
            match (entry.left_next, entry.right_next) {
                (Option::Some(left_list), Option::Some(right_list)) => {
                    lemma_seq_bound_le(left_list, idx);
                    lemma_seq_bound_le(right_list, idx);
                    lemma_fold_frame(stack1, stack2, left_list, 0, RegexAst::Empty);
                    lemma_fold_frame(stack1, stack2, right_list, 0, RegexAst::Empty);
                    match (
                        spec_partial_ast_from(stack1, left_list, 0, RegexAst::Empty),
                        spec_partial_ast_from(stack1, right_list, 0, RegexAst::Empty),
                    ) {
                        (Result::Ok(left), Result::Ok(right)) => {
                            let node = RegexAst::Alternation(Box::new(left), Box::new(right));
                            lemma_fold_frame(stack1, stack2, list, i + 1, spec_fold_piece(acc, node));
                        },
                        _ => {},
                    }
                },
                _ => {},
            }
        } else {
            lemma_fold_frame(
                stack1,
                stack2,
                list,
                i + 1,
                spec_fold_piece(acc, RegexAst::Leaf(entry.matching_group)),
            );
        }
    }
}

/// A fold over a list made of two parts is the fold of the first part,
/// continued over the second.
proof fn lemma_fold_split(
    stack: Seq<StateView>,
    l1: Seq<usize>,
    l2: Seq<usize>,
    i: int,
    acc: RegexAst,
)
    requires
        arena_wf(stack),
        list_wf(stack, l1),
        list_wf(stack, l2),
        0 <= i <= l1.len(),
    ensures
        spec_partial_ast_from(stack, l1 + l2, i, acc) == (match spec_partial_ast_from(
            stack,
            l1,
            i,
            acc,
        ) {
            Result::Ok(t) => spec_partial_ast_from(stack, l2, 0, t),
            Result::Err(e) => Result::Err(e),
        }),
    decreases l1.len() + l2.len() - i,
{
    assert(list_wf(stack, l1 + l2));
    if i == l1.len() {
        lemma_fold_shift(stack, l1, l2, 0, acc);
    } else {
        let idx = l1[i] as int;
        assert((l1 + l2)[i] == l1[i]);
        assert(entry_wf(stack[idx], idx));
        let entry = stack[idx];
        let effective = spec_effective(entry);
        if effective == MatchingGroupView::Character('*') || effective
            == MatchingGroupView::Character('?') {
            match entry.left_next {
                Option::Some(sub) => {
                    match spec_partial_ast_from(stack, sub, 0, RegexAst::Empty) {
                        Result::Ok(child) => {
                            let node = if effective == MatchingGroupView::Character('*') {
                                RegexAst::ZeroOrMore(Box::new(child))
                            } else {
                                RegexAst::ZeroOrOne(Box::new(child))
                            };
                            lemma_fold_split(stack, l1, l2, i + 1, spec_fold_piece(acc, node));
                        },
                        Result::Err(_) => {},
                    }
                },
                Option::None => {},
            }
        } else if effective == MatchingGroupView::Character('|') {
            match (entry.left_next, entry.right_next) {
                (Option::Some(left_list), Option::Some(right_list)) => {
                    match (
                        spec_partial_ast_from(stack, left_list, 0, RegexAst::Empty),
                        spec_partial_ast_from(stack, right_list, 0, RegexAst::Empty),
                    ) {
                        (Result::Ok(left), Result::Ok(right)) => {
                            let node = RegexAst::Alternation(Box::new(left), Box::new(right));
                            lemma_fold_split(stack, l1, l2, i + 1, spec_fold_piece(acc, node));
                        },
                        _ => {},
                    }
                },
                _ => {},
            }
        } else {
            lemma_fold_split(
                stack,
                l1,
                l2,
                i + 1,
                spec_fold_piece(acc, RegexAst::Leaf(entry.matching_group)),
            );
        }
    }
}

/// A fold over the second part of a split list, read through the combined
/// list's indices.
proof fn lemma_fold_shift(stack: Seq<StateView>, l1: Seq<usize>, l2: Seq<usize>, j: int, acc: RegexAst)
    requires
        arena_wf(stack),
        list_wf(stack, l1),
        list_wf(stack, l2),
        0 <= j <= l2.len(),
    ensures
        spec_partial_ast_from(stack, l1 + l2, l1.len() + j, acc) == spec_partial_ast_from(
            stack,
            l2,
            j,
            acc,
        ),
    decreases l2.len() - j,
{
    assert(list_wf(stack, l1 + l2));
    if j < l2.len() {
        let idx = l2[j] as int;
        assert((l1 + l2)[l1.len() + j] == l2[j]);
        assert(entry_wf(stack[idx], idx));
        let entry = stack[idx];
        let effective = spec_effective(entry);
        if effective == MatchingGroupView::Character('*') || effective
            == MatchingGroupView::Character('?') {
            match entry.left_next {
                Option::Some(sub) => {
                    match spec_partial_ast_from(stack, sub, 0, RegexAst::Empty) {
                        Result::Ok(child) => {
                            let node = if effective == MatchingGroupView::Character('*') {
                                RegexAst::ZeroOrMore(Box::new(child))
                            } else {
                                RegexAst::ZeroOrOne(Box::new(child))
                            };
                            lemma_fold_shift(stack, l1, l2, j + 1, spec_fold_piece(acc, node));
                        },
                        Result::Err(_) => {},
                    }
                },
                Option::None => {},
            }
        } else if effective == MatchingGroupView::Character('|') {
            match (entry.left_next, entry.right_next) {
                (Option::Some(left_list), Option::Some(right_list)) => {
                    match (
                        spec_partial_ast_from(stack, left_list, 0, RegexAst::Empty),
                        spec_partial_ast_from(stack, right_list, 0, RegexAst::Empty),
                    ) {
                        (Result::Ok(left), Result::Ok(right)) => {
                            let node = RegexAst::Alternation(Box::new(left), Box::new(right));
                            lemma_fold_shift(stack, l1, l2, j + 1, spec_fold_piece(acc, node));
                        },
                        _ => {},
                    }
                },
                _ => {},
            }
        } else {
            lemma_fold_shift(
                stack,
                l1,
                l2,
                j + 1,
                spec_fold_piece(acc, RegexAst::Leaf(entry.matching_group)),
            );
        }
    }
}

/// What a finished parse denotes: the tree of its arena and list, or its
/// error.
pub open spec fn spec_tree_of_parse(r: SpecParseResult) -> Result<RegexAst, RegexError> {
    match r {
        SpecParseResult::Parsed(stack, list, consumed_source, consumed_seeds) => spec_full_ast(
            stack,
            list,
        ),
        SpecParseResult::Failed(e) => Result::Err(e),
    }
}

/// Desugaring of `+`: from any parser state outside quotes, an ordinary
/// character followed by `+` parses to the same syntax tree as that character
/// twice followed by `*` — one mandatory occurrence concatenated with
/// zero-or-more of the same sub-expression, whatever the seeds' source
/// widths.
pub proof fn lemma_plus_desugars(
    stack: Seq<StateView>,
    list: Seq<usize>,
    c: char,
    plus_widths: Seq<usize>,
    star_widths: Seq<usize>,
)
    requires
        arena_wf(stack),
        list_wf(stack, list),
        stack.len() + 3 <= usize::MAX,
        c != '*' && c != '?' && c != '+' && c != '(' && c != ')' && c != '|' && c != '"' && c
            != '[',
    ensures
        spec_tree_of_parse(spec_parse(seq![c, '+'], plus_widths, 0, 0, stack, list, false))
            == spec_tree_of_parse(
            spec_parse(seq![c, c, '*'], star_widths, 0, 0, stack, list, false),
        ),
{
    let n = stack.len() as usize;
    let leaf_c = spec_leaf(MatchingGroupView::Character(c), false);

    let t1 = seq![c, '+'];
    let stack_p1 = stack.push(leaf_c);
    let list_p1 = list.push(n);
    assert(spec_parse(t1, plus_widths, 0, 0, stack, list, false) == spec_parse(
        t1,
        plus_widths,
        1,
        0,
        stack_p1,
        list_p1,
        false,
    ));
    let star_p = spec_unary('*', n);
    let stack_p = stack_p1.push(star_p);
    let list_p = list_p1.push((n + 1) as usize);
    assert(list_p1[list_p1.len() - 1] == n);
    assert(spec_parse(t1, plus_widths, 1, 0, stack_p1, list_p1, false) == spec_parse(
        t1,
        plus_widths,
        2,
        0,
        stack_p,
        list_p,
        false,
    ));
    assert(spec_parse(t1, plus_widths, 2, 0, stack_p, list_p, false) == SpecParseResult::Parsed(
        stack_p,
        list_p,
        crate::characters::width_sum(plus_widths, 0, 2),
        2,
    ));

    let t2 = seq![c, c, '*'];
    let stack_s2 = stack.push(leaf_c).push(leaf_c);
    let list_s2 = list.push(n).push((n + 1) as usize);
    assert(spec_parse(t2, star_widths, 0, 0, stack, list, false) == spec_parse(
        t2,
        star_widths,
        1,
        0,
        stack_p1,
        list_p1,
        false,
    ));
    assert(spec_parse(t2, star_widths, 1, 0, stack_p1, list_p1, false) == spec_parse(
        t2,
        star_widths,
        2,
        0,
        stack_s2,
        list_s2,
        false,
    ));
    let star_s = spec_unary('*', (n + 1) as usize);
    let stack_s = stack_s2.push(star_s);
    let list_s = list.push(n).push((n + 2) as usize);
    assert(list_s2[list_s2.len() - 1] == (n + 1) as usize);
    assert(list_s2.update(list_s2.len() - 1, (n + 2) as usize) =~= list_s);
    assert(spec_parse(t2, star_widths, 2, 0, stack_s2, list_s2, false) == spec_parse(
        t2,
        star_widths,
        3,
        0,
        stack_s,
        list_s,
        false,
    ));
    assert(spec_parse(t2, star_widths, 3, 0, stack_s, list_s, false) == SpecParseResult::Parsed(
        stack_s,
        list_s,
        crate::characters::width_sum(star_widths, 0, 3),
        3,
    ));

    // Both grown arenas extend the starting arena and stay well-formed.
    assert(arena_wf(stack_p)) by {
        assert forall|k: int| 0 <= k < stack_p.len() implies entry_wf(stack_p[k], k) by {
            if k < stack.len() {
                assert(entry_wf(stack[k], k));
            } else if k == stack.len() {
                assert(stack_p[k] == leaf_c);
            } else {
                assert(stack_p[k] == star_p);
            }
        }
    }
    assert(arena_wf(stack_s)) by {
        assert forall|k: int| 0 <= k < stack_s.len() implies entry_wf(stack_s[k], k) by {
            if k < stack.len() {
                assert(entry_wf(stack[k], k));
            } else if k == stack.len() || k == stack.len() + 1 {
                assert(stack_s[k] == leaf_c);
            } else {
                assert(stack_s[k] == star_s);
            }
        }
    }

    // The shared prefix folds identically on all three arenas.
    lemma_fold_frame(stack, stack_p, list, 0, RegexAst::Empty);
    lemma_fold_frame(stack, stack_s, list, 0, RegexAst::Empty);

    let tail_p = seq![n, (n + 1) as usize];
    let tail_s = seq![n, (n + 2) as usize];
    assert(list_p =~= list + tail_p);
    assert(list_s =~= list + tail_s);
    assert(list_wf(stack_p, tail_p));
    assert(list_wf(stack_s, tail_s));
    assert(list_wf(stack_p, list));
    assert(list_wf(stack_s, list));
    lemma_fold_split(stack_p, list, tail_p, 0, RegexAst::Empty);
    lemma_fold_split(stack_s, list, tail_s, 0, RegexAst::Empty);

    match spec_partial_ast_from(stack, list, 0, RegexAst::Empty) {
        Result::Ok(t) => {
            // The two tails fold to the same two pieces: the leaf, then a
            // zero-or-more node over an equal leaf.
            let node = RegexAst::ZeroOrMore(Box::new(RegexAst::Leaf(MatchingGroupView::Character(c))));
            let acc1 = spec_fold_piece(t, RegexAst::Leaf(MatchingGroupView::Character(c)));
            let plain_leaf = RegexAst::Leaf(MatchingGroupView::Character(c));
            assert(list_wf(stack_p, seq![n]));
            assert(stack_p[n as int] == leaf_c);
            assert(spec_effective(leaf_c) == MatchingGroupView::Character(c));
            assert(spec_fold_piece(RegexAst::Empty, plain_leaf) == plain_leaf);
            assert(spec_partial_ast_from(stack_p, seq![n], 0, RegexAst::Empty)
                == spec_partial_ast_from(stack_p, seq![n], 1, plain_leaf));
            assert(spec_partial_ast_from(stack_p, seq![n], 1, plain_leaf)
                == Result::<RegexAst, RegexError>::Ok(plain_leaf));
            assert(list_wf(stack_s, seq![(n + 1) as usize]));
            assert(stack_s[n + 1 as int] == leaf_c);
            assert(spec_partial_ast_from(stack_s, seq![(n + 1) as usize], 0, RegexAst::Empty)
                == spec_partial_ast_from(stack_s, seq![(n + 1) as usize], 1, plain_leaf));
            assert(spec_partial_ast_from(stack_s, seq![(n + 1) as usize], 1, plain_leaf)
                == Result::<RegexAst, RegexError>::Ok(plain_leaf));
            assert(spec_partial_ast_from(stack_p, tail_p, 0, t) == spec_partial_ast_from(
                stack_p,
                tail_p,
                1,
                acc1,
            ));
            assert(spec_partial_ast_from(stack_s, tail_s, 0, t) == spec_partial_ast_from(
                stack_s,
                tail_s,
                1,
                acc1,
            ));
            assert(spec_partial_ast_from(stack_p, tail_p, 1, acc1) == spec_partial_ast_from(
                stack_p,
                tail_p,
                2,
                spec_fold_piece(acc1, node),
            ));
            assert(spec_partial_ast_from(stack_s, tail_s, 1, acc1) == spec_partial_ast_from(
                stack_s,
                tail_s,
                2,
                spec_fold_piece(acc1, node),
            ));
        },
        Result::Err(e) => {},
    }
}

} // verus!
verus! {

/// Desugaring of `+` at the language level: from any parser state outside
/// quotes, compile the parse of an ordinary character followed by `+`, and
/// compile the parse of that character twice followed by `*` — the two
/// engines accept exactly the same strings, because the parses build equal
/// trees and engines realizing one tree run in step.
pub proof fn lemma_plus_desugars_languages(
    stack: Seq<StateView>,
    list: Seq<usize>,
    c: char,
    plus_widths: Seq<usize>,
    star_widths: Seq<usize>,
    plus_engine: RegexEngineView,
    star_engine: RegexEngineView,
    s: Seq<char>,
)
    requires
        arena_wf(stack),
        list_wf(stack, list),
        stack.len() + 3 <= usize::MAX,
        c != '*' && c != '?' && c != '+' && c != '(' && c != ')' && c != '|' && c != '"' && c
            != '[',
        spec_tree_of_parse(spec_parse(seq![c, '+'], plus_widths, 0, 0, stack, list, false)) is Ok,
        crate::state_machine_builder::engine_realizes_tree(
            plus_engine,
            spec_tree_of_parse(
                spec_parse(seq![c, '+'], plus_widths, 0, 0, stack, list, false),
            )->Ok_0,
        ),
        crate::state_machine_builder::engine_realizes_tree(
            star_engine,
            spec_tree_of_parse(
                spec_parse(seq![c, c, '*'], star_widths, 0, 0, stack, list, false),
            )->Ok_0,
        ),
        plus_engine.groups.len() <= usize::MAX,
    ensures
        spec_matches(plus_engine, s) == spec_matches(star_engine, s),
{
    lemma_plus_desugars(stack, list, c, plus_widths, star_widths);
    crate::state_machine_builder::lemma_engines_realizing_same_tree_agree(
        plus_engine,
        star_engine,
        spec_tree_of_parse(spec_parse(seq![c, '+'], plus_widths, 0, 0, stack, list, false))->Ok_0,
        s,
    );
}

} // verus!
