//! The syntax-tree builder: folds a concatenation order list, left to right,
//! into a tree of `Concatenation` / `Alternation` / `ZeroOrMore` / `ZeroOrOne`
//! / `Leaf` nodes, expanding operator arena entries recursively, and finally
//! appends the single accepting sentinel leaf.

use vstd::prelude::*;

use crate::groups::MatchingGroup;
use crate::groups::MatchingGroupView;
use crate::parsing::arena_wf;
use crate::parsing::entry_wf;
use crate::parsing::list_wf;
use crate::parsing::stack_views;
use crate::parsing::RegexError;
use crate::parsing::State;
use crate::parsing::StateView;

verus! {

/// A node of the abstract syntax tree. `Empty` is the transient marker for
/// an empty accumulator during construction; it survives in the output only
/// for a pattern with nothing at its top level.
#[derive(Debug, PartialEq)]
pub enum RegexAstElements {
    Alternation(Box<RegexAstElements>, Box<RegexAstElements>),
    Concatenation(Box<RegexAstElements>, Box<RegexAstElements>),
    Leaf(MatchingGroup),
    Empty,
    ZeroOrMore(Box<RegexAstElements>),
    ZeroOrOne(Box<RegexAstElements>),
}

/// The mathematical value of a syntax tree.
pub enum RegexAst {
    Alternation(Box<RegexAst>, Box<RegexAst>),
    Concatenation(Box<RegexAst>, Box<RegexAst>),
    Leaf(MatchingGroupView),
    Empty,
    ZeroOrMore(Box<RegexAst>),
    ZeroOrOne(Box<RegexAst>),
}

/// The value of an executable syntax tree.
pub open spec fn ast_view(ast: &RegexAstElements) -> RegexAst
    decreases ast,
{
    match ast {
        RegexAstElements::Alternation(left, right) => RegexAst::Alternation(
            Box::new(ast_view(left)),
            Box::new(ast_view(right)),
        ),
        RegexAstElements::Concatenation(left, right) => RegexAst::Concatenation(
            Box::new(ast_view(left)),
            Box::new(ast_view(right)),
        ),
        RegexAstElements::Leaf(group) => RegexAst::Leaf(group@),
        RegexAstElements::Empty => RegexAst::Empty,
        RegexAstElements::ZeroOrMore(child) => RegexAst::ZeroOrMore(Box::new(ast_view(child))),
        RegexAstElements::ZeroOrOne(child) => RegexAst::ZeroOrOne(Box::new(ast_view(child))),
    }
}

impl View for RegexAstElements {
    type V = RegexAst;

    open spec fn view(&self) -> RegexAst {
        ast_view(self)
    }
}

/// Whether a tree's language contains the empty string, by the standard
/// position-calculus rules: repetition nodes always do, a concatenation needs
/// both sides, an alternation needs either side, and a leaf never does.
pub open spec fn spec_nullable(ast: RegexAst) -> bool
    decreases ast,
{
    match ast {
        RegexAst::Alternation(left, right) => spec_nullable(*left) || spec_nullable(*right),
        RegexAst::Concatenation(left, right) => spec_nullable(*left) && spec_nullable(*right),
        RegexAst::Leaf(_) => false,
        RegexAst::Empty => true,
        RegexAst::ZeroOrMore(_) => true,
        RegexAst::ZeroOrOne(_) => true,
    }
}

/// Whether the accepting sentinel leaf sits in a tree's firstpos: true for
/// the sentinel itself, reachable through the left of a concatenation, or
/// through its right when the left is nullable, and through either side of
/// the other operators.
pub open spec fn spec_firstpos_has_accept(ast: RegexAst) -> bool
    decreases ast,
{
    match ast {
        RegexAst::Alternation(left, right) => spec_firstpos_has_accept(*left)
            || spec_firstpos_has_accept(*right),
        RegexAst::Concatenation(left, right) => spec_firstpos_has_accept(*left) || (spec_nullable(
            *left,
        ) && spec_firstpos_has_accept(*right)),
        RegexAst::Leaf(group) => group is AcceptedState,
        RegexAst::Empty => false,
        RegexAst::ZeroOrMore(child) => spec_firstpos_has_accept(*child),
        RegexAst::ZeroOrOne(child) => spec_firstpos_has_accept(*child),
    }
}

/// Whether a tree holds no accepting sentinel leaf at all. The parser never
/// produces one; the compiler appends exactly one.
pub open spec fn spec_no_accept_leaf(ast: RegexAst) -> bool
    decreases ast,
{
    match ast {
        RegexAst::Alternation(left, right) => spec_no_accept_leaf(*left) && spec_no_accept_leaf(
            *right,
        ),
        RegexAst::Concatenation(left, right) => spec_no_accept_leaf(*left) && spec_no_accept_leaf(
            *right,
        ),
        RegexAst::Leaf(group) => !(group is AcceptedState),
        RegexAst::Empty => true,
        RegexAst::ZeroOrMore(child) => spec_no_accept_leaf(*child),
        RegexAst::ZeroOrOne(child) => spec_no_accept_leaf(*child),
    }
}

/// In a tree without the sentinel, the sentinel is not in the firstpos.
pub proof fn lemma_no_accept_leaf_firstpos(ast: RegexAst)
    requires
        spec_no_accept_leaf(ast),
    ensures
        !spec_firstpos_has_accept(ast),
    decreases ast,
{
    match ast {
        RegexAst::Alternation(left, right) => {
            lemma_no_accept_leaf_firstpos(*left);
            lemma_no_accept_leaf_firstpos(*right);
        },
        RegexAst::Concatenation(left, right) => {
            lemma_no_accept_leaf_firstpos(*left);
            lemma_no_accept_leaf_firstpos(*right);
        },
        RegexAst::ZeroOrMore(child) => {
            lemma_no_accept_leaf_firstpos(*child);
        },
        RegexAst::ZeroOrOne(child) => {
            lemma_no_accept_leaf_firstpos(*child);
        },
        _ => {},
    }
}

/// One more piece folded onto the accumulator: the first piece replaces the
/// empty marker, later pieces are concatenated on the right.
pub open spec fn spec_fold_piece(acc: RegexAst, node: RegexAst) -> RegexAst {
    if acc is Empty {
        node
    } else {
        RegexAst::Concatenation(Box::new(acc), Box::new(node))
    }
}

/// An upper bound for the values in a sequence of arena indices.
pub open spec fn seq_bound(list: Seq<usize>) -> int
    decreases list.len(),
{
    if list.len() == 0 {
        0
    } else {
        let rest = seq_bound(list.drop_last());
        if list.last() + 1 > rest {
            list.last() + 1
        } else {
            rest
        }
    }
}

/// Every value of the sequence is below `seq_bound`.
pub proof fn lemma_seq_bound_ge(list: Seq<usize>, i: int)
    requires
        0 <= i < list.len(),
    ensures
        list[i] < seq_bound(list),
    decreases list.len(),
{
    if i + 1 == list.len() {
    } else {
        lemma_seq_bound_ge(list.drop_last(), i);
    }
}

/// A bound on every value is a bound on `seq_bound`.
pub proof fn lemma_seq_bound_le(list: Seq<usize>, b: int)
    requires
        forall|m: int| 0 <= m < list.len() ==> (#[trigger] list[m]) < b,
        0 <= b,
    ensures
        seq_bound(list) <= b,
    decreases list.len(),
{
    if list.len() > 0 {
        lemma_seq_bound_le(list.drop_last(), b);
    }
}

/// The effective operator reading of an arena entry: a quoted character
/// counts as a plain letter, never as an operator.
pub open spec fn spec_effective(entry: StateView) -> MatchingGroupView {
    if entry.is_escaped {
        MatchingGroupView::Character('a')
    } else {
        entry.matching_group
    }
}

/// The fold of `list[i..]` onto `acc`: operator entries are expanded
/// recursively into subtrees over their operand lists, everything else is a
/// leaf of its own matching group. An operator entry without its operand
/// list stops the fold with `InvalidOperatorState`.
pub open spec fn spec_partial_ast_from(
    stack: Seq<StateView>,
    list: Seq<usize>,
    i: int,
    acc: RegexAst,
) -> Result<RegexAst, RegexError>
    decreases seq_bound(list), list.len() - i,
    when arena_wf(stack) && list_wf(stack, list)
    via spec_partial_ast_from_decreases
{
    if i < 0 || i >= list.len() {
        Result::Ok(acc)
    } else {
        let entry = stack[list[i] as int];
        let effective = spec_effective(entry);
        if effective == MatchingGroupView::Character('*') || effective
            == MatchingGroupView::Character('?') {
            match entry.left_next {
                Option::None => Result::Err(RegexError::InvalidOperatorState),
                Option::Some(sub) => {
                    let sub_result = spec_partial_ast_from(stack, sub, 0, RegexAst::Empty);
                    match sub_result {
                        Result::Err(e) => Result::Err(e),
                        Result::Ok(child) => {
                            let node = if effective == MatchingGroupView::Character('*') {
                                RegexAst::ZeroOrMore(Box::new(child))
                            } else {
                                RegexAst::ZeroOrOne(Box::new(child))
                            };
                            spec_partial_ast_from(stack, list, i + 1, spec_fold_piece(acc, node))
                        },
                    }
                },
            }
        } else if effective == MatchingGroupView::Character('|') {
            match (entry.left_next, entry.right_next) {
                (Option::Some(left_list), Option::Some(right_list)) => {
                    let left_result = spec_partial_ast_from(stack, left_list, 0, RegexAst::Empty);
                    let right_result = spec_partial_ast_from(stack, right_list, 0, RegexAst::Empty);
                    match (left_result, right_result) {
                        (Result::Ok(left), Result::Ok(right)) => {
                            let node = RegexAst::Alternation(Box::new(left), Box::new(right));
                            spec_partial_ast_from(stack, list, i + 1, spec_fold_piece(acc, node))
                        },
                        (Result::Err(e), _) => Result::Err(e),
                        (_, Result::Err(e)) => Result::Err(e),
                    }
                },
                _ => Result::Err(RegexError::InvalidOperatorState),
            }
        } else {
            spec_partial_ast_from(
                stack,
                list,
                i + 1,
                spec_fold_piece(acc, RegexAst::Leaf(entry.matching_group)),
            )
        }
    }
}

#[via_fn]
proof fn spec_partial_ast_from_decreases(
    stack: Seq<StateView>,
    list: Seq<usize>,
    i: int,
    acc: RegexAst,
) {
    if 0 <= i < list.len() {
        let idx = list[i] as int;
        assert(entry_wf(stack[idx], idx));
        lemma_seq_bound_ge(list, i);
        match stack[idx].left_next {
            Option::Some(sub) => {
                lemma_seq_bound_le(sub, idx);
            },
            Option::None => {},
        }
        match stack[idx].right_next {
            Option::Some(sub) => {
                lemma_seq_bound_le(sub, idx);
            },
            Option::None => {},
        }
    }
}

/// The fold of a whole concatenation list into a tree.
pub open spec fn spec_partial_ast(stack: Seq<StateView>, list: Seq<usize>) -> Result<
    RegexAst,
    RegexError,
> {
    spec_partial_ast_from(stack, list, 0, RegexAst::Empty)
}

/// The finished tree of a parse: the fold of the top-level list with the one
/// accepting sentinel leaf concatenated at its end.
pub open spec fn spec_full_ast(stack: Seq<StateView>, list: Seq<usize>) -> Result<
    RegexAst,
    RegexError,
> {
    match spec_partial_ast(stack, list) {
        Result::Ok(tree) => Result::Ok(
            RegexAst::Concatenation(
                Box::new(tree),
                Box::new(RegexAst::Leaf(MatchingGroupView::AcceptedState)),
            ),
        ),
        Result::Err(e) => Result::Err(e),
    }
}

/// A tree folded from a well-formed arena never holds the accepting sentinel:
/// only the step that finishes the whole tree appends it.
pub proof fn lemma_partial_ast_no_accept(
    stack: Seq<StateView>,
    list: Seq<usize>,
    i: int,
    acc: RegexAst,
)
    requires
        arena_wf(stack),
        list_wf(stack, list),
        spec_no_accept_leaf(acc),
    ensures
        match spec_partial_ast_from(stack, list, i, acc) {
            Result::Ok(tree) => spec_no_accept_leaf(tree),
            Result::Err(_) => true,
        },
    decreases seq_bound(list), list.len() - i,
{
    if 0 <= i < list.len() {
        let idx = list[i] as int;
        assert(entry_wf(stack[idx], idx));
        let entry = stack[idx];
        let effective = spec_effective(entry);
        lemma_seq_bound_ge(list, i);
        if effective == MatchingGroupView::Character('*') || effective
            == MatchingGroupView::Character('?') {
            match entry.left_next {
                Option::Some(sub) => {
                    lemma_seq_bound_le(sub, idx);
                    lemma_partial_ast_no_accept(stack, sub, 0, RegexAst::Empty);
                    match spec_partial_ast_from(stack, sub, 0, RegexAst::Empty) {
                        Result::Ok(child) => {
                            let node = if effective == MatchingGroupView::Character('*') {
                                RegexAst::ZeroOrMore(Box::new(child))
                            } else {
                                RegexAst::ZeroOrOne(Box::new(child))
                            };
                            assert(spec_no_accept_leaf(node));
                            assert(spec_no_accept_leaf(spec_fold_piece(acc, node)));
                            lemma_partial_ast_no_accept(stack, list, i + 1, spec_fold_piece(acc, node));
                        },
                        Result::Err(_) => {},
                    }
                },
                Option::None => {},
            }
        } else if effective == MatchingGroupView::Character('|') {
            match (entry.left_next, entry.right_next) {
                (Option::Some(left_list), Option::Some(right_list)) => {
                    lemma_seq_bound_le(left_list, idx);
                    lemma_seq_bound_le(right_list, idx);
                    lemma_partial_ast_no_accept(stack, left_list, 0, RegexAst::Empty);
                    lemma_partial_ast_no_accept(stack, right_list, 0, RegexAst::Empty);
                    match (
                        spec_partial_ast_from(stack, left_list, 0, RegexAst::Empty),
                        spec_partial_ast_from(stack, right_list, 0, RegexAst::Empty),
                    ) {
                        (Result::Ok(left), Result::Ok(right)) => {
                            let node = RegexAst::Alternation(Box::new(left), Box::new(right));
                            assert(spec_no_accept_leaf(node));
                            assert(spec_no_accept_leaf(spec_fold_piece(acc, node)));
                            lemma_partial_ast_no_accept(stack, list, i + 1, spec_fold_piece(acc, node));
                        },
                        _ => {},
                    }
                },
                _ => {},
            }
        } else {
            let node = RegexAst::Leaf(entry.matching_group);
            assert(spec_no_accept_leaf(node));
            assert(spec_no_accept_leaf(spec_fold_piece(acc, node)));
            lemma_partial_ast_no_accept(stack, list, i + 1, spec_fold_piece(acc, node));
        }
    }
}

/// One more piece folded onto the accumulator, executably.
fn fold_piece(ast: RegexAstElements, node: RegexAstElements) -> (r: RegexAstElements)
    ensures
        r@ == spec_fold_piece(ast@, node@),
{
    match ast {
        RegexAstElements::Empty => node,
        RegexAstElements::Alternation(left, right) => RegexAstElements::Concatenation(
            Box::new(RegexAstElements::Alternation(left, right)),
            Box::new(node),
        ),
        RegexAstElements::Concatenation(left, right) => RegexAstElements::Concatenation(
            Box::new(RegexAstElements::Concatenation(left, right)),
            Box::new(node),
        ),
        RegexAstElements::Leaf(group) => RegexAstElements::Concatenation(
            Box::new(RegexAstElements::Leaf(group)),
            Box::new(node),
        ),
        RegexAstElements::ZeroOrMore(child) => RegexAstElements::Concatenation(
            Box::new(RegexAstElements::ZeroOrMore(child)),
            Box::new(node),
        ),
        RegexAstElements::ZeroOrOne(child) => RegexAstElements::Concatenation(
            Box::new(RegexAstElements::ZeroOrOne(child)),
            Box::new(node),
        ),
    }
}

/// Folds `concatenation_list` into a tree, expanding operator entries into
/// their subtrees.
pub(crate) fn get_partial_ast_for_concatenation_list(
    stack: &Vec<State>,
    concatenation_list: &Vec<usize>,
) -> (r: Result<RegexAstElements, RegexError>)
    requires
        arena_wf(stack_views(stack@)),
        list_wf(stack_views(stack@), concatenation_list@),
    ensures
        match r {
            Result::Ok(ast) => spec_partial_ast(stack_views(stack@), concatenation_list@)
                == Result::<RegexAst, RegexError>::Ok(ast@),
            Result::Err(e) => spec_partial_ast(stack_views(stack@), concatenation_list@)
                == Result::<RegexAst, RegexError>::Err(e),
        },
    decreases seq_bound(concatenation_list@),
{
    let ghost sv = stack_views(stack@);
    let mut ast = RegexAstElements::Empty;
    let mut i: usize = 0;

    while i < concatenation_list.len()
        invariant
            arena_wf(sv),
            sv == stack_views(stack@),
            list_wf(sv, concatenation_list@),
            i <= concatenation_list@.len(),
            spec_partial_ast(sv, concatenation_list@) == spec_partial_ast_from(
                sv,
                concatenation_list@,
                i as int,
                ast@,
            ),
        decreases concatenation_list@.len() - i,
    {
        let next_state_index = concatenation_list[i];
        let state_entry = &stack[next_state_index];
        proof {
            assert(entry_wf(sv[next_state_index as int], next_state_index as int));
            lemma_seq_bound_ge(concatenation_list@, i as int);
        }

        let is_star = !state_entry.is_escaped && state_entry.matching_group
            == MatchingGroup::Character('*');
        let is_question = !state_entry.is_escaped && state_entry.matching_group
            == MatchingGroup::Character('?');
        let is_pipe = !state_entry.is_escaped && state_entry.matching_group
            == MatchingGroup::Character('|');

        if is_star || is_question {
            let left_list = match &state_entry.left_next {
                Some(list) => list,
                None => {
                    return Result::Err(RegexError::InvalidOperatorState);
                },
            };
            proof {
                lemma_seq_bound_le(left_list@, next_state_index as int);
            }
            let child = match get_partial_ast_for_concatenation_list(stack, left_list) {
                Result::Ok(child) => child,
                Result::Err(e) => {
                    return Result::Err(e);
                },
            };
            let node = if is_star {
                RegexAstElements::ZeroOrMore(Box::new(child))
            } else {
                RegexAstElements::ZeroOrOne(Box::new(child))
            };
            ast = fold_piece(ast, node);
        } else if is_pipe {
            let left_list = match &state_entry.left_next {
                Some(list) => list,
                None => {
                    return Result::Err(RegexError::InvalidOperatorState);
                },
            };
            let right_list = match &state_entry.right_next {
                Some(list) => list,
                None => {
                    return Result::Err(RegexError::InvalidOperatorState);
                },
            };
            proof {
                lemma_seq_bound_le(left_list@, next_state_index as int);
                lemma_seq_bound_le(right_list@, next_state_index as int);
            }
            let left = match get_partial_ast_for_concatenation_list(stack, left_list) {
                Result::Ok(left) => left,
                Result::Err(e) => {
                    return Result::Err(e);
                },
            };
            let right = match get_partial_ast_for_concatenation_list(stack, right_list) {
                Result::Ok(right) => right,
                Result::Err(e) => {
                    return Result::Err(e);
                },
            };
            let node = RegexAstElements::Alternation(Box::new(left), Box::new(right));
            ast = fold_piece(ast, node);
        } else {
            let node = RegexAstElements::Leaf(state_entry.matching_group.clone());
            ast = fold_piece(ast, node);
        }
        i = i + 1;
    }
    Result::Ok(ast)
}

/// Folds a top-level concatenation list into the finished tree, the one
/// accepting sentinel leaf appended by a final concatenation.
pub(crate) fn get_ast_for_concatenation_list(
    stack: &Vec<State>,
    concatenation_list: &Vec<usize>,
) -> (r: Result<RegexAstElements, RegexError>)
    requires
        arena_wf(stack_views(stack@)),
        list_wf(stack_views(stack@), concatenation_list@),
    ensures
        match r {
            Result::Ok(ast) => {
                &&& spec_full_ast(stack_views(stack@), concatenation_list@) == Result::<
                    RegexAst,
                    RegexError,
                >::Ok(ast@)
                &&& match ast@ {
                    RegexAst::Concatenation(inner, sentinel) => spec_no_accept_leaf(*inner) && *sentinel
                        == RegexAst::Leaf(MatchingGroupView::AcceptedState),
                    _ => false,
                }
            },
            Result::Err(e) => spec_full_ast(stack_views(stack@), concatenation_list@) == Result::<
                RegexAst,
                RegexError,
            >::Err(e),
        },
{
    let ast = match get_partial_ast_for_concatenation_list(stack, concatenation_list) {
        Result::Ok(ast) => ast,
        Result::Err(e) => {
            return Result::Err(e);
        },
    };
    proof {
        lemma_partial_ast_no_accept(
            stack_views(stack@),
            concatenation_list@,
            0,
            RegexAst::Empty,
        );
    }
    let full = RegexAstElements::Concatenation(
        Box::new(ast),
        Box::new(RegexAstElements::Leaf(MatchingGroup::AcceptedState)),
    );
    proof {
        assert(ast_view(&RegexAstElements::Leaf(MatchingGroup::AcceptedState)) == RegexAst::Leaf(
            MatchingGroupView::AcceptedState,
        ));
        assert(full@ == RegexAst::Concatenation(
            Box::new(ast@),
            Box::new(RegexAst::Leaf(MatchingGroupView::AcceptedState)),
        ));
    }
    Result::Ok(full)
}

} // verus!
