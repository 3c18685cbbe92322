//! The DFA compiler: one post-order pass over the syntax tree computes
//! nullability, firstpos and lastpos per node and interns the distinct
//! matching groups; a second pass propagates followpos; a worklist
//! determinization over sets of leaf positions then produces the transition
//! table. A state is identified by the set of positions it stands for, kept
//! as a strictly sorted vector, so two states are the same exactly when their
//! position sets are equal; the number of such sets is finite, which bounds
//! the worklist.

use vstd::prelude::*;
use vstd::set_lib::lemma_int_range;
use vstd::set_lib::lemma_len_subset;

use crate::ast::ast_view;
use crate::ast::spec_firstpos_has_accept;
use crate::ast::spec_nullable;
use crate::ast::RegexAst;
use crate::ast::RegexAstElements;
use crate::engine::spec_accepting;
use crate::engine::spec_row_lookup;
use crate::engine::spec_row_lookup_from;
use crate::engine::RegexEngine;
use crate::groups::MatchingGroup;
use crate::groups::MatchingGroupView;
use crate::parsing::RegexError;

verus! {

/// Powers of two.
pub open spec fn pow2(n: nat) -> nat
    decreases n,
{
    if n == 0 {
        1
    } else {
        2 * pow2((n - 1) as nat)
    }
}

proof fn lemma_pow2_pos(n: nat)
    ensures
        pow2(n) >= 1,
    decreases n,
{
    if n > 0 {
        lemma_pow2_pos((n - 1) as nat);
    }
}

proof fn lemma_pow2_monotone(a: nat, b: nat)
    requires
        a <= b,
    ensures
        pow2(a) <= pow2(b),
    decreases b,
{
    if a < b {
        lemma_pow2_monotone(a, (b - 1) as nat);
        lemma_pow2_pos((b - 1) as nat);
    }
}

/// A strictly ascending sequence: the canonical form of a position set.
pub open spec fn sorted_strict(s: Seq<usize>) -> bool {
    forall|i: int, j: int| 0 <= i < j < s.len() ==> s[i] < s[j]
}

/// The bit mask a position set denotes.
pub open spec fn seq_mask(s: Seq<usize>) -> nat
    decreases s.len(),
{
    if s.len() == 0 {
        0
    } else {
        seq_mask(s.drop_last()) + pow2(s.last() as nat)
    }
}

proof fn lemma_mask_bound(s: Seq<usize>, n: nat)
    requires
        sorted_strict(s),
        forall|i: int| 0 <= i < s.len() ==> (#[trigger] s[i]) < n,
    ensures
        seq_mask(s) < pow2(n),
    decreases s.len(),
{
    lemma_pow2_pos(n);
    if s.len() > 0 {
        let last = s.last();
        assert(forall|i: int| 0 <= i < s.len() - 1 ==> (#[trigger] s[i]) < last);
        lemma_mask_bound(s.drop_last(), last as nat);
        lemma_pow2_monotone(last as nat + 1, n);
    }
}

proof fn lemma_mask_injective(s1: Seq<usize>, s2: Seq<usize>)
    requires
        sorted_strict(s1),
        sorted_strict(s2),
        seq_mask(s1) == seq_mask(s2),
    ensures
        s1 == s2,
    decreases s1.len() + s2.len(),
{
    if s1.len() == 0 && s2.len() == 0 {
        assert(s1 =~= s2);
    } else if s1.len() == 0 {
        lemma_pow2_pos(s2.last() as nat);
        assert(seq_mask(s2) >= 1);
    } else if s2.len() == 0 {
        lemma_pow2_pos(s1.last() as nat);
        assert(seq_mask(s1) >= 1);
    } else {
        let l1 = s1.last();
        let l2 = s2.last();
        if l1 < l2 {
            assert(forall|i: int| 0 <= i < s1.len() ==> (#[trigger] s1[i]) < l1 + 1);
            lemma_mask_bound(s1, (l1 + 1) as nat);
            lemma_pow2_monotone((l1 + 1) as nat, l2 as nat);
            assert(seq_mask(s2) >= pow2(l2 as nat));
            assert(false);
        } else if l2 < l1 {
            assert(forall|i: int| 0 <= i < s2.len() ==> (#[trigger] s2[i]) < l2 + 1);
            lemma_mask_bound(s2, (l2 + 1) as nat);
            lemma_pow2_monotone((l2 + 1) as nat, l1 as nat);
            assert(seq_mask(s1) >= pow2(l1 as nat));
            assert(false);
        } else {
            lemma_mask_injective(s1.drop_last(), s2.drop_last());
            assert(s1 =~= s1.drop_last().push(l1));
            assert(s2 =~= s2.drop_last().push(l2));
        }
    }
}

/// Pairwise distinct canonical position sets over positions below `n` are at
/// most `pow2(n)` many.
proof fn lemma_state_count_bound(vecs: Seq<Seq<usize>>, n: nat)
    requires
        forall|k: int| 0 <= k < vecs.len() ==> sorted_strict(#[trigger] vecs[k]),
        forall|k: int, i: int|
            0 <= k < vecs.len() && 0 <= i < vecs[k].len() ==> (#[trigger] vecs[k][i]) < n,
        forall|k1: int, k2: int| 0 <= k1 < k2 < vecs.len() ==> vecs[k1] != vecs[k2],
    ensures
        vecs.len() <= pow2(n),
{
    let masks = Seq::<int>::new(vecs.len(), |k: int| seq_mask(vecs[k]) as int);
    assert forall|k1: int, k2: int| 0 <= k1 < k2 < masks.len() implies masks[k1] != masks[k2] by {
        if seq_mask(vecs[k1]) == seq_mask(vecs[k2]) {
            lemma_mask_injective(vecs[k1], vecs[k2]);
        }
    }
    assert(masks.no_duplicates());
    masks.unique_seq_to_set();
    let range = vstd::set_lib::set_int_range(0, pow2(n) as int);
    assert forall|m: int| masks.to_set().contains(m) implies range.contains(m) by {
        let k = choose|k: int| 0 <= k < masks.len() && masks[k] == m;
        lemma_mask_bound(vecs[k], n);
    }
    lemma_int_range(0, pow2(n) as int);
    lemma_len_subset(masks.to_set(), range);
}

/// The shape of a syntax-tree node, as the compiler's arena records it.
#[derive(Clone, Copy, Debug, PartialEq, Eq, Structural)]
pub enum ElementType {
    Alternation,
    Concatenation,
    Leaf,
    ZeroOrMore,
    ZeroOrOne,
}

/// One compiler arena entry, built bottom-up in post order alongside the
/// syntax tree.
#[derive(Debug)]
pub struct StateCalculations {
    pub index: usize,
    pub parent_index: Option<usize>,
    pub left_child_index: Option<usize>,
    pub right_child_index: Option<usize>,
    pub is_nullable: bool,
    pub first_pos: Vec<usize>,
    pub last_pos: Vec<usize>,
    pub follow_pos: Vec<usize>,
    pub element_type: ElementType,
    pub matching_group_index: Option<usize>,
    pub accepted: bool,
}

impl StateCalculations {
    /// A fresh entry: no parent yet, no followpos yet.
    pub fn new(
        index: usize,
        left_child_index: Option<usize>,
        right_child_index: Option<usize>,
        element_type: ElementType,
        matching_group_index: Option<usize>,
        is_nullable: bool,
        first_pos: Vec<usize>,
        last_pos: Vec<usize>,
        accepted: bool,
    ) -> (r: StateCalculations)
        ensures
            r.index == index,
            r.parent_index is None,
            r.left_child_index == left_child_index,
            r.right_child_index == right_child_index,
            r.is_nullable == is_nullable,
            r.first_pos@ == first_pos@,
            r.last_pos@ == last_pos@,
            r.follow_pos@ == Seq::<usize>::empty(),
            r.element_type == element_type,
            r.matching_group_index == matching_group_index,
            r.accepted == accepted,
    {
        StateCalculations {
            index,
            parent_index: None,
            left_child_index,
            right_child_index,
            is_nullable,
            first_pos,
            last_pos,
            follow_pos: Vec::new(),
            element_type,
            matching_group_index,
            accepted,
        }
    }
}

/// The firstpos of a tree whose post-order arena begins at `base`: the
/// standard position rules, a position being the arena index of its leaf.
pub open spec fn spec_firstpos(ast: RegexAst, base: int) -> Seq<usize>
    decreases ast,
{
    match ast {
        RegexAst::Alternation(left, right) => spec_firstpos(*left, base) + spec_firstpos(
            *right,
            base + ast_size(*left),
        ),
        RegexAst::Concatenation(left, right) => spec_firstpos(*left, base) + (if spec_nullable(
            *left,
        ) {
            spec_firstpos(*right, base + ast_size(*left))
        } else {
            Seq::empty()
        }),
        RegexAst::Leaf(_) => seq![base as usize],
        RegexAst::Empty => Seq::empty(),
        RegexAst::ZeroOrMore(child) => spec_firstpos(*child, base),
        RegexAst::ZeroOrOne(child) => spec_firstpos(*child, base),
    }
}

/// The lastpos of a tree whose post-order arena begins at `base`, with the
/// right-hand contributions first, as the compiler collects them.
pub open spec fn spec_lastpos(ast: RegexAst, base: int) -> Seq<usize>
    decreases ast,
{
    match ast {
        RegexAst::Alternation(left, right) => spec_lastpos(*right, base + ast_size(*left))
            + spec_lastpos(*left, base),
        RegexAst::Concatenation(left, right) => spec_lastpos(*right, base + ast_size(*left)) + (
        if spec_nullable(*right) {
            spec_lastpos(*left, base)
        } else {
            Seq::empty()
        }),
        RegexAst::Leaf(_) => seq![base as usize],
        RegexAst::Empty => Seq::empty(),
        RegexAst::ZeroOrMore(child) => spec_lastpos(*child, base),
        RegexAst::ZeroOrOne(child) => spec_lastpos(*child, base),
    }
}

/// The arena shape of one tree node.
pub open spec fn spec_element_type(ast: RegexAst) -> ElementType {
    match ast {
        RegexAst::Alternation(left, right) => ElementType::Alternation,
        RegexAst::Concatenation(left, right) => ElementType::Concatenation,
        RegexAst::Leaf(_) => ElementType::Leaf,
        RegexAst::Empty => ElementType::Leaf,
        RegexAst::ZeroOrMore(child) => ElementType::ZeroOrMore,
        RegexAst::ZeroOrOne(child) => ElementType::ZeroOrOne,
    }
}

/// Whether the arena records the tree rooted at `base` exactly: one entry
/// per node in post order, whose shape, child links, nullability, firstpos,
/// lastpos and acceptance flag all follow the position rules. The parent
/// links and followpos lists are not constrained here: parents are set on
/// the way up and never read, and followpos is filled by the second pass.
pub open spec fn stack_represents(
    stack: Seq<StateCalculations>,
    groups: Seq<MatchingGroupView>,
    ast: RegexAst,
    base: int,
) -> bool
    decreases ast,
{
    let root = base + ast_size(ast) - 1;
    &&& 0 <= base
    &&& root < stack.len()
    &&& stack[root].element_type == spec_element_type(ast)
    &&& stack[root].index == root as usize
    &&& stack[root].is_nullable == spec_nullable(ast)
    &&& stack[root].first_pos@ == spec_firstpos(ast, base)
    &&& stack[root].last_pos@ == spec_lastpos(ast, base)
    &&& match ast {
        RegexAst::Alternation(left, right) => {
            &&& stack[root].left_child_index == Option::Some(
                (base + ast_size(*left) - 1) as usize,
            )
            &&& stack[root].right_child_index == Option::Some((root - 1) as usize)
            &&& stack[root].matching_group_index is None
            &&& stack[root].accepted == false
            &&& stack_represents(stack, groups, *left, base)
            &&& stack_represents(stack, groups, *right, base + ast_size(*left))
        },
        RegexAst::Concatenation(left, right) => {
            &&& stack[root].left_child_index == Option::Some(
                (base + ast_size(*left) - 1) as usize,
            )
            &&& stack[root].right_child_index == Option::Some((root - 1) as usize)
            &&& stack[root].matching_group_index is None
            &&& stack[root].accepted == false
            &&& stack_represents(stack, groups, *left, base)
            &&& stack_represents(stack, groups, *right, base + ast_size(*left))
        },
        RegexAst::Leaf(group) => {
            &&& stack[root].left_child_index is None
            &&& stack[root].right_child_index is None
            &&& match stack[root].matching_group_index {
                Option::Some(j) => j < groups.len() && groups[j as int] == group,
                Option::None => false,
            }
            &&& stack[root].accepted == (group is AcceptedState)
        },
        RegexAst::Empty => false,
        RegexAst::ZeroOrMore(child) => {
            &&& stack[root].left_child_index == Option::Some((root - 1) as usize)
            &&& stack[root].right_child_index is None
            &&& stack[root].matching_group_index is None
            &&& stack[root].accepted == false
            &&& stack_represents(stack, groups, *child, base)
        },
        RegexAst::ZeroOrOne(child) => {
            &&& stack[root].left_child_index == Option::Some((root - 1) as usize)
            &&& stack[root].right_child_index is None
            &&& stack[root].matching_group_index is None
            &&& stack[root].accepted == false
            &&& stack_represents(stack, groups, *child, base)
        },
    }
}

/// A representation survives growing the arena, setting parent links and
/// interning further groups.
proof fn lemma_represents_frame(
    stack1: Seq<StateCalculations>,
    stack2: Seq<StateCalculations>,
    groups1: Seq<MatchingGroupView>,
    groups2: Seq<MatchingGroupView>,
    ast: RegexAst,
    base: int,
)
    requires
        stack_represents(stack1, groups1, ast, base),
        stack2.len() >= stack1.len(),
        forall|k: int| 0 <= k < stack1.len() ==> same_except_parent(stack1[k], #[trigger] stack2[k]),
        groups2.len() >= groups1.len(),
        forall|k: int| 0 <= k < groups1.len() ==> groups2[k] == #[trigger] groups1[k],
    ensures
        stack_represents(stack2, groups2, ast, base),
    decreases ast,
{
    match ast {
        RegexAst::Alternation(left, right) => {
            lemma_represents_frame(stack1, stack2, groups1, groups2, *left, base);
            lemma_represents_frame(stack1, stack2, groups1, groups2, *right, base + ast_size(*left));
        },
        RegexAst::Concatenation(left, right) => {
            lemma_represents_frame(stack1, stack2, groups1, groups2, *left, base);
            lemma_represents_frame(stack1, stack2, groups1, groups2, *right, base + ast_size(*left));
        },
        RegexAst::ZeroOrMore(child) => {
            lemma_represents_frame(stack1, stack2, groups1, groups2, *child, base);
        },
        RegexAst::ZeroOrOne(child) => {
            lemma_represents_frame(stack1, stack2, groups1, groups2, *child, base);
        },
        _ => {},
    }
}

/// A representation also survives the followpos pass, which touches nothing
/// the representation speaks of.
proof fn lemma_represents_frame_follow(
    stack1: Seq<StateCalculations>,
    stack2: Seq<StateCalculations>,
    groups: Seq<MatchingGroupView>,
    ast: RegexAst,
    base: int,
)
    requires
        stack_represents(stack1, groups, ast, base),
        stack2.len() >= stack1.len(),
        forall|k: int|
            0 <= k < stack1.len() ==> same_except_parent_follow(
                stack1[k],
                #[trigger] stack2[k],
            ),
    ensures
        stack_represents(stack2, groups, ast, base),
    decreases ast,
{
    match ast {
        RegexAst::Alternation(left, right) => {
            lemma_represents_frame_follow(stack1, stack2, groups, *left, base);
            lemma_represents_frame_follow(stack1, stack2, groups, *right, base + ast_size(*left));
        },
        RegexAst::Concatenation(left, right) => {
            lemma_represents_frame_follow(stack1, stack2, groups, *left, base);
            lemma_represents_frame_follow(stack1, stack2, groups, *right, base + ast_size(*left));
        },
        RegexAst::ZeroOrMore(child) => {
            lemma_represents_frame_follow(stack1, stack2, groups, *child, base);
        },
        RegexAst::ZeroOrOne(child) => {
            lemma_represents_frame_follow(stack1, stack2, groups, *child, base);
        },
        _ => {},
    }
}

/// The followpos additions read nothing the followpos pass changes, so they
/// agree across it.
proof fn lemma_follow_additions_agree(
    stack1: Seq<StateCalculations>,
    stack2: Seq<StateCalculations>,
    p: usize,
    i: int,
)
    requires
        stack1.len() == stack2.len(),
        forall|k: int|
            0 <= k < stack1.len() ==> same_except_parent_follow(
                stack1[k],
                #[trigger] stack2[k],
            ),
    ensures
        spec_follow_additions(stack1, p, i) == spec_follow_additions(stack2, p, i),
    decreases i,
{
    if 0 < i <= stack1.len() {
        lemma_follow_additions_agree(stack1, stack2, p, i - 1);
        assert(spec_node_follow_contribution(stack1, i - 1, p) == spec_node_follow_contribution(
            stack2,
            i - 1,
            p,
        ));
    }
}

/// Whether a compiled engine is the determinized position automaton of a
/// tree: some arena records the tree exactly, its followpos lists hold
/// exactly the propagated position sets, the engine's group table is the
/// tree's interned groups, and the transition table is the worklist
/// determinization over position sets, started from the root's firstpos.
pub open spec fn engine_realizes_tree(v: crate::engine::RegexEngineView, ast: RegexAst) -> bool {
    exists|stack: Seq<StateCalculations>, states: Seq<Seq<usize>>|
        {
            &&& #[trigger] stack_represents(stack, v.groups, ast, 0)
            &&& stack.len() == ast_size(ast)
            &&& (forall|p: usize|
                p < stack.len() ==> (#[trigger] stack[p as int].follow_pos@)
                    == spec_follow_additions(stack, p, stack.len() as int))
            &&& v.groups == spec_intern_ast(Seq::empty(), ast)
            &&& #[trigger] table_describes(stack, v.groups.len() as int, v.table, states)
            &&& states.len() >= 1
            &&& same_members(states[0], spec_firstpos(ast, 0))
        }
}

/// The interned matching-group table after one tree's leaves are interned in

/// post order: each leaf's group joins the table unless an equal group is
/// already there.
pub open spec fn spec_intern_ast(groups: Seq<MatchingGroupView>, ast: RegexAst) -> Seq<
    MatchingGroupView,
>
    decreases ast,
{
    match ast {
        RegexAst::Alternation(left, right) => spec_intern_ast(spec_intern_ast(groups, *left), *right),
        RegexAst::Concatenation(left, right) => spec_intern_ast(
            spec_intern_ast(groups, *left),
            *right,
        ),
        RegexAst::Leaf(group) => match spec_intern_from(groups, group, 0) {
            Option::Some(k) => groups,
            Option::None => groups.push(group),
        },
        RegexAst::Empty => groups,
        RegexAst::ZeroOrMore(child) => spec_intern_ast(groups, *child),
        RegexAst::ZeroOrOne(child) => spec_intern_ast(groups, *child),
    }
}

/// Two compiler entries that agree on everything but the parent link, which

/// is set later and never read.
pub open spec fn same_except_parent(a: StateCalculations, b: StateCalculations) -> bool {
    &&& a.index == b.index
    &&& a.left_child_index == b.left_child_index
    &&& a.right_child_index == b.right_child_index
    &&& a.is_nullable == b.is_nullable
    &&& a.first_pos@ == b.first_pos@
    &&& a.last_pos@ == b.last_pos@
    &&& a.follow_pos@ == b.follow_pos@
    &&& a.element_type == b.element_type
    &&& a.matching_group_index == b.matching_group_index
    &&& a.accepted == b.accepted
}

/// Two compiler entries that agree on everything but the parent link and the
/// followpos list.
pub open spec fn same_except_parent_follow(a: StateCalculations, b: StateCalculations) -> bool {
    &&& a.index == b.index
    &&& a.left_child_index == b.left_child_index
    &&& a.right_child_index == b.right_child_index
    &&& a.is_nullable == b.is_nullable
    &&& a.first_pos@ == b.first_pos@
    &&& a.last_pos@ == b.last_pos@
    &&& a.element_type == b.element_type
    &&& a.matching_group_index == b.matching_group_index
    &&& a.accepted == b.accepted
}

/// Whether position `q` belongs to the transition set of the state whose
/// position set is `source`, on matching group `g`: some source position's
/// leaf carries group `g` and has `q` in its followpos.
pub open spec fn position_in_transition(
    stack: Seq<StateCalculations>,
    source: Seq<usize>,
    g: usize,
    q: usize,
) -> bool {
    exists|j: int|
        0 <= j < source.len() && source[j] < stack.len() && stack[source[j] as int].matching_group_index
            == Option::Some(g) && stack[source[j] as int].follow_pos@.contains(q)
}

/// The same, with only the first `upto` source positions contributing.
pub open spec fn position_in_transition_upto(
    stack: Seq<StateCalculations>,
    source: Seq<usize>,
    g: usize,
    q: usize,
    upto: int,
) -> bool {
    exists|j: int|
        0 <= j < upto && j < source.len() && source[j] < stack.len()
            && stack[source[j] as int].matching_group_index == Option::Some(g)
            && stack[source[j] as int].follow_pos@.contains(q)
}

/// Two position lists with the same members.
pub open spec fn same_members(a: Seq<usize>, b: Seq<usize>) -> bool {
    forall|q: usize| #![trigger a.contains(q)] #![trigger b.contains(q)] a.contains(q)
        <==> b.contains(q)
}

/// Whether a transition table is the determinization of the position
/// automaton: each state `k` stands for the position set `states[k]`; its
/// acceptance flag says whether that set holds an accepting leaf; and for
/// every matching group, its row points to the state carrying exactly the
/// followpos union of its matching positions — with no entry exactly when
/// that union is empty.
pub open spec fn table_describes(
    stack: Seq<StateCalculations>,
    group_count: int,
    table: Seq<(Seq<(usize, usize)>, bool)>,
    states: Seq<Seq<usize>>,
) -> bool {
    &&& states.len() == table.len()
    &&& forall|k: int|
        0 <= k < table.len() ==> (#[trigger] table[k]).1 == poslist_accept(stack, states[k])
    &&& forall|k: int, g: usize|
        0 <= k < table.len() && g < group_count ==> #[trigger] row_describes(
            stack,
            states[k],
            table[k].0,
            states,
            g,
        )
}

/// Whether one row's entry for group `g` is the transition the position
/// automaton demands of the state standing for `source`: the target state's
/// set is exactly the followpos union of the source positions matching `g`,
/// present exactly when that union is not empty.
pub open spec fn row_describes(
    stack: Seq<StateCalculations>,
    source: Seq<usize>,
    row: Seq<(usize, usize)>,
    states: Seq<Seq<usize>>,
    g: usize,
) -> bool {
    match spec_row_lookup(row, g as int) {
        Option::Some(target) => {
            &&& target < states.len()
            &&& (forall|q: usize| #[trigger]
                states[target as int].contains(q) <==> position_in_transition(stack, source, g, q))
            &&& (exists|q: usize| #[trigger] position_in_transition(stack, source, g, q))
        },
        Option::None => forall|q: usize| !(#[trigger] position_in_transition(stack, source, g, q)),
    }
}

/// The position sets a worklist's states stand for.
pub open spec fn state_position_sets(states: Seq<DeterministicState>) -> Seq<Seq<usize>> {
    Seq::new(states.len(), |k: int| states[k].non_deterministic_states@)
}

/// Appending a transition to a row leaves every earlier lookup alone, and
/// gives a key that had no entry its new one.
proof fn lemma_row_lookup_push(row: Seq<(usize, usize)>, pair: (usize, usize), key: int, j: int)
    requires
        0 <= j <= row.len(),
    ensures
        spec_row_lookup_from(row.push(pair), key, j) == (match spec_row_lookup_from(row, key, j) {
            Option::Some(t) => Option::Some(t),
            Option::None => if pair.0 == key {
                Option::Some(pair.1)
            } else {
                Option::None
            },
        }),
    decreases row.len() - j,
{
    reveal_with_fuel(spec_row_lookup_from, 3);
    if j < row.len() {
        lemma_row_lookup_push(row, pair, key, j + 1);
    }
}

/// A key none of the row's entries carry has no lookup result.
proof fn lemma_row_lookup_absent(row: Seq<(usize, usize)>, key: int, j: int)
    requires
        0 <= j,
        forall|m: int| 0 <= m < row.len() ==> (#[trigger] row[m]).0 != key,
    ensures
        spec_row_lookup_from(row, key, j) is None,
    decreases row.len() - j,
{
    if j < row.len() {
        lemma_row_lookup_absent(row, key, j + 1);
    }
}

/// Whether some position of the list is an accepting leaf of the arena.
pub open spec fn poslist_accept(stack: Seq<StateCalculations>, positions: Seq<usize>) -> bool {
    exists|j: int|
        0 <= j < positions.len() && positions[j] < stack.len() && stack[positions[j] as int].accepted
}

/// All position lists of an entry point into the arena.
pub open spec fn calc_entry_bounded(stack: Seq<StateCalculations>, k: int) -> bool {
    &&& forall|j: int|
        0 <= j < stack[k].first_pos@.len() ==> (#[trigger] stack[k].first_pos@[j]) < stack.len()
    &&& forall|j: int|
        0 <= j < stack[k].last_pos@.len() ==> (#[trigger] stack[k].last_pos@[j]) < stack.len()
    &&& forall|j: int|
        0 <= j < stack[k].follow_pos@.len() ==> (#[trigger] stack[k].follow_pos@[j]) < stack.len()
}

/// All entries of the arena are bounded.
pub open spec fn calc_stack_bounded(stack: Seq<StateCalculations>) -> bool {
    forall|k: int| 0 <= k < stack.len() ==> calc_entry_bounded(stack, k)
}

} // verus!

verus! {

/// Whether a tree is free of the transient empty marker; only such trees can
/// be compiled.
pub open spec fn spec_no_empty_marker(ast: RegexAst) -> bool
    decreases ast,
{
    match ast {
        RegexAst::Alternation(left, right) => spec_no_empty_marker(*left) && spec_no_empty_marker(
            *right,
        ),
        RegexAst::Concatenation(left, right) => spec_no_empty_marker(*left) && spec_no_empty_marker(
            *right,
        ),
        RegexAst::Leaf(_) => true,
        RegexAst::Empty => false,
        RegexAst::ZeroOrMore(child) => spec_no_empty_marker(*child),
        RegexAst::ZeroOrOne(child) => spec_no_empty_marker(*child),
    }
}

/// Every operator entry of the compiler arena carries the child links its
/// shape demands, pointing into the arena.
pub open spec fn calc_children_wf(stack: Seq<StateCalculations>) -> bool {
    forall|k: int|
        0 <= k < stack.len() ==> {
            let e = #[trigger] stack[k];
            &&& ((e.element_type == ElementType::Concatenation || e.element_type
                == ElementType::Alternation) ==> e.left_child_index is Some
                && e.right_child_index is Some && e.left_child_index->0 < stack.len()
                && e.right_child_index->0 < stack.len())
            &&& ((e.element_type == ElementType::ZeroOrMore || e.element_type
                == ElementType::ZeroOrOne) ==> e.left_child_index is Some && e.left_child_index->0
                < stack.len())
        }
}

/// The first interned index whose group equals `g`, scanning from `i`.
pub open spec fn spec_intern_from(groups: Seq<MatchingGroupView>, g: MatchingGroupView, i: int) -> Option<int>
    decreases groups.len() - i,
{
    if i < 0 || i >= groups.len() {
        Option::None
    } else if groups[i] == g {
        Option::Some(i)
    } else {
        spec_intern_from(groups, g, i + 1)
    }
}

/// The values of the interned matching-group table.
pub open spec fn group_views(groups: Seq<MatchingGroup>) -> Seq<MatchingGroupView> {
    Seq::new(groups.len(), |k: int| groups[k]@)
}

/// A copy of a vector of positions.
fn clone_positions(v: &Vec<usize>) -> (r: Vec<usize>)
    ensures
        r@ == v@,
{
    let mut out: Vec<usize> = Vec::new();
    let mut i: usize = 0;
    while i < v.len()
        invariant
            i <= v.len(),
            out@ == v@.take(i as int),
        decreases v.len() - i,
    {
        out.push(v[i]);
        proof {
            assert(out@ =~= v@.take(i + 1 as int));
        }
        i = i + 1;
    }
    proof {
        assert(v@.take(v@.len() as int) =~= v@);
    }
    out
}

/// Appending one list of positions to another keeps exactly the accepting
/// positions of both.
proof fn lemma_poslist_append(stack: Seq<StateCalculations>, a: Seq<usize>, b: Seq<usize>)
    ensures
        poslist_accept(stack, a + b) == (poslist_accept(stack, a) || poslist_accept(stack, b)),
{
    if poslist_accept(stack, a) {
        let j = choose|j: int|
            0 <= j < a.len() && a[j] < stack.len() && stack[a[j] as int].accepted;
        assert((a + b)[j] == a[j]);
    }
    if poslist_accept(stack, b) {
        let j = choose|j: int|
            0 <= j < b.len() && b[j] < stack.len() && stack[b[j] as int].accepted;
        assert((a + b)[a.len() + j] == b[j]);
    }
    if poslist_accept(stack, a + b) {
        let j = choose|j: int|
            0 <= j < (a + b).len() && (a + b)[j] < stack.len() && stack[(a + b)[j] as int].accepted;
        if j < a.len() {
            assert(a[j] == (a + b)[j]);
        } else {
            assert(b[j - a.len()] == (a + b)[j]);
        }
    }
}

/// Growing the arena and setting parent links changes no accepting flag, so
/// a position list bounded by the old arena keeps its verdict.
proof fn lemma_poslist_frame(
    stack1: Seq<StateCalculations>,
    stack2: Seq<StateCalculations>,
    positions: Seq<usize>,
)
    requires
        stack2.len() >= stack1.len(),
        forall|k: int| 0 <= k < stack1.len() ==> stack1[k].accepted == (#[trigger] stack2[k]).accepted,
        forall|j: int| 0 <= j < positions.len() ==> (#[trigger] positions[j]) < stack1.len(),
    ensures
        poslist_accept(stack1, positions) == poslist_accept(stack2, positions),
{
    if poslist_accept(stack1, positions) {
        let j = choose|j: int|
            0 <= j < positions.len() && positions[j] < stack1.len()
                && stack1[positions[j] as int].accepted;
        assert(stack2[positions[j] as int].accepted);
    }
    if poslist_accept(stack2, positions) {
        let j = choose|j: int|
            0 <= j < positions.len() && positions[j] < stack2.len()
                && stack2[positions[j] as int].accepted;
        assert(stack1[positions[j] as int].accepted);
    }
}

/// Two position lists with the same members carry the same verdict.
proof fn lemma_poslist_membership(
    stack: Seq<StateCalculations>,
    a: Seq<usize>,
    b: Seq<usize>,
)
    requires
        forall|y: usize| a.contains(y) <==> b.contains(y),
    ensures
        poslist_accept(stack, a) == poslist_accept(stack, b),
{
    if poslist_accept(stack, a) {
        let j = choose|j: int|
            0 <= j < a.len() && a[j] < stack.len() && stack[a[j] as int].accepted;
        assert(a.contains(a[j]));
        assert(b.contains(a[j]));
        let i = choose|i: int| 0 <= i < b.len() && b[i] == a[j];
        assert(0 <= i < b.len() && b[i] < stack.len() && stack[b[i] as int].accepted);
    }
    if poslist_accept(stack, b) {
        let j = choose|j: int|
            0 <= j < b.len() && b[j] < stack.len() && stack[b[j] as int].accepted;
        assert(b.contains(b[j]));
        assert(a.contains(b[j]));
        let i = choose|i: int| 0 <= i < a.len() && a[i] == b[j];
        assert(0 <= i < a.len() && a[i] < stack.len() && stack[a[i] as int].accepted);
    }
}

/// Inserts a position into a strictly sorted vector, keeping it strictly
/// sorted; the members afterwards are the old members and the new one.
fn insert_sorted(v: &mut Vec<usize>, x: usize)
    requires
        sorted_strict(old(v)@),
    ensures
        sorted_strict(final(v)@),
        forall|y: usize| #[trigger] final(v)@.contains(y) ==> (old(v)@.contains(y) || y == x),
        forall|y: usize| #[trigger] old(v)@.contains(y) ==> final(v)@.contains(y),
        final(v)@.contains(x),
        final(v)@.len() >= old(v)@.len(),
{
    let mut j: usize = 0;
    while j < v.len() && v[j] < x
        invariant
            j <= v@.len(),
            sorted_strict(v@),
            v@ == old(v)@,
            forall|k: int| 0 <= k < j ==> (#[trigger] v@[k]) < x,
        decreases v@.len() - j,
    {
        j = j + 1;
    }
    if j < v.len() {
        let existing = v[j];
        if existing == x {
            proof {
                assert(v@.contains(x));
            }
            return ;
        }
    }
    let ghost pre = v@;
    v.insert(j, x);
    proof {
        assert(v@ =~= pre.take(j as int) + seq![x] + pre.skip(j as int));
        assert forall|i1: int, i2: int| 0 <= i1 < i2 < v@.len() implies v@[i1] < v@[i2] by {
            if i1 < j && i2 == j {
                assert(v@[i1] == pre[i1]);
            } else if i1 == j && i2 > j {
                assert(v@[i2] == pre[i2 - 1]);
                assert(pre[i2 - 1] >= pre[j as int] || j as int == i2 - 1);
            } else if i1 < j && i2 > j {
                assert(v@[i1] == pre[i1] && v@[i2] == pre[i2 - 1]);
            } else if i1 > j && i2 > j {
                assert(v@[i1] == pre[i1 - 1] && v@[i2] == pre[i2 - 1]);
            } else if i1 < j && i2 < j {
                assert(v@[i1] == pre[i1] && v@[i2] == pre[i2]);
            }
        }
        assert forall|y: usize| v@.contains(y) implies (pre.contains(y) || y == x) by {
            let i = choose|i: int| 0 <= i < v@.len() && v@[i] == y;
            if i < j {
                assert(pre[i] == y);
            } else if i > j {
                assert(pre[i - 1] == y);
            }
        }
        assert forall|y: usize| pre.contains(y) || y == x implies v@.contains(y) by {
            if pre.contains(y) {
                let i = choose|i: int| 0 <= i < pre.len() && pre[i] == y;
                if i < j {
                    assert(v@[i] == y);
                } else {
                    assert(v@[i + 1] == y);
                }
            } else {
                assert(v@[j as int] == x);
            }
        }
        assert(v@[j as int] == x);
        assert(v@.contains(x));
    }
}

} // verus!
verus! {

/// The compiler's working state: the arena of per-node calculations and the
/// interned matching groups.
pub struct StateMachineBuilder {
    pub stack: Vec<StateCalculations>,
    pub matching_groups: Vec<MatchingGroup>,
}

/// One state of the automaton under construction: the canonical set of leaf
/// positions it stands for, and whether the worklist has processed it.
pub struct DeterministicState {
    pub index: usize,
    pub non_deterministic_states: Vec<usize>,
    pub is_marked: bool,
}

impl DeterministicState {
    pub fn new(index: usize, non_deterministic_states: Vec<usize>) -> (r: DeterministicState)
        ensures
            r.index == index,
            r.non_deterministic_states@ == non_deterministic_states@,
            r.is_marked == false,
    {
        DeterministicState { index, non_deterministic_states, is_marked: false }
    }
}

impl StateMachineBuilder {
    fn new() -> (r: StateMachineBuilder)
        ensures
            r.stack@ == Seq::<StateCalculations>::empty(),
            r.matching_groups@ == Seq::<MatchingGroup>::empty(),
    {
        StateMachineBuilder { stack: Vec::new(), matching_groups: Vec::new() }
    }

    /// Interns a matching group: the index of the first equal group already
    /// in the table, or the index of a fresh entry appended for it.
    fn add_matching_group(&mut self, matching_group: &MatchingGroup) -> (r: usize)
        ensures
            final(self).stack@ == old(self).stack@,
            final(self).matching_groups@.len() >= old(self).matching_groups@.len(),
            forall|k: int|
                0 <= k < old(self).matching_groups@.len() ==> final(self).matching_groups@[k]
                    == old(self).matching_groups@[k],
            r < final(self).matching_groups@.len(),
            final(self).matching_groups@[r as int]@ == matching_group@,
            match spec_intern_from(group_views(old(self).matching_groups@), matching_group@, 0) {
                Option::Some(k) => r == k && final(self).matching_groups@ == old(
                    self,
                ).matching_groups@,
                Option::None => final(self).matching_groups@.len() == old(
                    self,
                ).matching_groups@.len() + 1 && r == old(self).matching_groups@.len(),
            },
    {
        let ghost groups = group_views(self.matching_groups@);
        let mut i: usize = 0;
        while i < self.matching_groups.len()
            invariant
                i <= self.matching_groups@.len(),
                self.stack@ == old(self).stack@,
                self.matching_groups@ == old(self).matching_groups@,
                groups == group_views(old(self).matching_groups@),
                groups.len() == self.matching_groups@.len(),
                forall|k: int| 0 <= k < groups.len() ==> groups[k] == self.matching_groups@[k]@,
                spec_intern_from(groups, matching_group@, 0) == spec_intern_from(
                    groups,
                    matching_group@,
                    i as int,
                ),
            decreases self.matching_groups@.len() - i,
        {
            if &self.matching_groups[i] == matching_group {
                proof {
                    assert(groups[i as int] == matching_group@);
                    assert(spec_intern_from(groups, matching_group@, i as int) == Option::Some(
                        i as int,
                    ));
                }
                return i;
            }
            i = i + 1;
        }
        self.matching_groups.push(matching_group.clone());
        self.matching_groups.len() - 1
    }

    /// One post-order pass over the syntax tree: pushes one arena entry per
    /// node, computing nullability, firstpos, lastpos, the accepting flag and
    /// the interned matching-group index of each leaf. The entry of the root
    /// ends on top, its nullability is exactly the tree's, and its firstpos
    /// holds an accepting position exactly when the sentinel can stand first.
    #[verifier::rlimit(100)]
    pub(crate) fn create_calculation_stack_for_element(&mut self, ast: &RegexAstElements) -> (r:
        Result<usize, RegexError>)
        requires
            calc_stack_bounded(old(self).stack@),
            calc_children_wf(old(self).stack@),
        ensures
            final(self).stack@.len() >= old(self).stack@.len(),
            forall|k: int|
                0 <= k < old(self).stack@.len() ==> same_except_parent(
                    old(self).stack@[k],
                    #[trigger] final(self).stack@[k],
                ),
            forall|k: int|
                0 <= k < old(self).matching_groups@.len() ==> final(self).matching_groups@[k] == old(
                    self,
                ).matching_groups@[k],
            final(self).matching_groups@.len() >= old(self).matching_groups@.len(),
            calc_stack_bounded(final(self).stack@),
            calc_children_wf(final(self).stack@),
            forall|k: int|
                old(self).stack@.len() <= k < final(self).stack@.len() ==> (
                #[trigger] final(self).stack@[k]).follow_pos@ == Seq::<usize>::empty(),
            match r {
                Result::Ok(idx) => {
                    &&& final(self).stack@.len() == old(self).stack@.len() + ast_size(ast@)
                    &&& idx + 1 == final(self).stack@.len()
                    &&& final(self).stack@[idx as int].is_nullable == spec_nullable(ast@)
                    &&& poslist_accept(
                        final(self).stack@,
                        final(self).stack@[idx as int].first_pos@,
                    ) == spec_firstpos_has_accept(ast@)
                    &&& spec_no_empty_marker(ast@)
                    &&& stack_represents(
                        final(self).stack@,
                        group_views(final(self).matching_groups@),
                        ast@,
                        old(self).stack@.len() as int,
                    )
                    &&& group_views(final(self).matching_groups@) == spec_intern_ast(
                        group_views(old(self).matching_groups@),
                        ast@,
                    )
                },
                Result::Err(e) => e == RegexError::InvalidOperatorState && !spec_no_empty_marker(
                    ast@,
                ),
            },
        decreases ast,
    {
        match ast {
            RegexAstElements::Alternation(left, right) => {
                let left_index = match self.create_calculation_stack_for_element(left) {
                    Result::Ok(idx) => idx,
                    Result::Err(e) => {
                        return Result::Err(e);
                    },
                };
                let ghost mid = self.stack@;
                let ghost groups_l = group_views(self.matching_groups@);
                let right_index = match self.create_calculation_stack_for_element(right) {
                    Result::Ok(idx) => idx,
                    Result::Err(e) => {
                        return Result::Err(e);
                    },
                };
                let ghost stack_r = self.stack@;
                let ghost groups_r = group_views(self.matching_groups@);
                proof {
                    assert(calc_entry_bounded(mid, left_index as int));
                    lemma_poslist_frame(mid, self.stack@, mid[left_index as int].first_pos@);
                }
                let current_index = self.stack.len();
                set_parent(&mut self.stack, left_index, current_index);
                set_parent(&mut self.stack, right_index, current_index);
                let ghost base = self.stack@;
                proof {
                    assert(calc_entry_bounded(base, left_index as int));
                    assert(calc_entry_bounded(base, right_index as int));
                }

                let is_nullable = self.stack[left_index].is_nullable
                    || self.stack[right_index].is_nullable;
                let mut first_pos = clone_positions(&self.stack[left_index].first_pos);
                let mut right_first = clone_positions(&self.stack[right_index].first_pos);
                first_pos.append(&mut right_first);
                let mut last_pos = clone_positions(&self.stack[right_index].last_pos);
                let mut left_last = clone_positions(&self.stack[left_index].last_pos);
                last_pos.append(&mut left_last);
                proof {
                    lemma_poslist_append(
                        base,
                        base[left_index as int].first_pos@,
                        base[right_index as int].first_pos@,
                    );
                }
                self.stack.push(
                    StateCalculations::new(
                        current_index,
                        Some(left_index),
                        Some(right_index),
                        ElementType::Alternation,
                        None,
                        is_nullable,
                        first_pos,
                        last_pos,
                        false,
                    ),
                );
                proof {
                    lemma_poslist_frame(
                        base,
                        self.stack@,
                        self.stack@[current_index as int].first_pos@,
                    );
                    assert(calc_stack_bounded(self.stack@)) by {
                        assert forall|k: int|
                            0 <= k < self.stack@.len() implies calc_entry_bounded(
                            self.stack@,
                            k,
                        ) by {
                            if k < base.len() {
                                assert(calc_entry_bounded(base, k));
                            }
                        }
                    }
                }
                proof {
                    let base_len = old(self).stack@.len() as int;
                    let groups_final = group_views(self.matching_groups@);
                    assert(ast@ == RegexAst::Alternation(Box::new(ast_view(left)), Box::new(
                        ast_view(right),
                    )));
                    assert forall|k: int|
                        0 <= k < mid.len() implies same_except_parent(
                        mid[k],
                        #[trigger] self.stack@[k],
                    ) by {
                        assert(same_except_parent(mid[k], stack_r[k]));
                        assert(same_except_parent(stack_r[k], base[k]));
                        assert(same_except_parent(base[k], self.stack@[k]));
                    }
                    assert forall|k: int|
                        0 <= k < stack_r.len() implies same_except_parent(
                        stack_r[k],
                        #[trigger] self.stack@[k],
                    ) by {
                        assert(same_except_parent(stack_r[k], base[k]));
                        assert(same_except_parent(base[k], self.stack@[k]));
                    }
                    lemma_represents_frame(
                        mid,
                        self.stack@,
                        groups_l,
                        groups_final,
                        ast_view(left),
                        base_len,
                    );
                    lemma_represents_frame(
                        stack_r,
                        self.stack@,
                        groups_r,
                        groups_final,
                        ast_view(right),
                        base_len + ast_size(ast_view(left)),
                    );
                    assert(self.stack@[current_index as int].first_pos@ =~= spec_firstpos(
                        ast@,
                        base_len,
                    ));
                    assert(self.stack@[current_index as int].last_pos@ =~= spec_lastpos(
                        ast@,
                        base_len,
                    ));
                    assert(stack_represents(self.stack@, groups_final, ast@, base_len));
                }
                Result::Ok(current_index)
            },
            RegexAstElements::Concatenation(left, right) => {
                let left_index = match self.create_calculation_stack_for_element(left) {
                    Result::Ok(idx) => idx,
                    Result::Err(e) => {
                        return Result::Err(e);
                    },
                };
                let ghost mid = self.stack@;
                let ghost groups_l = group_views(self.matching_groups@);
                let right_index = match self.create_calculation_stack_for_element(right) {
                    Result::Ok(idx) => idx,
                    Result::Err(e) => {
                        return Result::Err(e);
                    },
                };
                let ghost stack_r = self.stack@;
                let ghost groups_r = group_views(self.matching_groups@);
                proof {
                    assert(calc_entry_bounded(mid, left_index as int));
                    lemma_poslist_frame(mid, self.stack@, mid[left_index as int].first_pos@);
                }
                let current_index = self.stack.len();
                set_parent(&mut self.stack, left_index, current_index);
                set_parent(&mut self.stack, right_index, current_index);
                let ghost base = self.stack@;
                proof {
                    assert(calc_entry_bounded(base, left_index as int));
                    assert(calc_entry_bounded(base, right_index as int));
                }

                let left_nullable = self.stack[left_index].is_nullable;
                let right_nullable = self.stack[right_index].is_nullable;
                let is_nullable = left_nullable && right_nullable;

                let mut first_pos = clone_positions(&self.stack[left_index].first_pos);
                if left_nullable {
                    let mut right_first = clone_positions(&self.stack[right_index].first_pos);
                    first_pos.append(&mut right_first);
                    proof {
                        lemma_poslist_append(
                            base,
                            base[left_index as int].first_pos@,
                            base[right_index as int].first_pos@,
                        );
                    }
                }
                let mut last_pos = clone_positions(&self.stack[right_index].last_pos);
                if right_nullable {
                    let mut left_last = clone_positions(&self.stack[left_index].last_pos);
                    last_pos.append(&mut left_last);
                }
                self.stack.push(
                    StateCalculations::new(
                        current_index,
                        Some(left_index),
                        Some(right_index),
                        ElementType::Concatenation,
                        None,
                        is_nullable,
                        first_pos,
                        last_pos,
                        false,
                    ),
                );
                proof {
                    lemma_poslist_frame(
                        base,
                        self.stack@,
                        self.stack@[current_index as int].first_pos@,
                    );
                    assert(calc_stack_bounded(self.stack@)) by {
                        assert forall|k: int|
                            0 <= k < self.stack@.len() implies calc_entry_bounded(
                            self.stack@,
                            k,
                        ) by {
                            if k < base.len() {
                                assert(calc_entry_bounded(base, k));
                            }
                        }
                    }
                }
                proof {
                    let base_len = old(self).stack@.len() as int;
                    let groups_final = group_views(self.matching_groups@);
                    assert(ast@ == RegexAst::Concatenation(Box::new(ast_view(left)), Box::new(
                        ast_view(right),
                    )));
                    assert forall|k: int|
                        0 <= k < mid.len() implies same_except_parent(
                        mid[k],
                        #[trigger] self.stack@[k],
                    ) by {
                        assert(same_except_parent(mid[k], stack_r[k]));
                        assert(same_except_parent(stack_r[k], base[k]));
                        assert(same_except_parent(base[k], self.stack@[k]));
                    }
                    assert forall|k: int|
                        0 <= k < stack_r.len() implies same_except_parent(
                        stack_r[k],
                        #[trigger] self.stack@[k],
                    ) by {
                        assert(same_except_parent(stack_r[k], base[k]));
                        assert(same_except_parent(base[k], self.stack@[k]));
                    }
                    lemma_represents_frame(
                        mid,
                        self.stack@,
                        groups_l,
                        groups_final,
                        ast_view(left),
                        base_len,
                    );
                    lemma_represents_frame(
                        stack_r,
                        self.stack@,
                        groups_r,
                        groups_final,
                        ast_view(right),
                        base_len + ast_size(ast_view(left)),
                    );
                    assert(self.stack@[current_index as int].first_pos@ =~= spec_firstpos(
                        ast@,
                        base_len,
                    ));
                    assert(self.stack@[current_index as int].last_pos@ =~= spec_lastpos(
                        ast@,
                        base_len,
                    ));
                    assert(stack_represents(self.stack@, groups_final, ast@, base_len));
                }
                Result::Ok(current_index)
            },
            RegexAstElements::Leaf(group) => {
                let matching_group_index = self.add_matching_group(group);
                let current_index = self.stack.len();
                let is_accepted_state = group == &MatchingGroup::AcceptedState;
                let mut first_pos: Vec<usize> = Vec::new();
                first_pos.push(current_index);
                let mut last_pos: Vec<usize> = Vec::new();
                last_pos.push(current_index);
                let ghost base = self.stack@;
                self.stack.push(
                    StateCalculations::new(
                        current_index,
                        None,
                        None,
                        ElementType::Leaf,
                        Some(matching_group_index),
                        false,
                        first_pos,
                        last_pos,
                        is_accepted_state,
                    ),
                );
                proof {
                    let s = self.stack@;
                    let fp = s[current_index as int].first_pos@;
                    assert(fp[0] == current_index);
                    if s[current_index as int].accepted {
                        assert(poslist_accept(s, fp));
                    } else {
                        if poslist_accept(s, fp) {
                            let j = choose|j: int|
                                0 <= j < fp.len() && fp[j] < s.len() && s[fp[j] as int].accepted;
                            assert(j == 0);
                        }
                    }
                    assert(calc_stack_bounded(self.stack@)) by {
                        assert forall|k: int|
                            0 <= k < self.stack@.len() implies calc_entry_bounded(
                            self.stack@,
                            k,
                        ) by {
                            if k < base.len() {
                                assert(calc_entry_bounded(base, k));
                            }
                        }
                    }
                }
                proof {
                    let base_len = old(self).stack@.len() as int;
                    let groups_final = group_views(self.matching_groups@);
                    assert(ast@ == RegexAst::Leaf(group@));
                    assert(self.stack@[current_index as int].first_pos@ =~= spec_firstpos(
                        ast@,
                        base_len,
                    ));
                    assert(self.stack@[current_index as int].last_pos@ =~= spec_lastpos(
                        ast@,
                        base_len,
                    ));
                    assert(stack_represents(self.stack@, groups_final, ast@, base_len));
                }
                Result::Ok(current_index)
            },
            RegexAstElements::Empty => Result::Err(RegexError::InvalidOperatorState),
            RegexAstElements::ZeroOrMore(child) => {
                let child_index = match self.create_calculation_stack_for_element(child) {
                    Result::Ok(idx) => idx,
                    Result::Err(e) => {
                        return Result::Err(e);
                    },
                };
                let ghost mid = self.stack@;
                let ghost groups_l = group_views(self.matching_groups@);
                let current_index = self.stack.len();
                set_parent(&mut self.stack, child_index, current_index);
                let ghost base = self.stack@;
                proof {
                    assert(calc_entry_bounded(base, child_index as int));
                }
                let first_pos = clone_positions(&self.stack[child_index].first_pos);
                let last_pos = clone_positions(&self.stack[child_index].last_pos);
                self.stack.push(
                    StateCalculations::new(
                        current_index,
                        Some(child_index),
                        None,
                        ElementType::ZeroOrMore,
                        None,
                        true,
                        first_pos,
                        last_pos,
                        false,
                    ),
                );
                proof {
                    lemma_poslist_frame(
                        base,
                        self.stack@,
                        self.stack@[current_index as int].first_pos@,
                    );
                    assert(calc_stack_bounded(self.stack@)) by {
                        assert forall|k: int|
                            0 <= k < self.stack@.len() implies calc_entry_bounded(
                            self.stack@,
                            k,
                        ) by {
                            if k < base.len() {
                                assert(calc_entry_bounded(base, k));
                            }
                        }
                    }
                }
                proof {
                    let base_len = old(self).stack@.len() as int;
                    let groups_final = group_views(self.matching_groups@);
                    assert(ast@ == RegexAst::ZeroOrMore(Box::new(ast_view(child))));
                    assert forall|k: int|
                        0 <= k < mid.len() implies same_except_parent(
                        mid[k],
                        #[trigger] self.stack@[k],
                    ) by {
                        assert(same_except_parent(mid[k], base[k]));
                        assert(same_except_parent(base[k], self.stack@[k]));
                    }
                    lemma_represents_frame(
                        mid,
                        self.stack@,
                        groups_l,
                        groups_final,
                        ast_view(child),
                        base_len,
                    );
                    assert(self.stack@[current_index as int].first_pos@ =~= spec_firstpos(
                        ast@,
                        base_len,
                    ));
                    assert(self.stack@[current_index as int].last_pos@ =~= spec_lastpos(
                        ast@,
                        base_len,
                    ));
                    assert(stack_represents(self.stack@, groups_final, ast@, base_len));
                }
                Result::Ok(current_index)
            },
            RegexAstElements::ZeroOrOne(child) => {
                let child_index = match self.create_calculation_stack_for_element(child) {
                    Result::Ok(idx) => idx,
                    Result::Err(e) => {
                        return Result::Err(e);
                    },
                };
                let ghost mid = self.stack@;
                let ghost groups_l = group_views(self.matching_groups@);
                let current_index = self.stack.len();
                set_parent(&mut self.stack, child_index, current_index);
                let ghost base = self.stack@;
                proof {
                    assert(calc_entry_bounded(base, child_index as int));
                }
                let first_pos = clone_positions(&self.stack[child_index].first_pos);
                let last_pos = clone_positions(&self.stack[child_index].last_pos);
                self.stack.push(
                    StateCalculations::new(
                        current_index,
                        Some(child_index),
                        None,
                        ElementType::ZeroOrOne,
                        None,
                        true,
                        first_pos,
                        last_pos,
                        false,
                    ),
                );
                proof {
                    lemma_poslist_frame(
                        base,
                        self.stack@,
                        self.stack@[current_index as int].first_pos@,
                    );
                    assert(calc_stack_bounded(self.stack@)) by {
                        assert forall|k: int|
                            0 <= k < self.stack@.len() implies calc_entry_bounded(
                            self.stack@,
                            k,
                        ) by {
                            if k < base.len() {
                                assert(calc_entry_bounded(base, k));
                            }
                        }
                    }
                }
                proof {
                    let base_len = old(self).stack@.len() as int;
                    let groups_final = group_views(self.matching_groups@);
                    assert(ast@ == RegexAst::ZeroOrOne(Box::new(ast_view(child))));
                    assert forall|k: int|
                        0 <= k < mid.len() implies same_except_parent(
                        mid[k],
                        #[trigger] self.stack@[k],
                    ) by {
                        assert(same_except_parent(mid[k], base[k]));
                        assert(same_except_parent(base[k], self.stack@[k]));
                    }
                    lemma_represents_frame(
                        mid,
                        self.stack@,
                        groups_l,
                        groups_final,
                        ast_view(child),
                        base_len,
                    );
                    assert(self.stack@[current_index as int].first_pos@ =~= spec_firstpos(
                        ast@,
                        base_len,
                    ));
                    assert(self.stack@[current_index as int].last_pos@ =~= spec_lastpos(
                        ast@,
                        base_len,
                    ));
                    assert(stack_represents(self.stack@, groups_final, ast@, base_len));
                }
                Result::Ok(current_index)
            },
        }
    }
}

/// Records a node's parent link; the compiler sets it for completeness and
/// never reads it back.
fn set_parent(stack: &mut Vec<StateCalculations>, i: usize, parent: usize)
    requires
        i < old(stack)@.len(),
        calc_stack_bounded(old(stack)@),
        calc_children_wf(old(stack)@),
    ensures
        final(stack)@.len() == old(stack)@.len(),
        forall|k: int| 0 <= k < old(stack)@.len() && k != i ==> final(stack)@[k] == old(stack)@[k],
        same_except_parent(old(stack)@[i as int], final(stack)@[i as int]),
        calc_stack_bounded(final(stack)@),
        calc_children_wf(final(stack)@),
        forall|k: int|
            0 <= k < old(stack)@.len() ==> same_except_parent(
                old(stack)@[k],
                #[trigger] final(stack)@[k],
            ),
{
    let ghost pre = stack@;
    stack[i].parent_index = Some(parent);
    proof {
        assert forall|k: int| 0 <= k < stack@.len() implies calc_entry_bounded(stack@, k) by {
            assert(calc_entry_bounded(pre, k));
        }
    }
}

/// The number of nodes of a tree.
pub open spec fn ast_size(ast: RegexAst) -> nat
    decreases ast,
{
    match ast {
        RegexAst::Alternation(left, right) => 1 + ast_size(*left) + ast_size(*right),
        RegexAst::Concatenation(left, right) => 1 + ast_size(*left) + ast_size(*right),
        RegexAst::Leaf(_) => 1,
        RegexAst::Empty => 1,
        RegexAst::ZeroOrMore(child) => 1 + ast_size(*child),
        RegexAst::ZeroOrOne(child) => 1 + ast_size(*child),
    }
}

} // verus!
verus! {

/// How often a position occurs among the first `j` entries of a list.
pub open spec fn count_occurrences(positions: Seq<usize>, p: usize, j: int) -> nat
    decreases j,
{
    if j <= 0 || j > positions.len() {
        0
    } else {
        count_occurrences(positions, p, j - 1) + (if positions[j - 1] == p {
            1nat
        } else {
            0nat
        })
    }
}

/// A list repeated `n` times, one copy appended after another.
pub open spec fn repeat_seq(positions: Seq<usize>, n: nat) -> Seq<usize>
    decreases n,
{
    if n == 0 {
        Seq::empty()
    } else {
        repeat_seq(positions, (n - 1) as nat) + positions
    }
}

/// What one node of the arena appends to position `p`'s followpos: for a
/// concatenation, the right child's firstpos once per occurrence of `p` in
/// the left child's lastpos; for a zero-or-more node, the child's own
/// firstpos once per occurrence of `p` in the child's lastpos (the back edge
/// that makes repetition possible); nothing for any other node.
pub open spec fn spec_node_follow_contribution(
    stack: Seq<StateCalculations>,
    i: int,
    p: usize,
) -> Seq<usize> {
    let e = stack[i];
    if e.element_type == ElementType::Concatenation {
        match (e.left_child_index, e.right_child_index) {
            (Option::Some(l), Option::Some(r)) => {
                if l < stack.len() && r < stack.len() {
                    repeat_seq(
                        stack[r as int].first_pos@,
                        count_occurrences(
                            stack[l as int].last_pos@,
                            p,
                            stack[l as int].last_pos@.len() as int,
                        ),
                    )
                } else {
                    Seq::empty()
                }
            },
            _ => Seq::empty(),
        }
    } else if e.element_type == ElementType::ZeroOrMore {
        match e.left_child_index {
            Option::Some(c) => {
                if c < stack.len() {
                    repeat_seq(
                        stack[c as int].first_pos@,
                        count_occurrences(
                            stack[c as int].last_pos@,
                            p,
                            stack[c as int].last_pos@.len() as int,
                        ),
                    )
                } else {
                    Seq::empty()
                }
            },
            Option::None => Seq::empty(),
        }
    } else {
        Seq::empty()
    }
}

/// Everything the nodes below `i` append to position `p`'s followpos, in
/// node order.
pub open spec fn spec_follow_additions(stack: Seq<StateCalculations>, p: usize, i: int) -> Seq<
    usize,
>
    decreases i,
{
    if i <= 0 || i > stack.len() {
        Seq::empty()
    } else {
        spec_follow_additions(stack, p, i - 1) + spec_node_follow_contribution(stack, i - 1, p)
    }
}

/// Appends positions to one entry's followpos list.
fn append_follow(stack: &mut Vec<StateCalculations>, p: usize, add: &Vec<usize>)
    requires
        p < old(stack)@.len(),
        calc_stack_bounded(old(stack)@),
        forall|j: int| 0 <= j < add@.len() ==> (#[trigger] add@[j]) < old(stack)@.len(),
    ensures
        final(stack)@.len() == old(stack)@.len(),
        forall|k: int| 0 <= k < old(stack)@.len() && k != p ==> final(stack)@[k] == old(stack)@[k],
        forall|k: int|
            0 <= k < old(stack)@.len() ==> same_except_parent_follow(
                old(stack)@[k],
                #[trigger] final(stack)@[k],
            ) && final(stack)@[k].parent_index == old(stack)@[k].parent_index,
        final(stack)@[p as int].follow_pos@ == old(stack)@[p as int].follow_pos@ + add@,
        calc_stack_bounded(final(stack)@),
{
    let ghost pre = stack@;
    let mut tmp = clone_positions(add);
    stack[p].follow_pos.append(&mut tmp);
    proof {
        assert forall|k: int| 0 <= k < stack@.len() implies calc_entry_bounded(stack@, k) by {
            assert(calc_entry_bounded(pre, k));
        }
    }
}

impl StateMachineBuilder {
    /// The second pass: for every concatenation node, the right child's
    /// firstpos follows every position in the left child's lastpos; for every
    /// zero-or-more node, the child's own firstpos follows every position in
    /// its lastpos (the back edge that repetition needs). Each position's
    /// finished followpos is exactly its old list with every node's
    /// contribution appended in node order; everything else is left
    /// untouched.
    #[verifier::rlimit(60)]
    pub(crate) fn caclulate_follow_pos_for_stack(&mut self)
        requires
            calc_stack_bounded(old(self).stack@),
            calc_children_wf(old(self).stack@),
        ensures
            final(self).stack@.len() == old(self).stack@.len(),
            final(self).matching_groups@ == old(self).matching_groups@,
            forall|k: int|
                0 <= k < old(self).stack@.len() ==> same_except_parent_follow(
                    old(self).stack@[k],
                    #[trigger] final(self).stack@[k],
                ) && final(self).stack@[k].parent_index == old(self).stack@[k].parent_index,
            forall|p: usize|
                p < old(self).stack@.len() ==> (#[trigger] final(self).stack@[p as int].follow_pos@)
                    == old(self).stack@[p as int].follow_pos@ + spec_follow_additions(
                    old(self).stack@,
                    p,
                    old(self).stack@.len() as int,
                ),
            calc_stack_bounded(final(self).stack@),
    {
        let ghost stack0 = old(self).stack@;
        let mut i: usize = 0;
        while i < self.stack.len()
            invariant
                stack0 == old(self).stack@,
                calc_stack_bounded(stack0),
                calc_children_wf(stack0),
                i <= self.stack@.len(),
                self.stack@.len() == stack0.len(),
                self.matching_groups@ == old(self).matching_groups@,
                forall|k: int|
                    0 <= k < stack0.len() ==> same_except_parent_follow(
                        stack0[k],
                        #[trigger] self.stack@[k],
                    ) && self.stack@[k].parent_index == stack0[k].parent_index,
                forall|p: usize|
                    p < stack0.len() ==> (#[trigger] self.stack@[p as int].follow_pos@)
                        == stack0[p as int].follow_pos@ + spec_follow_additions(
                        stack0,
                        p,
                        i as int,
                    ),
                calc_stack_bounded(self.stack@),
            decreases self.stack@.len() - i,
        {
            let ghost node_start = self.stack@;
            let element_type = self.stack[i].element_type;
            if element_type == ElementType::Concatenation {
                let left_index = match self.stack[i].left_child_index {
                    Some(index) => index,
                    None => unreached(),
                };
                let right_index = match self.stack[i].right_child_index {
                    Some(index) => index,
                    None => unreached(),
                };
                proof {
                    assert(calc_entry_bounded(self.stack@, left_index as int));
                    assert(calc_entry_bounded(self.stack@, right_index as int));
                }
                let last_pos_left = clone_positions(&self.stack[left_index].last_pos);
                let first_pos_right = clone_positions(&self.stack[right_index].first_pos);
                proof {
                    assert(last_pos_left@ == stack0[left_index as int].last_pos@);
                    assert(first_pos_right@ == stack0[right_index as int].first_pos@);
                }
                let mut pi: usize = 0;
                while pi < last_pos_left.len()
                    invariant
                        stack0 == old(self).stack@,
                        calc_stack_bounded(stack0),
                        pi <= last_pos_left@.len(),
                        self.stack@.len() == stack0.len(),
                        self.matching_groups@ == old(self).matching_groups@,
                        node_start.len() == stack0.len(),
                        last_pos_left@ == stack0[left_index as int].last_pos@,
                        first_pos_right@ == stack0[right_index as int].first_pos@,
                        forall|j: int|
                            0 <= j < last_pos_left@.len() ==> (#[trigger] last_pos_left@[j])
                                < stack0.len(),
                        forall|j: int|
                            0 <= j < first_pos_right@.len() ==> (#[trigger] first_pos_right@[j])
                                < stack0.len(),
                        forall|k: int|
                            0 <= k < stack0.len() ==> same_except_parent_follow(
                                node_start[k],
                                #[trigger] self.stack@[k],
                            ) && self.stack@[k].parent_index == node_start[k].parent_index,
                        forall|q: usize|
                            q < stack0.len() ==> (#[trigger] self.stack@[q as int].follow_pos@)
                                == node_start[q as int].follow_pos@ + repeat_seq(
                                first_pos_right@,
                                count_occurrences(last_pos_left@, q, pi as int),
                            ),
                        calc_stack_bounded(self.stack@),
                    decreases last_pos_left@.len() - pi,
                {
                    let position = last_pos_left[pi];
                    let ghost pre = self.stack@;
                    append_follow(&mut self.stack, position, &first_pos_right);
                    proof {
                        assert forall|q: usize|
                            q < stack0.len() implies (#[trigger] self.stack@[q as int].follow_pos@)
                                == node_start[q as int].follow_pos@ + repeat_seq(
                                first_pos_right@,
                                count_occurrences(last_pos_left@, q, pi + 1 as int),
                            ) by {
                            if q == position {
                                assert(count_occurrences(last_pos_left@, q, pi + 1 as int)
                                    == count_occurrences(last_pos_left@, q, pi as int) + 1);
                                assert(self.stack@[q as int].follow_pos@ == (
                                node_start[q as int].follow_pos@ + repeat_seq(
                                    first_pos_right@,
                                    count_occurrences(last_pos_left@, q, pi as int),
                                )) + first_pos_right@);
                                assert((node_start[q as int].follow_pos@ + repeat_seq(
                                    first_pos_right@,
                                    count_occurrences(last_pos_left@, q, pi as int),
                                )) + first_pos_right@ =~= node_start[q as int].follow_pos@ + (
                                repeat_seq(
                                    first_pos_right@,
                                    count_occurrences(last_pos_left@, q, pi as int),
                                ) + first_pos_right@));
                            } else {
                                assert(self.stack@[q as int] == pre[q as int]);
                                assert(count_occurrences(last_pos_left@, q, pi + 1 as int)
                                    == count_occurrences(last_pos_left@, q, pi as int));
                            }
                        }
                    }
                    pi = pi + 1;
                }
                proof {
                    assert forall|q: usize|
                        q < stack0.len() implies (#[trigger] self.stack@[q as int].follow_pos@)
                            == stack0[q as int].follow_pos@ + spec_follow_additions(
                            stack0,
                            q,
                            i + 1 as int,
                        ) by {
                        assert(spec_node_follow_contribution(stack0, i as int, q) == repeat_seq(
                            first_pos_right@,
                            count_occurrences(
                                last_pos_left@,
                                q,
                                last_pos_left@.len() as int,
                            ),
                        ));
                        assert(self.stack@[q as int].follow_pos@ == (stack0[q as int].follow_pos@
                            + spec_follow_additions(stack0, q, i as int))
                            + spec_node_follow_contribution(stack0, i as int, q));
                        assert((stack0[q as int].follow_pos@ + spec_follow_additions(
                            stack0,
                            q,
                            i as int,
                        )) + spec_node_follow_contribution(stack0, i as int, q)
                            =~= stack0[q as int].follow_pos@ + (spec_follow_additions(
                            stack0,
                            q,
                            i as int,
                        ) + spec_node_follow_contribution(stack0, i as int, q)));
                    }
                }
            } else if element_type == ElementType::ZeroOrMore {
                let child_index = match self.stack[i].left_child_index {
                    Some(index) => index,
                    None => unreached(),
                };
                proof {
                    assert(calc_entry_bounded(self.stack@, child_index as int));
                }
                let last_pos_child = clone_positions(&self.stack[child_index].last_pos);
                let first_pos_child = clone_positions(&self.stack[child_index].first_pos);
                proof {
                    assert(last_pos_child@ == stack0[child_index as int].last_pos@);
                    assert(first_pos_child@ == stack0[child_index as int].first_pos@);
                }
                let mut pi: usize = 0;
                while pi < last_pos_child.len()
                    invariant
                        stack0 == old(self).stack@,
                        calc_stack_bounded(stack0),
                        pi <= last_pos_child@.len(),
                        self.stack@.len() == stack0.len(),
                        self.matching_groups@ == old(self).matching_groups@,
                        node_start.len() == stack0.len(),
                        last_pos_child@ == stack0[child_index as int].last_pos@,
                        first_pos_child@ == stack0[child_index as int].first_pos@,
                        forall|j: int|
                            0 <= j < last_pos_child@.len() ==> (#[trigger] last_pos_child@[j])
                                < stack0.len(),
                        forall|j: int|
                            0 <= j < first_pos_child@.len() ==> (#[trigger] first_pos_child@[j])
                                < stack0.len(),
                        forall|k: int|
                            0 <= k < stack0.len() ==> same_except_parent_follow(
                                node_start[k],
                                #[trigger] self.stack@[k],
                            ) && self.stack@[k].parent_index == node_start[k].parent_index,
                        forall|q: usize|
                            q < stack0.len() ==> (#[trigger] self.stack@[q as int].follow_pos@)
                                == node_start[q as int].follow_pos@ + repeat_seq(
                                first_pos_child@,
                                count_occurrences(last_pos_child@, q, pi as int),
                            ),
                        calc_stack_bounded(self.stack@),
                    decreases last_pos_child@.len() - pi,
                {
                    let position = last_pos_child[pi];
                    let ghost pre = self.stack@;
                    append_follow(&mut self.stack, position, &first_pos_child);
                    proof {
                        assert forall|q: usize|
                            q < stack0.len() implies (#[trigger] self.stack@[q as int].follow_pos@)
                                == node_start[q as int].follow_pos@ + repeat_seq(
                                first_pos_child@,
                                count_occurrences(last_pos_child@, q, pi + 1 as int),
                            ) by {
                            if q == position {
                                assert(count_occurrences(last_pos_child@, q, pi + 1 as int)
                                    == count_occurrences(last_pos_child@, q, pi as int) + 1);
                                assert(self.stack@[q as int].follow_pos@ == (
                                node_start[q as int].follow_pos@ + repeat_seq(
                                    first_pos_child@,
                                    count_occurrences(last_pos_child@, q, pi as int),
                                )) + first_pos_child@);
                                assert((node_start[q as int].follow_pos@ + repeat_seq(
                                    first_pos_child@,
                                    count_occurrences(last_pos_child@, q, pi as int),
                                )) + first_pos_child@ =~= node_start[q as int].follow_pos@ + (
                                repeat_seq(
                                    first_pos_child@,
                                    count_occurrences(last_pos_child@, q, pi as int),
                                ) + first_pos_child@));
                            } else {
                                assert(self.stack@[q as int] == pre[q as int]);
                                assert(count_occurrences(last_pos_child@, q, pi + 1 as int)
                                    == count_occurrences(last_pos_child@, q, pi as int));
                            }
                        }
                    }
                    pi = pi + 1;
                }
                proof {
                    assert forall|q: usize|
                        q < stack0.len() implies (#[trigger] self.stack@[q as int].follow_pos@)
                            == stack0[q as int].follow_pos@ + spec_follow_additions(
                            stack0,
                            q,
                            i + 1 as int,
                        ) by {
                        assert(spec_node_follow_contribution(stack0, i as int, q) == repeat_seq(
                            first_pos_child@,
                            count_occurrences(
                                last_pos_child@,
                                q,
                                last_pos_child@.len() as int,
                            ),
                        ));
                        assert(self.stack@[q as int].follow_pos@ == (stack0[q as int].follow_pos@
                            + spec_follow_additions(stack0, q, i as int))
                            + spec_node_follow_contribution(stack0, i as int, q));
                        assert((stack0[q as int].follow_pos@ + spec_follow_additions(
                            stack0,
                            q,
                            i as int,
                        )) + spec_node_follow_contribution(stack0, i as int, q)
                            =~= stack0[q as int].follow_pos@ + (spec_follow_additions(
                            stack0,
                            q,
                            i as int,
                        ) + spec_node_follow_contribution(stack0, i as int, q)));
                    }
                }
            } else {
                proof {
                    assert forall|q: usize|
                        q < stack0.len() implies (#[trigger] self.stack@[q as int].follow_pos@)
                            == stack0[q as int].follow_pos@ + spec_follow_additions(
                            stack0,
                            q,
                            i + 1 as int,
                        ) by {
                        assert(spec_node_follow_contribution(stack0, i as int, q) =~= Seq::<
                            usize,
                        >::empty());
                        assert((stack0[q as int].follow_pos@ + spec_follow_additions(
                            stack0,
                            q,
                            i as int,
                        )) + Seq::<usize>::empty() =~= stack0[q as int].follow_pos@
                            + spec_follow_additions(stack0, q, i as int));
                        assert(spec_follow_additions(stack0, q, i + 1 as int)
                            =~= spec_follow_additions(stack0, q, i as int) + Seq::<
                            usize,
                        >::empty());
                    }
                }
            }
            i = i + 1;
        }
    }

    /// Whether any of the positions is the accepting sentinel's.
    pub(crate) fn contains_accepting_states(&self, non_deterministic_states: &Vec<usize>) -> (r:
        bool)
        requires
            forall|j: int|
                0 <= j < non_deterministic_states@.len() ==> (#[trigger] non_deterministic_states@[j])
                    < self.stack@.len(),
        ensures
            r == poslist_accept(self.stack@, non_deterministic_states@),
    {
        let mut j: usize = 0;
        while j < non_deterministic_states.len()
            invariant
                j <= non_deterministic_states@.len(),
                forall|m: int|
                    0 <= m < non_deterministic_states@.len() ==> (
                    #[trigger] non_deterministic_states@[m]) < self.stack@.len(),
                forall|m: int|
                    0 <= m < j ==> !self.stack@[non_deterministic_states@[m] as int].accepted,
            decreases non_deterministic_states@.len() - j,
        {
            let state_id = non_deterministic_states[j];
            if self.stack[state_id].accepted {
                proof {
                    assert(poslist_accept(self.stack@, non_deterministic_states@));
                }
                return true;
            }
            j = j + 1;
        }
        proof {
            if poslist_accept(self.stack@, non_deterministic_states@) {
                let m = choose|m: int|
                    0 <= m < non_deterministic_states@.len() && non_deterministic_states@[m]
                        < self.stack@.len() && self.stack@[non_deterministic_states@[m] as int].accepted;
                assert(false);
            }
        }
        false
    }

    /// The first state the worklist has not processed yet.
    pub(crate) fn get_next_unmarked_state_index(&self, states: &Vec<DeterministicState>) -> (r:
        Option<usize>)
        ensures
            match r {
                Option::Some(i) => i < states@.len() && !states@[i as int].is_marked && forall|k: int|
                    0 <= k < i ==> (#[trigger] states@[k]).is_marked,
                Option::None => forall|k: int|
                    0 <= k < states@.len() ==> (#[trigger] states@[k]).is_marked,
            },
    {
        let mut index: usize = 0;
        while index < states.len()
            invariant
                index <= states@.len(),
                forall|k: int| 0 <= k < index ==> (#[trigger] states@[k]).is_marked,
            decreases states@.len() - index,
        {
            if states[index].is_marked == false {
                return Some(index);
            }
            index = index + 1;
        }
        None
    }

    /// The state a position set belongs to: the first existing state with the
    /// same canonical set, or a fresh unmarked state appended for it.
    pub(crate) fn get_state_id(
        &self,
        states: &mut Vec<DeterministicState>,
        transition: Vec<usize>,
    ) -> (r: usize)
        ensures
            old(states)@.len() <= final(states)@.len() <= old(states)@.len() + 1,
            forall|k: int| 0 <= k < old(states)@.len() ==> final(states)@[k] == old(states)@[k],
            r < final(states)@.len(),
            final(states)@[r as int].non_deterministic_states@ == transition@,
            final(states)@.len() == old(states)@.len() + 1 ==> r == old(states)@.len()
                && final(states)@[r as int].is_marked == false
                && final(states)@[r as int].index == old(states)@.len()
                && (forall|k: int|
                0 <= k < old(states)@.len() ==> (
                #[trigger] old(states)@[k]).non_deterministic_states@ != transition@),
            final(states)@.len() == old(states)@.len() ==> r < old(states)@.len(),
    {
        let mut i: usize = 0;
        while i < states.len()
            invariant
                i <= states@.len(),
                states@ == old(states)@,
                forall|k: int|
                    0 <= k < i ==> (#[trigger] states@[k]).non_deterministic_states@ != transition@,
            decreases states@.len() - i,
        {
            if vec_usize_eq(&states[i].non_deterministic_states, &transition) {
                return i;
            }
            i = i + 1;
        }
        let index = states.len();
        states.push(DeterministicState::new(index, transition));
        index
    }
}

/// Whether two position vectors hold the same sequence.
fn vec_usize_eq(a: &Vec<usize>, b: &Vec<usize>) -> (r: bool)
    ensures
        r == (a@ == b@),
{
    if a.len() != b.len() {
        proof {
            assert(a@.len() != b@.len());
        }
        return false;
    }
    let mut i: usize = 0;
    while i < a.len()
        invariant
            i <= a@.len(),
            a@.len() == b@.len(),
            forall|j: int| 0 <= j < i ==> a@[j] == b@[j],
        decreases a@.len() - i,
    {
        if a[i] != b[i] {
            return false;
        }
        i = i + 1;
    }
    proof {
        assert(a@ =~= b@);
    }
    true
}

} // verus!
verus! {

impl StateMachineBuilder {
    /// The worklist determinization. The start state is the canonical set of
    /// the tree root's firstpos. Each round takes the first unprocessed state,
    /// unions, for every interned matching group, the followpos of its
    /// positions whose leaf carries that group, and makes the union (when it
    /// is not empty) the transition target, reusing an existing state with
    /// the same position set. Every state gets a row; a state accepts exactly
    /// when its set holds the sentinel's position. There are only finitely
    /// many position sets, which bounds the rounds.
    #[verifier::rlimit(60)]
    pub(crate) fn convert_to_regex_engine(self) -> (r: RegexEngine)
        requires
            self.stack@.len() >= 1,
            calc_stack_bounded(self.stack@),
        ensures
            r@.groups.len() == self.matching_groups@.len(),
            forall|k: int|
                0 <= k < self.matching_groups@.len() ==> r@.groups[k] == #[trigger] self.matching_groups@[k]@,
            r@.table.len() >= 1,
            spec_accepting(r@, 0) == poslist_accept(
                self.stack@,
                self.stack@[self.stack@.len() - 1].first_pos@,
            ),
            crate::engine::engine_wf(r@),
            (exists|states: Seq<Seq<usize>>|
                {
                    &&& table_describes(
                        self.stack@,
                        self.matching_groups@.len() as int,
                        r@.table,
                        states,
                    )
                    &&& states.len() >= 1
                    &&& same_members(states[0], self.stack@[self.stack@.len() - 1].first_pos@)
                }),
    {
        let ghost stk = self.stack@;
        let n = self.stack.len();

        let root_first = clone_positions(&self.stack[n - 1].first_pos);
        proof {
            assert(calc_entry_bounded(stk, stk.len() - 1));
        }
        let mut start_vec: Vec<usize> = Vec::new();
        let mut ri: usize = 0;
        while ri < root_first.len()
            invariant
                ri <= root_first@.len(),
                root_first@ == stk[stk.len() - 1].first_pos@,
                stk == self.stack@,
                forall|j: int| 0 <= j < root_first@.len() ==> (#[trigger] root_first@[j]) < stk.len(),
                sorted_strict(start_vec@),
                forall|y: usize| #[trigger] start_vec@.contains(y) ==> root_first@.take(ri as int).contains(y),
                forall|y: usize| #[trigger] root_first@.take(ri as int).contains(y) ==> start_vec@.contains(y),
            decreases root_first@.len() - ri,
        {
            let ghost pre = start_vec@;
            insert_sorted(&mut start_vec, root_first[ri]);
            proof {
                let t1 = root_first@.take(ri as int);
                let t2 = root_first@.take(ri + 1 as int);
                assert(t2 =~= t1.push(root_first@[ri as int]));
                assert forall|y: usize| #[trigger] start_vec@.contains(y) implies t2.contains(y) by {
                    if pre.contains(y) {
                        assert(t1.contains(y));
                        let m = choose|m: int| 0 <= m < t1.len() && t1[m] == y;
                        assert(t2[m] == y);
                    } else {
                        assert(y == root_first@[ri as int]);
                        assert(t2[t2.len() - 1] == y);
                    }
                }
                assert forall|y: usize| #[trigger] t2.contains(y) implies start_vec@.contains(y) by {
                    let m = choose|m: int| 0 <= m < t2.len() && t2[m] == y;
                    if m < t1.len() {
                        assert(t1[m] == y);
                        assert(t1.contains(y));
                    }
                }
            }
            ri = ri + 1;
        }
        proof {
            assert(root_first@.take(root_first@.len() as int) =~= root_first@);
            assert forall|y: usize| #[trigger] start_vec@.contains(y) implies y < stk.len() by {
                let m = choose|m: int| 0 <= m < root_first@.len() && root_first@[m] == y;
            }
            lemma_poslist_membership(stk, start_vec@, root_first@);
            assert(same_members(start_vec@, stk[stk.len() - 1].first_pos@));
        }

        proof {
            lemma_pow2_pos(n as nat);
            assert forall|j: int| 0 <= j < start_vec@.len() implies (#[trigger] start_vec@[j])
                < n by {
                assert(start_vec@.contains(start_vec@[j]));
            }
        }
        let mut deterministic_states: Vec<DeterministicState> = Vec::new();
        deterministic_states.push(DeterministicState::new(0, start_vec));
        let mut transitions: Vec<(Vec<(usize, usize)>, bool)> = Vec::new();

        while transitions.len() < deterministic_states.len()
            invariant
                stk == self.stack@,
                n == stk.len(),
                calc_stack_bounded(stk),
                1 <= deterministic_states@.len(),
                transitions@.len() <= deterministic_states@.len(),
                deterministic_states@.len() <= pow2(n as nat),
                forall|k: int|
                    0 <= k < deterministic_states@.len() ==> sorted_strict(
                        (#[trigger] deterministic_states@[k]).non_deterministic_states@,
                    ),
                forall|k: int, j: int|
                    0 <= k < deterministic_states@.len() && 0 <= j
                        < deterministic_states@[k].non_deterministic_states@.len() ==> (
                    #[trigger] deterministic_states@[k].non_deterministic_states@[j]) < n,
                forall|k1: int, k2: int|
                    0 <= k1 < k2 < deterministic_states@.len()
                        ==> deterministic_states@[k1].non_deterministic_states@
                        != deterministic_states@[k2].non_deterministic_states@,
                forall|k: int|
                    0 <= k < deterministic_states@.len() ==> ((
                    #[trigger] deterministic_states@[k]).is_marked <==> k < transitions@.len()),
                forall|k: int|
                    0 <= k < transitions@.len() ==> (#[trigger] transitions@[k]).1 == poslist_accept(
                        stk,
                        deterministic_states@[k].non_deterministic_states@,
                    ),
                forall|k: int, j: int|
                    0 <= k < transitions@.len() && 0 <= j < transitions@[k].0@.len() ==> (
                    #[trigger] transitions@[k].0@[j]).0 < self.matching_groups@.len()
                        && transitions@[k].0@[j].1 < deterministic_states@.len(),
                poslist_accept(stk, deterministic_states@[0].non_deterministic_states@)
                    == poslist_accept(stk, stk[stk.len() - 1].first_pos@),
                same_members(
                    deterministic_states@[0].non_deterministic_states@,
                    stk[stk.len() - 1].first_pos@,
                ),
                forall|k: int, g: usize|
                    0 <= k < transitions@.len() && g < self.matching_groups@.len()
                        ==> #[trigger] row_describes(
                        stk,
                        deterministic_states@[k].non_deterministic_states@,
                        transitions@[k].0@,
                        state_position_sets(deterministic_states@),
                        g,
                    ),
            decreases pow2(n as nat) - transitions@.len(),
        {
            let ghost boundary = transitions@.len() as int;
            let unmarked_state_index = match self.get_next_unmarked_state_index(
                &deterministic_states,
            ) {
                Some(index) => index,
                None => {
                    proof {
                        assert(deterministic_states@[boundary].is_marked);
                    }
                    unreached()
                },
            };
            proof {
                assert(!deterministic_states@[boundary].is_marked);
                if unmarked_state_index > boundary {
                    assert(deterministic_states@[boundary].is_marked);
                }
                if (unmarked_state_index as int) < boundary {
                    assert(deterministic_states@[unmarked_state_index as int].is_marked);
                }
                assert(unmarked_state_index == transitions@.len());
            }
            let ghost states_before_mark = deterministic_states@;
            deterministic_states[unmarked_state_index].is_marked = true;
            proof {
                assert(state_position_sets(deterministic_states@) =~= state_position_sets(
                    states_before_mark,
                ));
            }
            let is_accepted = self.contains_accepting_states(
                &deterministic_states[unmarked_state_index].non_deterministic_states,
            );
            let ghost marked_len = transitions@.len() + 1;

            let mut row: Vec<(usize, usize)> = Vec::new();
            let mut matching_group_index: usize = 0;
            while matching_group_index < self.matching_groups.len()
                invariant
                    stk == self.stack@,
                    n == stk.len(),
                    calc_stack_bounded(stk),
                    matching_group_index <= self.matching_groups@.len(),
                    unmarked_state_index < deterministic_states@.len(),
                    marked_len == unmarked_state_index + 1,
                    transitions@.len() + 1 == marked_len,
                    is_accepted == poslist_accept(
                        stk,
                        deterministic_states@[unmarked_state_index as int].non_deterministic_states@,
                    ),
                    1 <= deterministic_states@.len(),
                    deterministic_states@.len() <= pow2(n as nat),
                    forall|k: int|
                        0 <= k < deterministic_states@.len() ==> sorted_strict(
                            (#[trigger] deterministic_states@[k]).non_deterministic_states@,
                        ),
                    forall|k: int, j: int|
                        0 <= k < deterministic_states@.len() && 0 <= j
                            < deterministic_states@[k].non_deterministic_states@.len() ==> (
                        #[trigger] deterministic_states@[k].non_deterministic_states@[j]) < n,
                    forall|k1: int, k2: int|
                        0 <= k1 < k2 < deterministic_states@.len()
                            ==> deterministic_states@[k1].non_deterministic_states@
                            != deterministic_states@[k2].non_deterministic_states@,
                    forall|k: int|
                        0 <= k < deterministic_states@.len() ==> ((
                        #[trigger] deterministic_states@[k]).is_marked <==> k < marked_len),
                    forall|k: int|
                        0 <= k < transitions@.len() ==> (#[trigger] transitions@[k]).1
                            == poslist_accept(
                            stk,
                            deterministic_states@[k].non_deterministic_states@,
                        ),
                    forall|k: int, j: int|
                        0 <= k < transitions@.len() && 0 <= j < transitions@[k].0@.len() ==> (
                        #[trigger] transitions@[k].0@[j]).0 < self.matching_groups@.len()
                            && transitions@[k].0@[j].1 < deterministic_states@.len(),
                    forall|j: int|
                        0 <= j < row@.len() ==> (#[trigger] row@[j]).0
                            < self.matching_groups@.len() && row@[j].1
                            < deterministic_states@.len(),
                    poslist_accept(stk, deterministic_states@[0].non_deterministic_states@)
                        == poslist_accept(stk, stk[stk.len() - 1].first_pos@),
                    same_members(
                        deterministic_states@[0].non_deterministic_states@,
                        stk[stk.len() - 1].first_pos@,
                    ),
                    forall|k: int, g: usize|
                        0 <= k < transitions@.len() && g < self.matching_groups@.len()
                            ==> #[trigger] row_describes(
                            stk,
                            deterministic_states@[k].non_deterministic_states@,
                            transitions@[k].0@,
                            state_position_sets(deterministic_states@),
                            g,
                        ),
                    forall|g: usize|
                        g < matching_group_index ==> #[trigger] row_describes(
                            stk,
                            deterministic_states@[unmarked_state_index as int].non_deterministic_states@,
                            row@,
                            state_position_sets(deterministic_states@),
                            g,
                        ),
                    forall|j: int|
                        0 <= j < row@.len() ==> (#[trigger] row@[j]).0 < matching_group_index,
                decreases self.matching_groups@.len() - matching_group_index,
            {
                let ghost source = deterministic_states@[unmarked_state_index as int].non_deterministic_states@;
                let mut transition: Vec<usize> = Vec::new();
                let mut pi: usize = 0;
                while pi < deterministic_states[unmarked_state_index].non_deterministic_states.len()
                    invariant
                        stk == self.stack@,
                        n == stk.len(),
                        calc_stack_bounded(stk),
                        unmarked_state_index < deterministic_states@.len(),
                        source == deterministic_states@[unmarked_state_index as int].non_deterministic_states@,
                        pi <= deterministic_states@[unmarked_state_index as int].non_deterministic_states@.len(),
                        forall|k: int, j: int|
                            0 <= k < deterministic_states@.len() && 0 <= j
                                < deterministic_states@[k].non_deterministic_states@.len() ==> (
                            #[trigger] deterministic_states@[k].non_deterministic_states@[j]) < n,
                        sorted_strict(transition@),
                        forall|y: usize| #[trigger] transition@.contains(y) ==> y < n,
                        forall|q: usize| #[trigger]
                            transition@.contains(q) <==> position_in_transition_upto(
                                stk,
                                source,
                                matching_group_index,
                                q,
                                pi as int,
                            ),
                    decreases deterministic_states@[unmarked_state_index as int].non_deterministic_states@.len() - pi,
                {
                    let position = deterministic_states[unmarked_state_index].non_deterministic_states[pi];
                    let position_matches = match self.stack[position].matching_group_index {
                        Some(index) => index == matching_group_index,
                        None => false,
                    };
                    let ghost trans_at_pi = transition@;
                    if position_matches {
                        proof {
                            assert(calc_entry_bounded(stk, position as int));
                        }
                        let mut fi: usize = 0;
                        while fi < self.stack[position].follow_pos.len()
                            invariant
                                stk == self.stack@,
                                n == stk.len(),
                                position < n,
                                calc_stack_bounded(stk),
                                fi <= stk[position as int].follow_pos@.len(),
                                pi < source.len(),
                                position == source[pi as int],
                                stk[position as int].matching_group_index == Option::Some(
                                    matching_group_index,
                                ),
                                sorted_strict(transition@),
                                forall|y: usize| #[trigger] transition@.contains(y) ==> y < n,
                                forall|q: usize| #[trigger]
                                    transition@.contains(q) <==> (position_in_transition_upto(
                                        stk,
                                        source,
                                        matching_group_index,
                                        q,
                                        pi as int,
                                    ) || stk[position as int].follow_pos@.take(fi as int).contains(
                                        q,
                                    )),
                            decreases stk[position as int].follow_pos@.len() - fi,
                        {
                            proof {
                                assert(calc_entry_bounded(stk, position as int));
                            }
                            let next_position = self.stack[position].follow_pos[fi];
                            let ghost pre_trans = transition@;
                            insert_sorted(&mut transition, next_position);
                            proof {
                                let fp = stk[position as int].follow_pos@;
                                assert(fp.take(fi + 1 as int) =~= fp.take(fi as int).push(
                                    next_position,
                                ));
                                assert forall|q: usize| #[trigger]
                                    transition@.contains(q) implies (position_in_transition_upto(
                                    stk,
                                    source,
                                    matching_group_index,
                                    q,
                                    pi as int,
                                ) || fp.take(fi + 1 as int).contains(q)) by {
                                    if pre_trans.contains(q) {
                                        if fp.take(fi as int).contains(q) {
                                            let m = choose|m: int|
                                                0 <= m < fp.take(fi as int).len() && fp.take(
                                                    fi as int,
                                                )[m] == q;
                                            assert(fp.take(fi + 1 as int)[m] == q);
                                        }
                                    } else {
                                        assert(q == next_position);
                                        assert(fp.take(fi + 1 as int)[fi as int] == q);
                                    }
                                }
                                assert forall|q: usize|
                                    position_in_transition_upto(
                                        stk,
                                        source,
                                        matching_group_index,
                                        q,
                                        pi as int,
                                    ) || fp.take(fi + 1 as int).contains(q) implies #[trigger]
                                    transition@.contains(q) by {
                                    if fp.take(fi + 1 as int).contains(q) {
                                        let m = choose|m: int|
                                            0 <= m < fp.take(fi + 1 as int).len() && #[trigger] (
                                            fp.take(fi + 1 as int)[m]) == q;
                                        if m < fi {
                                            assert(fp.take(fi as int)[m] == q);
                                            assert(fp.take(fi as int).contains(q));
                                            assert(pre_trans.contains(q));
                                            assert(transition@.contains(q));
                                        } else {
                                            assert(q == next_position);
                                            assert(transition@.contains(q));
                                        }
                                    } else {
                                        assert(pre_trans.contains(q));
                                        assert(transition@.contains(q));
                                    }
                                }
                            }
                            fi = fi + 1;
                        }
                        proof {
                            let fp = stk[position as int].follow_pos@;
                            assert(fp.take(fp.len() as int) =~= fp);
                            assert forall|q: usize| #[trigger]
                                transition@.contains(q) implies position_in_transition_upto(
                                stk,
                                source,
                                matching_group_index,
                                q,
                                pi + 1 as int,
                            ) by {
                                if position_in_transition_upto(
                                    stk,
                                    source,
                                    matching_group_index,
                                    q,
                                    pi as int,
                                ) {
                                    let j = choose|j: int|
                                        0 <= j < pi && j < source.len() && source[j] < stk.len()
                                            && stk[source[j] as int].matching_group_index
                                            == Option::Some(matching_group_index) && stk[source[j] as int].follow_pos@.contains(
                                            q,
                                        );
                                    assert(0 <= j && j < pi + 1);
                                } else {
                                    assert(fp.contains(q));
                                    assert(0 <= (pi as int) && (pi as int) < pi + 1);
                                }
                            }
                            assert forall|q: usize|
                                position_in_transition_upto(
                                    stk,
                                    source,
                                    matching_group_index,
                                    q,
                                    pi + 1 as int,
                                ) implies #[trigger] transition@.contains(q) by {
                                let j = choose|j: int|
                                    0 <= j < pi + 1 && j < source.len() && source[j] < stk.len()
                                        && stk[source[j] as int].matching_group_index
                                        == Option::Some(matching_group_index) && stk[source[j] as int].follow_pos@.contains(
                                        q,
                                    );
                                if j < pi {
                                    assert(position_in_transition_upto(
                                        stk,
                                        source,
                                        matching_group_index,
                                        q,
                                        pi as int,
                                    ));
                                } else {
                                    assert(fp.contains(q));
                                }
                            }
                        }
                    } else {
                        proof {
                            assert forall|q: usize| #[trigger]
                                transition@.contains(q) <==> position_in_transition_upto(
                                stk,
                                source,
                                matching_group_index,
                                q,
                                pi + 1 as int,
                            ) by {
                                if position_in_transition_upto(
                                    stk,
                                    source,
                                    matching_group_index,
                                    q,
                                    pi + 1 as int,
                                ) {
                                    let j = choose|j: int|
                                        0 <= j < pi + 1 && j < source.len() && source[j] < stk.len()
                                            && stk[source[j] as int].matching_group_index
                                            == Option::Some(matching_group_index) && stk[source[j] as int].follow_pos@.contains(
                                            q,
                                        );
                                    assert(j < pi);
                                    assert(position_in_transition_upto(
                                        stk,
                                        source,
                                        matching_group_index,
                                        q,
                                        pi as int,
                                    ));
                                }
                            }
                        }
                    }
                    pi = pi + 1;
                }
                proof {
                    assert forall|q: usize| #[trigger]
                        transition@.contains(q) <==> position_in_transition(
                        stk,
                        source,
                        matching_group_index,
                        q,
                    ) by {
                        if position_in_transition(stk, source, matching_group_index, q) {
                            assert(position_in_transition_upto(
                                stk,
                                source,
                                matching_group_index,
                                q,
                                source.len() as int,
                            ));
                        }
                        if position_in_transition_upto(
                            stk,
                            source,
                            matching_group_index,
                            q,
                            source.len() as int,
                        ) {
                            assert(position_in_transition(stk, source, matching_group_index, q));
                        }
                    }
                }

                let ghost trans_members = transition@;
                if transition.len() != 0 {
                    let ghost states_pre = deterministic_states@;
                    let ghost row_pre = row@;
                    let state_id = self.get_state_id(&mut deterministic_states, transition);
                    proof {
                        if deterministic_states@.len() == states_pre.len() + 1 {
                            let vecs = Seq::<Seq<usize>>::new(
                                deterministic_states@.len(),
                                |k: int| deterministic_states@[k].non_deterministic_states@,
                            );
                            assert forall|k: int|
                                0 <= k < vecs.len() implies sorted_strict(#[trigger] vecs[k]) by {
                                assert(vecs[k] == deterministic_states@[k].non_deterministic_states@);
                            }
                            assert forall|k: int, j: int|
                                0 <= k < vecs.len() && 0 <= j < vecs[k].len() implies (
                            #[trigger] vecs[k][j]) < n by {
                                if k < states_pre.len() {
                                    assert(vecs[k] == states_pre[k].non_deterministic_states@);
                                } else {
                                    assert(vecs[k].contains(vecs[k][j]));
                                }
                            }
                            lemma_state_count_bound(vecs, n as nat);
                            assert(deterministic_states@.len() <= pow2(n as nat));
                        }
                        assert forall|k: int, j: int|
                            0 <= k < deterministic_states@.len() && 0 <= j
                                < deterministic_states@[k].non_deterministic_states@.len() implies (
                        #[trigger] deterministic_states@[k].non_deterministic_states@[j]) < n by {
                            if k < states_pre.len() {
                                assert(deterministic_states@[k] == states_pre[k]);
                            } else {
                                let s = deterministic_states@[k].non_deterministic_states@;
                                assert(s.contains(s[j]));
                            }
                        }
                    }
                    row.push((matching_group_index, state_id));
                    proof {
                        let states_now = state_position_sets(deterministic_states@);
                        assert(deterministic_states@[state_id as int].non_deterministic_states@
                            == trans_members);
                        assert(states_now[state_id as int] == trans_members);
                        lemma_row_lookup_absent(row_pre, matching_group_index as int, 0);
                        assert forall|g: usize|
                            g < matching_group_index + 1 implies #[trigger] row_describes(
                            stk,
                            source,
                            row@,
                            states_now,
                            g,
                        ) by {
                            lemma_row_lookup_push(
                                row_pre,
                                (matching_group_index, state_id),
                                g as int,
                                0,
                            );
                            if g < matching_group_index {
                                assert(row_describes(
                                    stk,
                                    source,
                                    row_pre,
                                    state_position_sets(states_pre),
                                    g,
                                ));
                                match spec_row_lookup(row_pre, g as int) {
                                    Option::Some(target) => {
                                        assert(state_position_sets(states_pre)[target as int]
                                            == states_now[target as int]);
                                    },
                                    Option::None => {},
                                }
                            } else {
                                assert(spec_row_lookup(row@, g as int) == Option::Some(state_id));
                                assert(trans_members.contains(trans_members[0]));
                                assert(position_in_transition(
                                    stk,
                                    source,
                                    matching_group_index,
                                    trans_members[0],
                                ));
                            }
                        }
                        assert forall|k: int, g: usize|
                            0 <= k < transitions@.len() && g < self.matching_groups@.len()
                                implies #[trigger] row_describes(
                            stk,
                            deterministic_states@[k].non_deterministic_states@,
                            transitions@[k].0@,
                            states_now,
                            g,
                        ) by {
                            assert(deterministic_states@[k] == states_pre[k]);
                            assert(row_describes(
                                stk,
                                states_pre[k].non_deterministic_states@,
                                transitions@[k].0@,
                                state_position_sets(states_pre),
                                g,
                            ));
                            match spec_row_lookup(transitions@[k].0@, g as int) {
                                Option::Some(target) => {
                                    assert(state_position_sets(states_pre)[target as int]
                                        == states_now[target as int]);
                                },
                                Option::None => {},
                            }
                        }
                    }
                } else {
                    proof {
                        lemma_row_lookup_absent(row@, matching_group_index as int, 0);
                        assert forall|g: usize|
                            g < matching_group_index + 1 implies #[trigger] row_describes(
                            stk,
                            source,
                            row@,
                            state_position_sets(deterministic_states@),
                            g,
                        ) by {
                            if g == matching_group_index {
                                assert forall|q: usize|
                                    !(#[trigger] position_in_transition(
                                        stk,
                                        source,
                                        g,
                                        q,
                                    )) by {
                                    if position_in_transition(stk, source, g, q) {
                                        assert(trans_members.contains(q));
                                        assert(trans_members.len() > 0);
                                    }
                                }
                            }
                        }
                    }
                }
                matching_group_index = matching_group_index + 1;
            }
            let ghost trans_pre = transitions@;
            let ghost row_final = row@;
            transitions.push((row, is_accepted));
            proof {
                assert forall|k: int|
                    0 <= k < transitions@.len() implies (#[trigger] transitions@[k]).1
                        == poslist_accept(
                        stk,
                        deterministic_states@[k].non_deterministic_states@,
                    ) by {
                    if k < trans_pre.len() {
                        assert(transitions@[k] == trans_pre[k]);
                    }
                }
                assert forall|k: int, g: usize|
                    0 <= k < transitions@.len() && g < self.matching_groups@.len()
                        implies #[trigger] row_describes(
                    stk,
                    deterministic_states@[k].non_deterministic_states@,
                    transitions@[k].0@,
                    state_position_sets(deterministic_states@),
                    g,
                ) by {
                    if k < trans_pre.len() {
                        assert(transitions@[k] == trans_pre[k]);
                    } else {
                        assert(transitions@[k].0@ == row_final);
                        assert(deterministic_states@[k].non_deterministic_states@
                            == deterministic_states@[unmarked_state_index as int].non_deterministic_states@);
                    }
                }
            }
        }

        let ghost trans_final = transitions@;
        let ghost states_final = state_position_sets(deterministic_states@);
        let engine = RegexEngine::new_with_values(self.matching_groups, transitions);
        proof {
            assert(trans_final.len() >= 1);
            assert(engine@.table[0] == (trans_final[0].0@, trans_final[0].1));
            assert(engine@.table[0].1 == trans_final[0].1);
            assert forall|k: int, j: int|
                0 <= k < engine@.table.len() && 0 <= j < engine@.table[k].0.len() implies (
            #[trigger] engine@.table[k].0[j]).0 < engine@.groups.len() && engine@.table[k].0[j].1
                < engine@.table.len() by {
                assert(engine@.table[k] == (trans_final[k].0@, trans_final[k].1));
                assert(trans_final[k].0@[j].0 < engine@.groups.len() && trans_final[k].0@[j].1
                    < trans_final.len());
            }
            assert forall|k: int|
                0 <= k < engine@.table.len() implies (#[trigger] engine@.table[k]).1
                    == poslist_accept(stk, states_final[k]) by {
                assert(engine@.table[k] == (trans_final[k].0@, trans_final[k].1));
            }
            assert forall|k: int, g: usize|
                0 <= k < engine@.table.len() && g < self.matching_groups@.len()
                    implies #[trigger] row_describes(
                stk,
                states_final[k],
                engine@.table[k].0,
                states_final,
                g,
            ) by {
                assert(engine@.table[k] == (trans_final[k].0@, trans_final[k].1));
                assert(row_describes(
                    stk,
                    deterministic_states@[k].non_deterministic_states@,
                    trans_final[k].0@,
                    states_final,
                    g,
                ));
            }
            assert(table_describes(
                stk,
                self.matching_groups@.len() as int,
                engine@.table,
                states_final,
            ));
            assert(same_members(states_final[0], stk[stk.len() - 1].first_pos@));
        }
        engine
    }

    /// Compiles a syntax tree into an engine: the post-order pass, the
    /// followpos pass, and the determinization. The start state accepts
    /// exactly when the accepting sentinel stands in the root's firstpos,
    /// and compilation succeeds exactly for trees free of the empty marker.
    pub(crate) fn create_regex_engine(ast: &RegexAstElements) -> (r: Result<
        RegexEngine,
        RegexError,
    >)
        ensures
            match r {
                Result::Ok(engine) => spec_accepting(engine@, 0) == spec_firstpos_has_accept(ast@)
                    && spec_no_empty_marker(ast@) && crate::engine::engine_wf(engine@)
                    && engine_realizes_tree(engine@, ast@),
                Result::Err(e) => e == RegexError::InvalidOperatorState && !spec_no_empty_marker(
                    ast@,
                ),
            },
    {
        let mut builder = StateMachineBuilder::new();
        let root_index = match builder.create_calculation_stack_for_element(ast) {
            Result::Ok(index) => index,
            Result::Err(e) => {
                return Result::Err(e);
            },
        };
        let ghost built = builder.stack@;
        builder.caclulate_follow_pos_for_stack();
        proof {
            let now = builder.stack@;
            assert forall|k: int| 0 <= k < built.len() implies built[k].accepted == (
            #[trigger] now[k]).accepted by {
                assert(same_except_parent_follow(built[k], now[k]));
            }
            assert(calc_entry_bounded(built, root_index as int));
            lemma_poslist_frame(built, now, built[root_index as int].first_pos@);
            assert(same_except_parent_follow(built[root_index as int], now[root_index as int]));
            assert(now[root_index as int].first_pos@ == built[root_index as int].first_pos@);
        }
        let ghost groups_after = group_views(builder.matching_groups@);
        let ghost final_stack = builder.stack@;
        let engine = builder.convert_to_regex_engine();
        proof {
            assert(engine@.groups =~= groups_after);
            assert forall|k: int| 0 <= k < built.len() implies same_except_parent_follow(
                built[k],
                #[trigger] final_stack[k],
            ) by {}
            lemma_represents_frame_follow(built, final_stack, groups_after, ast@, 0);
            assert(stack_represents(final_stack, engine@.groups, ast@, 0));
            assert forall|p: usize|
                p < final_stack.len() implies (#[trigger] final_stack[p as int].follow_pos@)
                    == spec_follow_additions(final_stack, p, final_stack.len() as int) by {
                assert(built[p as int].follow_pos@ =~= Seq::<usize>::empty());
                lemma_follow_additions_agree(built, final_stack, p, built.len() as int);
                assert(final_stack[p as int].follow_pos@ == built[p as int].follow_pos@
                    + spec_follow_additions(built, p, built.len() as int));
                assert(Seq::<usize>::empty() + spec_follow_additions(
                    built,
                    p,
                    built.len() as int,
                ) =~= spec_follow_additions(built, p, built.len() as int));
            }
            assert(group_views(Seq::<MatchingGroup>::empty()) =~= Seq::<
                MatchingGroupView,
            >::empty());
            assert(engine@.groups == spec_intern_ast(Seq::empty(), ast@));
            let states = choose|states: Seq<Seq<usize>>|
                {
                    &&& table_describes(
                        final_stack,
                        groups_after.len() as int,
                        engine@.table,
                        states,
                    )
                    &&& states.len() >= 1
                    &&& same_members(states[0], final_stack[final_stack.len() - 1].first_pos@)
                };
            assert(table_describes(
                final_stack,
                engine@.groups.len() as int,
                engine@.table,
                states,
            ));
            assert(final_stack.len() == ast_size(ast@));
            assert(final_stack[final_stack.len() - 1].first_pos@ == spec_firstpos(ast@, 0));
            assert(same_members(states[0], spec_firstpos(ast@, 0)));
            assert(engine_realizes_tree(engine@, ast@));
        }
        Result::Ok(engine)
    }
}

} // verus!
verus! {

/// A group the interning scan did not find is in none of the entries scanned.
proof fn lemma_intern_none_absent(groups: Seq<MatchingGroupView>, g: MatchingGroupView, i: int)
    requires
        0 <= i,
        spec_intern_from(groups, g, i) is None,
    ensures
        forall|k: int| i <= k < groups.len() ==> groups[k] != g,
    decreases groups.len() - i,
{
    if i < groups.len() {
        lemma_intern_none_absent(groups, g, i + 1);
    }
}

/// Interning keeps the group table free of duplicates.
proof fn lemma_intern_ast_distinct(groups: Seq<MatchingGroupView>, ast: RegexAst)
    requires
        forall|i: int, j: int| 0 <= i < j < groups.len() ==> #[trigger] groups[i] != #[trigger] groups[j],
    ensures
        forall|i: int, j: int|
            0 <= i < j < spec_intern_ast(groups, ast).len() ==> #[trigger] spec_intern_ast(
                groups,
                ast,
            )[i] != #[trigger] spec_intern_ast(groups, ast)[j],
        spec_intern_ast(groups, ast).len() >= groups.len(),
        forall|k: int|
            0 <= k < groups.len() ==> #[trigger] spec_intern_ast(groups, ast)[k] == groups[k],
    decreases ast,
{
    match ast {
        RegexAst::Alternation(left, right) => {
            lemma_intern_ast_distinct(groups, *left);
            lemma_intern_ast_distinct(spec_intern_ast(groups, *left), *right);
        },
        RegexAst::Concatenation(left, right) => {
            lemma_intern_ast_distinct(groups, *left);
            lemma_intern_ast_distinct(spec_intern_ast(groups, *left), *right);
        },
        RegexAst::Leaf(group) => {
            match spec_intern_from(groups, group, 0) {
                Option::Some(k) => {},
                Option::None => {
                    lemma_intern_none_absent(groups, group, 0);
                },
            }
        },
        RegexAst::ZeroOrMore(child) => {
            lemma_intern_ast_distinct(groups, *child);
        },
        RegexAst::ZeroOrOne(child) => {
            lemma_intern_ast_distinct(groups, *child);
        },
        RegexAst::Empty => {},
    }
}

/// Two arenas that record the same tree over a duplicate-free group table
/// agree on every field the record pins — everything but parents and
/// followpos.
proof fn lemma_represents_pins(
    stack1: Seq<StateCalculations>,
    stack2: Seq<StateCalculations>,
    groups: Seq<MatchingGroupView>,
    ast: RegexAst,
    base: int,
)
    requires
        stack_represents(stack1, groups, ast, base),
        stack_represents(stack2, groups, ast, base),
        forall|i: int, j: int| 0 <= i < j < groups.len() ==> #[trigger] groups[i] != #[trigger] groups[j],
    ensures
        forall|k: int|
            base <= k < base + ast_size(ast) ==> same_except_parent_follow(
                #[trigger] stack1[k],
                stack2[k],
            ),
    decreases ast,
{
    let root = base + ast_size(ast) - 1;
    match ast {
        RegexAst::Alternation(left, right) => {
            lemma_represents_pins(stack1, stack2, groups, *left, base);
            lemma_represents_pins(stack1, stack2, groups, *right, base + ast_size(*left));
        },
        RegexAst::Concatenation(left, right) => {
            lemma_represents_pins(stack1, stack2, groups, *left, base);
            lemma_represents_pins(stack1, stack2, groups, *right, base + ast_size(*left));
        },
        RegexAst::Leaf(group) => {
            let j1 = stack1[root].matching_group_index->0;
            let j2 = stack2[root].matching_group_index->0;
            assert(groups[j1 as int] == group && groups[j2 as int] == group);
            if j1 != j2 {
                if j1 < j2 {
                    assert(groups[j1 as int] != groups[j2 as int]);
                } else {
                    assert(groups[j2 as int] != groups[j1 as int]);
                }
            }
        },
        RegexAst::ZeroOrMore(child) => {
            lemma_represents_pins(stack1, stack2, groups, *child, base);
        },
        RegexAst::ZeroOrOne(child) => {
            lemma_represents_pins(stack1, stack2, groups, *child, base);
        },
        RegexAst::Empty => {},
    }
}

/// Membership in a transition set depends only on the members of the source
/// set and the pinned fields of the arena.
proof fn lemma_transition_members(
    stack1: Seq<StateCalculations>,
    stack2: Seq<StateCalculations>,
    source1: Seq<usize>,
    source2: Seq<usize>,
    g: usize,
    q: usize,
)
    requires
        stack1.len() == stack2.len(),
        forall|k: int|
            0 <= k < stack1.len() ==> same_except_parent_follow(#[trigger] stack1[k], stack2[k]),
        forall|p: usize|
            p < stack1.len() ==> (#[trigger] stack1[p as int].follow_pos@)
                == stack2[p as int].follow_pos@,
        same_members(source1, source2),
    ensures
        position_in_transition(stack1, source1, g, q) == position_in_transition(
            stack2,
            source2,
            g,
            q,
        ),
{
    if position_in_transition(stack1, source1, g, q) {
        let j = choose|j: int|
            0 <= j < source1.len() && source1[j] < stack1.len()
                && stack1[source1[j] as int].matching_group_index == Option::Some(g)
                && stack1[source1[j] as int].follow_pos@.contains(q);
        assert(source1.contains(source1[j]));
        assert(source2.contains(source1[j]));
        let m = choose|m: int| 0 <= m < source2.len() && source2[m] == source1[j];
        assert(position_in_transition(stack2, source2, g, q));
    }
    if position_in_transition(stack2, source2, g, q) {
        let j = choose|j: int|
            0 <= j < source2.len() && source2[j] < stack2.len()
                && stack2[source2[j] as int].matching_group_index == Option::Some(g)
                && stack2[source2[j] as int].follow_pos@.contains(q);
        assert(source2.contains(source2[j]));
        assert(source1.contains(source2[j]));
        let m = choose|m: int| 0 <= m < source1.len() && source1[m] == source2[j];
        assert(position_in_transition(stack1, source1, g, q));
    }
}

/// Whether a set holds an accepting position depends only on its members and
/// the pinned acceptance flags.
proof fn lemma_accept_members(
    stack1: Seq<StateCalculations>,
    stack2: Seq<StateCalculations>,
    source1: Seq<usize>,
    source2: Seq<usize>,
)
    requires
        stack1.len() == stack2.len(),
        forall|k: int|
            0 <= k < stack1.len() ==> same_except_parent_follow(#[trigger] stack1[k], stack2[k]),
        same_members(source1, source2),
    ensures
        poslist_accept(stack1, source1) == poslist_accept(stack2, source2),
{
    if poslist_accept(stack1, source1) {
        let j = choose|j: int|
            0 <= j < source1.len() && source1[j] < stack1.len()
                && stack1[source1[j] as int].accepted;
        assert(source1.contains(source1[j]));
        assert(source2.contains(source1[j]));
        let m = choose|m: int| 0 <= m < source2.len() && source2[m] == source1[j];
        assert(0 <= m < source2.len() && source2[m] < stack2.len()
            && stack2[source2[m] as int].accepted);
    }
    if poslist_accept(stack2, source2) {
        let j = choose|j: int|
            0 <= j < source2.len() && source2[j] < stack2.len()
                && stack2[source2[j] as int].accepted;
        assert(source2.contains(source2[j]));
        assert(source1.contains(source2[j]));
        let m = choose|m: int| 0 <= m < source1.len() && source1[m] == source2[j];
        assert(0 <= m < source1.len() && source1[m] < stack1.len()
            && stack1[source1[m] as int].accepted);
    }
}

} // verus!
verus! {

/// Two engines that realize the same tree run in step: from states standing
/// for member-equal position sets, every input leads both to the same
/// verdict.
proof fn lemma_realized_runs_agree(
    v1: crate::engine::RegexEngineView,
    v2: crate::engine::RegexEngineView,
    stack1: Seq<StateCalculations>,
    stack2: Seq<StateCalculations>,
    states1: Seq<Seq<usize>>,
    states2: Seq<Seq<usize>>,
    k1: int,
    k2: int,
    s: Seq<char>,
)
    requires
        v1.groups == v2.groups,
        v1.groups.len() <= usize::MAX,
        stack1.len() == stack2.len(),
        forall|k: int|
            0 <= k < stack1.len() ==> same_except_parent_follow(#[trigger] stack1[k], stack2[k]),
        forall|p: usize|
            p < stack1.len() ==> (#[trigger] stack1[p as int].follow_pos@)
                == stack2[p as int].follow_pos@,
        table_describes(stack1, v1.groups.len() as int, v1.table, states1),
        table_describes(stack2, v2.groups.len() as int, v2.table, states2),
        0 <= k1 < v1.table.len(),
        0 <= k2 < v2.table.len(),
        same_members(states1[k1], states2[k2]),
    ensures
        crate::engine::spec_run(v1, k1, s) == crate::engine::spec_run(v2, k2, s),
    decreases s.len(),
{
    if s.len() == 0 {
        assert(v1.table[k1].1 == poslist_accept(stack1, states1[k1]));
        assert(v2.table[k2].1 == poslist_accept(stack2, states2[k2]));
        lemma_accept_members(stack1, stack2, states1[k1], states2[k2]);
    } else {
        let c = s[0];
        match crate::engine::spec_resolve(v1.groups, c) {
            Option::None => {
                assert(crate::engine::spec_step(v1, k1, c) is None);
                assert(crate::engine::spec_step(v2, k2, c) is None);
            },
            Option::Some(g) => {
                crate::laws::lemma_resolved_group_accepts(v1.groups, c, 0);
                let gu = g as usize;
                assert(row_describes(stack1, states1[k1], v1.table[k1].0, states1, gu));
                assert(row_describes(stack2, states2[k2], v2.table[k2].0, states2, gu));
                assert forall|q: usize| #[trigger]
                    position_in_transition(stack1, states1[k1], gu, q) == position_in_transition(
                    stack2,
                    states2[k2],
                    gu,
                    q,
                ) by {
                    lemma_transition_members(stack1, stack2, states1[k1], states2[k2], gu, q);
                }
                match spec_row_lookup(v1.table[k1].0, gu as int) {
                    Option::Some(t1) => {
                        let q0 = choose|q: usize| #[trigger]
                            position_in_transition(stack1, states1[k1], gu, q);
                        assert(position_in_transition(stack2, states2[k2], gu, q0));
                        match spec_row_lookup(v2.table[k2].0, gu as int) {
                            Option::Some(t2) => {
                                assert forall|q: usize| #[trigger]
                                    states1[t1 as int].contains(q) <==> states2[t2 as int].contains(
                                    q,
                                ) by {
                                    assert(states1[t1 as int].contains(q)
                                        <==> position_in_transition(stack1, states1[k1], gu, q));
                                    assert(states2[t2 as int].contains(q)
                                        <==> position_in_transition(stack2, states2[k2], gu, q));
                                }
                                assert(same_members(states1[t1 as int], states2[t2 as int]));
                                assert(crate::engine::spec_step(v1, k1, c) == Option::Some(t1));
                                assert(crate::engine::spec_step(v2, k2, c) == Option::Some(t2));
                                lemma_realized_runs_agree(
                                    v1,
                                    v2,
                                    stack1,
                                    stack2,
                                    states1,
                                    states2,
                                    t1 as int,
                                    t2 as int,
                                    s.drop_first(),
                                );
                            },
                            Option::None => {
                                assert(!position_in_transition(stack2, states2[k2], gu, q0));
                                assert(false);
                            },
                        }
                    },
                    Option::None => {
                        match spec_row_lookup(v2.table[k2].0, gu as int) {
                            Option::Some(t2) => {
                                let q0 = choose|q: usize| #[trigger]
                                    position_in_transition(stack2, states2[k2], gu, q);
                                assert(position_in_transition(stack1, states1[k1], gu, q0));
                                assert(false);
                            },
                            Option::None => {
                                assert(crate::engine::spec_step(v1, k1, c) is None);
                                assert(crate::engine::spec_step(v2, k2, c) is None);
                            },
                        }
                    },
                }
            },
        }
    }
}

/// Two engines that realize the same syntax tree accept exactly the same
/// language.
pub proof fn lemma_engines_realizing_same_tree_agree(
    v1: crate::engine::RegexEngineView,
    v2: crate::engine::RegexEngineView,
    ast: RegexAst,
    s: Seq<char>,
)
    requires
        engine_realizes_tree(v1, ast),
        engine_realizes_tree(v2, ast),
        v1.groups.len() <= usize::MAX,
    ensures
        crate::engine::spec_matches(v1, s) == crate::engine::spec_matches(v2, s),
{
    let (stack1, states1) = choose|stack: Seq<StateCalculations>, states: Seq<Seq<usize>>|
        {
            &&& #[trigger] stack_represents(stack, v1.groups, ast, 0)
            &&& stack.len() == ast_size(ast)
            &&& (forall|p: usize|
                p < stack.len() ==> (#[trigger] stack[p as int].follow_pos@)
                    == spec_follow_additions(stack, p, stack.len() as int))
            &&& v1.groups == spec_intern_ast(Seq::empty(), ast)
            &&& #[trigger] table_describes(stack, v1.groups.len() as int, v1.table, states)
            &&& states.len() >= 1
            &&& same_members(states[0], spec_firstpos(ast, 0))
        };
    let (stack2, states2) = choose|stack: Seq<StateCalculations>, states: Seq<Seq<usize>>|
        {
            &&& #[trigger] stack_represents(stack, v2.groups, ast, 0)
            &&& stack.len() == ast_size(ast)
            &&& (forall|p: usize|
                p < stack.len() ==> (#[trigger] stack[p as int].follow_pos@)
                    == spec_follow_additions(stack, p, stack.len() as int))
            &&& v2.groups == spec_intern_ast(Seq::empty(), ast)
            &&& #[trigger] table_describes(stack, v2.groups.len() as int, v2.table, states)
            &&& states.len() >= 1
            &&& same_members(states[0], spec_firstpos(ast, 0))
        };
    assert(v1.groups == v2.groups);
    lemma_intern_ast_distinct(Seq::empty(), ast);
    lemma_represents_pins(stack1, stack2, v1.groups, ast, 0);
    assert forall|p: usize|
        p < stack1.len() implies (#[trigger] stack1[p as int].follow_pos@)
            == stack2[p as int].follow_pos@ by {
        lemma_follow_additions_agree(stack1, stack2, p, stack1.len() as int);
        assert(stack1[p as int].follow_pos@ == spec_follow_additions(
            stack1,
            p,
            stack1.len() as int,
        ));
        assert(stack2[p as int].follow_pos@ == spec_follow_additions(
            stack2,
            p,
            stack2.len() as int,
        ));
    }
    assert forall|q: usize| #[trigger]
        states1[0].contains(q) <==> states2[0].contains(q) by {
        assert(states1[0].contains(q) <==> spec_firstpos(ast, 0).contains(q));
        assert(states2[0].contains(q) <==> spec_firstpos(ast, 0).contains(q));
    }
    assert(same_members(states1[0], states2[0]));
    assert(states1.len() == v1.table.len());
    assert(states2.len() == v2.table.len());
    lemma_realized_runs_agree(v1, v2, stack1, stack2, states1, states2, 0, 0, s);
}

} // verus!
