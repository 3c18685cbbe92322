//! The match runtime: a compiled engine is an interned matching-group table
//! and a deterministic transition table, and `matches` walks the table one
//! input character at a time. The spec functions here give the exact meaning
//! of a run, so that `matches` is a pure function of the engine and the input.

use vstd::prelude::*;

use crate::groups::some_element_matches;
use crate::groups::MatchingGroup;
use crate::groups::MatchingGroupElements;
use crate::groups::MatchingGroupView;

verus! {

/// A compiled engine. State 0 is the start state. Each entry of `transitions`
/// is one state's row: the transitions it has, keyed by matching-group index,
/// and whether the state accepts.
pub struct RegexEngine {
    pub(crate) matching_groups: Vec<MatchingGroup>,
    pub(crate) transitions: Vec<(Vec<(usize, usize)>, bool)>,
}

/// The mathematical value of an engine.
pub struct RegexEngineView {
    pub groups: Seq<MatchingGroupView>,
    pub table: Seq<(Seq<(usize, usize)>, bool)>,
}

impl View for RegexEngine {
    type V = RegexEngineView;

    closed spec fn view(&self) -> RegexEngineView {
        RegexEngineView {
            groups: Seq::new(self.matching_groups@.len(), |i: int| self.matching_groups@[i]@),
            table: Seq::new(
                self.transitions@.len(),
                |i: int| (self.transitions@[i].0@, self.transitions@[i].1),
            ),
        }
    }
}

/// Which matching group a character resolves to, scanning the interned table
/// from index `i` upward: a literal or a class that accepts the character
/// resolves to its own index, the accepting sentinel is passed over, and a
/// negative class one of whose elements accepts the character stops the whole
/// resolution with no group at all.
pub open spec fn spec_resolve_from(groups: Seq<MatchingGroupView>, c: char, i: int) -> Option<int>
    decreases groups.len() - i,
{
    if i < 0 || i >= groups.len() {
        None
    } else {
        match groups[i] {
            MatchingGroupView::Character(m) => if m == c {
                Some(i)
            } else {
                spec_resolve_from(groups, c, i + 1)
            },
            MatchingGroupView::Group(elements) => if some_element_matches(elements, c) {
                Some(i)
            } else {
                spec_resolve_from(groups, c, i + 1)
            },
            MatchingGroupView::NegativeGroup(elements) => if some_element_matches(elements, c) {
                None
            } else {
                Some(i)
            },
            MatchingGroupView::AcceptedState => spec_resolve_from(groups, c, i + 1),
        }
    }
}

/// The matching group a character resolves to, if any.
pub open spec fn spec_resolve(groups: Seq<MatchingGroupView>, c: char) -> Option<int> {
    spec_resolve_from(groups, c, 0)
}

/// The first transition in a row whose key is `key`, scanning from `j`.
pub open spec fn spec_row_lookup_from(row: Seq<(usize, usize)>, key: int, j: int) -> Option<usize>
    decreases row.len() - j,
{
    if j < 0 || j >= row.len() {
        None
    } else if row[j].0 == key {
        Some(row[j].1)
    } else {
        spec_row_lookup_from(row, key, j + 1)
    }
}

/// The transition a row holds for a matching-group index.
pub open spec fn spec_row_lookup(row: Seq<(usize, usize)>, key: int) -> Option<usize> {
    spec_row_lookup_from(row, key, 0)
}

/// Whether a state is an accepting state of the engine.
pub open spec fn spec_accepting(v: RegexEngineView, state: int) -> bool {
    0 <= state < v.table.len() && v.table[state].1
}

/// The successor state for one input character, if the character resolves to
/// a group and the current state has a transition for it.
pub open spec fn spec_step(v: RegexEngineView, state: int, c: char) -> Option<usize> {
    if 0 <= state < v.table.len() {
        match spec_resolve(v.groups, c) {
            Some(group_index) => spec_row_lookup(v.table[state].0, group_index),
            None => None,
        }
    } else {
        None
    }
}

/// A run of the automaton over `s` from `state`: the first failing step makes
/// the whole run reject, and consuming the whole input leaves the acceptance
/// flag of the state reached.
pub open spec fn spec_run(v: RegexEngineView, state: int, s: Seq<char>) -> bool
    decreases s.len(),
{
    if s.len() == 0 {
        spec_accepting(v, state)
    } else {
        match spec_step(v, state, s[0]) {
            Some(next) => spec_run(v, next as int, s.drop_first()),
            None => false,
        }
    }
}

/// What `matches` returns: a run from the start state.
pub open spec fn spec_matches(v: RegexEngineView, s: Seq<char>) -> bool {
    spec_run(v, 0, s)
}

/// A well-formed engine: every transition names an interned matching group
/// and leads to a state of the table.
pub open spec fn engine_wf(v: RegexEngineView) -> bool {
    forall|k: int, j: int|
        0 <= k < v.table.len() && 0 <= j < v.table[k].0.len() ==> (#[trigger] v.table[k].0[j]).0
            < v.groups.len() && v.table[k].0[j].1 < v.table.len()
}

/// The characters of a string as a vector.
pub(crate) fn string_chars(s: &str) -> (v: Vec<char>)
    ensures
        v@ == s@,
{
    let n: usize = s.unicode_len();
    let mut v: Vec<char> = Vec::new();
    let mut i: usize = 0;
    while i < n
        invariant
            n == s@.len(),
            i <= n,
            v@ == s@.take(i as int),
        decreases n - i,
    {
        v.push(s.get_char(i));
        proof {
            assert(v@ =~= s@.take(i + 1 as int));
        }
        i = i + 1;
    }
    proof {
        assert(s@.take(n as int) =~= s@);
    }
    v
}

/// Whether any element of a class accepts `character`, by linear scan.
fn contains_matching_element(elements: &Vec<MatchingGroupElements>, character: char) -> (r: bool)
    ensures
        r == some_element_matches(elements@, character),
{
    let mut k: usize = 0;
    while k < elements.len()
        invariant
            k <= elements.len(),
            forall|m: int|
                0 <= m < k ==> !crate::groups::element_matches(#[trigger] elements@[m], character),
        decreases elements.len() - k,
    {
        match elements[k] {
            MatchingGroupElements::Character(m) => {
                if m == character {
                    proof {
                        assert(crate::groups::element_matches(elements@[k as int], character));
                    }
                    return true;
                }
            },
            MatchingGroupElements::Range(lo, hi) => {
                if lo <= character && hi >= character {
                    proof {
                        assert(crate::groups::element_matches(elements@[k as int], character));
                    }
                    return true;
                }
            },
        }
        k = k + 1;
    }
    false
}

/// The first transition of a row for `key`, by linear scan.
fn row_lookup(row: &Vec<(usize, usize)>, key: usize) -> (r: Option<usize>)
    ensures
        r == spec_row_lookup(row@, key as int),
{
    let mut j: usize = 0;
    while j < row.len()
        invariant
            j <= row.len(),
            spec_row_lookup(row@, key as int) == spec_row_lookup_from(row@, key as int, j as int),
        decreases row.len() - j,
    {
        if row[j].0 == key {
            return Some(row[j].1);
        }
        j = j + 1;
    }
    None
}

impl RegexEngine {
    /// Wraps an already-built matching-group table and transition table.
    pub(crate) fn new_with_values(
        matching_groups: Vec<MatchingGroup>,
        transitions: Vec<(Vec<(usize, usize)>, bool)>,
    ) -> (r: RegexEngine)
        ensures
            r@.groups.len() == matching_groups@.len(),
            forall|i: int|
                0 <= i < matching_groups@.len() ==> r@.groups[i] == #[trigger] matching_groups@[i]@,
            r@.table.len() == transitions@.len(),
            forall|i: int|
                0 <= i < transitions@.len() ==> r@.table[i] == (
                #[trigger] transitions@[i].0@,
                transitions@[i].1,
                ),
    {
        RegexEngine { matching_groups, transitions }
    }

    /// The matching group `character` resolves to under the engine's table.
    fn get_matching_group_index(&self, character: char) -> (r: Option<usize>)
        ensures
            match r {
                Some(k) => spec_resolve(self@.groups, character) == Some(k as int),
                None => spec_resolve(self@.groups, character) is None,
            },
    {
        let ghost groups = self@.groups;
        let mut i: usize = 0;
        while i < self.matching_groups.len()
            invariant
                i <= self.matching_groups.len(),
                groups == self@.groups,
                groups.len() == self.matching_groups@.len(),
                forall|j: int| 0 <= j < groups.len() ==> groups[j] == self.matching_groups@[j]@,
                spec_resolve(groups, character) == spec_resolve_from(groups, character, i as int),
            decreases self.matching_groups.len() - i,
        {
            proof {
                assert(groups[i as int] == self.matching_groups@[i as int]@);
            }
            match &self.matching_groups[i] {
                MatchingGroup::AcceptedState => {},
                MatchingGroup::Character(matching_character) => {
                    if *matching_character == character {
                        return Some(i);
                    }
                },
                MatchingGroup::Group(elements) => {
                    if contains_matching_element(elements, character) {
                        return Some(i);
                    }
                },
                MatchingGroup::NegativeGroup(elements) => {
                    if contains_matching_element(elements, character) {
                        return None;
                    }
                    return Some(i);
                },
            }
            i = i + 1;
        }
        None
    }

    /// Walks the transition table over the whole input. The result is exactly
    /// a run of the automaton from state 0: the same engine and the same
    /// input always give the same answer.
    pub fn matches(&self, string: &str) -> (r: bool)
        ensures
            r == spec_matches(self@, string@),
    {
        let characters = string_chars(string);
        let mut current_state: usize = 0;
        let mut i: usize = 0;

        proof {
            assert(string@.skip(0) =~= string@);
        }
        while i < characters.len()
            invariant
                i <= characters.len(),
                characters@ == string@,
                spec_matches(self@, string@) == spec_run(
                    self@,
                    current_state as int,
                    string@.skip(i as int),
                ),
            decreases characters.len() - i,
        {
            let character = characters[i];
            proof {
                assert(string@.skip(i as int)[0] == character);
                assert(string@.skip(i as int).drop_first() =~= string@.skip(i + 1 as int));
            }
            if current_state >= self.transitions.len() {
                return false;
            }
            let matching_group_index = match self.get_matching_group_index(character) {
                Some(index) => index,
                None => { return false; },
            };

            proof {
                assert(self@.table[current_state as int].0 == self.transitions@[current_state as int].0@);
            }
            match row_lookup(&self.transitions[current_state].0, matching_group_index) {
                Some(new_state) => {
                    current_state = new_state;
                },
                None => { return false; },
            }
            i = i + 1;
        }
        proof {
            assert(string@.skip(string@.len() as int) =~= Seq::<char>::empty());
        }
        if current_state < self.transitions.len() {
            self.transitions[current_state].1
        } else {
            false
        }
    }
}

} // verus!
