//! Matching groups: the single-character predicates that sit at the leaves of
//! a parsed pattern, together with their mathematical meaning.

use vstd::prelude::*;

verus! {

/// One element of a character class: a literal character or an inclusive range.
#[derive(Copy, Debug, PartialEq, Eq, Structural)]
pub enum MatchingGroupElements {
    Character(char),
    Range(char, char),
}

impl Clone for MatchingGroupElements {
    fn clone(&self) -> (r: Self)
        ensures
            r == *self,
    {
        *self
    }
}

/// A single-character predicate.
///
/// `Character(c)` matches exactly `c`; `Group` matches when any element does;
/// `NegativeGroup` matches when no element does (so an empty `NegativeGroup`
/// matches every character); `AcceptedState` is the sentinel leaf appended to
/// the end of every pattern and matches no input character.
#[derive(Debug)]
pub enum MatchingGroup {
    Character(char),
    Group(Vec<MatchingGroupElements>),
    NegativeGroup(Vec<MatchingGroupElements>),
    AcceptedState,
}

/// The mathematical value of a `MatchingGroup`: the same shape over `Seq`.
pub enum MatchingGroupView {
    Character(char),
    Group(Seq<MatchingGroupElements>),
    NegativeGroup(Seq<MatchingGroupElements>),
    AcceptedState,
}

impl View for MatchingGroup {
    type V = MatchingGroupView;

    open spec fn view(&self) -> MatchingGroupView {
        match self {
            MatchingGroup::Character(c) => MatchingGroupView::Character(*c),
            MatchingGroup::Group(elements) => MatchingGroupView::Group(elements@),
            MatchingGroup::NegativeGroup(elements) => MatchingGroupView::NegativeGroup(elements@),
            MatchingGroup::AcceptedState => MatchingGroupView::AcceptedState,
        }
    }
}

/// Whether one class element accepts the character `c`.
pub open spec fn element_matches(element: MatchingGroupElements, c: char) -> bool {
    match element {
        MatchingGroupElements::Character(m) => m == c,
        MatchingGroupElements::Range(lo, hi) => lo <= c && c <= hi,
    }
}

/// Whether any element of a class accepts the character `c`.
pub open spec fn some_element_matches(elements: Seq<MatchingGroupElements>, c: char) -> bool {
    exists|i: int| 0 <= i < elements.len() && element_matches(elements[i], c)
}

/// Whether a matching group accepts the character `c`.
pub open spec fn group_matches(group: MatchingGroupView, c: char) -> bool {
    match group {
        MatchingGroupView::Character(m) => m == c,
        MatchingGroupView::Group(elements) => some_element_matches(elements, c),
        MatchingGroupView::NegativeGroup(elements) => !some_element_matches(elements, c),
        MatchingGroupView::AcceptedState => false,
    }
}

impl MatchingGroup {
    /// Whether `self` and `other` denote the same predicate, variant and
    /// elements alike. Interning in the compiler depends on this notion.
    pub open spec fn same_group(&self, other: &MatchingGroup) -> bool {
        match (self@, other@) {
            (MatchingGroupView::Character(a), MatchingGroupView::Character(b)) => a == b,
            (MatchingGroupView::Group(a), MatchingGroupView::Group(b)) => a == b,
            (MatchingGroupView::NegativeGroup(a), MatchingGroupView::NegativeGroup(b)) => a == b,
            (MatchingGroupView::AcceptedState, MatchingGroupView::AcceptedState) => true,
            _ => false,
        }
    }
}

fn clone_elements(v: &Vec<MatchingGroupElements>) -> (r: Vec<MatchingGroupElements>)
    ensures
        r@ == v@,
{
    let mut out: Vec<MatchingGroupElements> = Vec::new();
    let mut i: usize = 0;
    while i < v.len()
        invariant
            i <= v.len(),
            out@ == v@.take(i as int),
        decreases v.len() - i,
    {
        out.push(v[i]);
        proof {
            assert(out@ =~= v@.take(i + 1 as int));
        }
        i = i + 1;
    }
    proof {
        assert(v@.take(v@.len() as int) =~= v@);
    }
    out
}

impl Clone for MatchingGroup {
    fn clone(&self) -> (r: Self)
        ensures
            r@ == self@,
    {
        match self {
            MatchingGroup::Character(c) => MatchingGroup::Character(*c),
            MatchingGroup::Group(elements) => MatchingGroup::Group(clone_elements(elements)),
            MatchingGroup::NegativeGroup(elements) => MatchingGroup::NegativeGroup(
                clone_elements(elements),
            ),
            MatchingGroup::AcceptedState => MatchingGroup::AcceptedState,
        }
    }
}

fn elements_equal(a: &Vec<MatchingGroupElements>, b: &Vec<MatchingGroupElements>) -> (r: bool)
    ensures
        r == (a@ == b@),
{
    if a.len() != b.len() {
        assert(a@.len() != b@.len());
        return false;
    }
    let mut i: usize = 0;
    while i < a.len()
        invariant
            i <= a.len(),
            a@.len() == b@.len(),
            forall|j: int| 0 <= j < i ==> a@[j] == b@[j],
        decreases a.len() - i,
    {
        if a[i] != b[i] {
            return false;
        }
        i = i + 1;
    }
    proof {
        assert(a@ =~= b@);
    }
    true
}

impl PartialEq for MatchingGroup {
    fn eq(&self, other: &MatchingGroup) -> (r: bool) {
        match (self, other) {
            (MatchingGroup::Character(a), MatchingGroup::Character(b)) => a == b,
            (MatchingGroup::Group(a), MatchingGroup::Group(b)) => elements_equal(a, b),
            (MatchingGroup::NegativeGroup(a), MatchingGroup::NegativeGroup(b)) => elements_equal(
                a,
                b,
            ),
            (MatchingGroup::AcceptedState, MatchingGroup::AcceptedState) => true,
            _ => false,
        }
    }
}

impl vstd::std_specs::cmp::PartialEqSpecImpl for MatchingGroup {
    open spec fn obeys_eq_spec() -> bool {
        true
    }

    open spec fn eq_spec(&self, other: &MatchingGroup) -> bool {
        self.same_group(other)
    }
}

} // verus!
