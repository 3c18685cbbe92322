//! Cursored productions and the closure step of the SLR construction: a state
//! grows until every non-terminal behind a cursor has its productions in the
//! state.

use vstd::prelude::*;

use crate::slr::grammar::symbol_views;
use crate::slr::grammar::GrammarSymbol;
use crate::slr::grammar::GrammarSymbolView;
use crate::slr::AstOperation;

verus! {

/// A production with a cursor: the cursor stands before the element at its
/// index, and at `elements.len()` when the whole production is consumed.
#[derive(Debug)]
pub struct Production {
    pub non_terminal: String,
    pub elements: Vec<GrammarSymbol>,
    pub cursor: usize,
    pub ast_function: AstOperation,
}

/// The mathematical value of a cursored production.
pub struct ProductionView {
    pub non_terminal: Seq<char>,
    pub elements: Seq<GrammarSymbolView>,
    pub cursor: usize,
    pub ast_function: AstOperation,
}

impl View for Production {
    type V = ProductionView;

    open spec fn view(&self) -> ProductionView {
        ProductionView {
            non_terminal: self.non_terminal@,
            elements: symbol_views(self.elements@),
            cursor: self.cursor,
            ast_function: self.ast_function,
        }
    }
}

/// The values of a list of cursored productions.
pub open spec fn production_views(productions: Seq<Production>) -> Seq<ProductionView> {
    Seq::new(productions.len(), |i: int| productions[i]@)
}

impl Production {
    pub fn new(
        non_terminal: &str,
        elements: Vec<GrammarSymbol>,
        cursor: usize,
        ast_function: AstOperation,
    ) -> (r: Production)
        ensures
            r@.non_terminal == non_terminal@,
            r@.elements == symbol_views(elements@),
            r@.cursor == cursor,
            r@.ast_function == ast_function,
    {
        Production { non_terminal: non_terminal.to_owned(), elements, cursor, ast_function }
    }

    /// A fresh production with the cursor at the start and no tree operation.
    pub fn from_string(non_terminal: &str, elements: Vec<GrammarSymbol>) -> (r: Production)
        ensures
            r@.non_terminal == non_terminal@,
            r@.elements == symbol_views(elements@),
            r@.cursor == 0,
            r@.ast_function == AstOperation::Nothing,
    {
        Production::new(non_terminal, elements, 0, AstOperation::Nothing)
    }

    /// A fresh production with the cursor at the start and a tree operation.
    pub fn with_function(
        non_terminal: &str,
        elements: Vec<GrammarSymbol>,
        ast_function: AstOperation,
    ) -> (r: Production)
        ensures
            r@.non_terminal == non_terminal@,
            r@.elements == symbol_views(elements@),
            r@.cursor == 0,
            r@.ast_function == ast_function,
    {
        Production::new(non_terminal, elements, 0, ast_function)
    }

    pub fn get_non_terminal(&self) -> (r: &str)
        ensures
            r@ == self@.non_terminal,
    {
        self.non_terminal.as_str()
    }

    /// The symbol right of the cursor, if any.
    pub fn get_next_grammar_symbol(&self) -> (r: Option<&GrammarSymbol>)
        ensures
            match r {
                Option::Some(symbol) => crate::slr::slr_goto::spec_next_symbol(self@)
                    == Option::Some(symbol@),
                Option::None => crate::slr::slr_goto::spec_next_symbol(self@) is None,
            },
    {
        if self.cursor >= self.elements.len() {
            return None;
        }
        Some(&self.elements[self.cursor])
    }

    pub fn move_cursor_ahead(&mut self)
        requires
            old(self)@.cursor < old(self)@.elements.len(),
        ensures
            final(self)@ == (ProductionView {
                cursor: (old(self)@.cursor + 1) as usize,
                ..old(self)@
            }),
    {
        let element_count = self.elements.len();
        proof {
            assert(self@.cursor < element_count);
        }
        self.cursor = self.cursor + 1;
    }

    pub fn cursor_is_at_end(&self) -> (r: bool)
        ensures
            r == (self@.cursor == self@.elements.len()),
    {
        self.cursor == self.elements.len()
    }

    pub fn get_element_size(&self) -> (r: usize)
        ensures
            r == self@.elements.len(),
    {
        self.elements.len()
    }

    pub fn get_elements(&self) -> (r: &Vec<GrammarSymbol>)
        ensures
            symbol_views(r@) == self@.elements,
    {
        &self.elements
    }

    pub fn get_function(&self) -> (r: AstOperation)
        ensures
            r == self@.ast_function,
    {
        self.ast_function
    }
}

impl Clone for Production {
    fn clone(&self) -> (r: Production)
        ensures
            r@ == self@,
    {
        let elements = clone_symbols(&self.elements);
        proof {
            assert(symbol_views(elements@) =~= symbol_views(self.elements@));
        }
        Production {
            non_terminal: self.non_terminal.clone(),
            elements,
            cursor: self.cursor,
            ast_function: self.ast_function,
        }
    }
}

impl PartialEq for Production {
    /// Two cursored productions are the same when they agree on non-terminal,
    /// elements and cursor; the tree operation is not compared.
    fn eq(&self, other: &Production) -> (r: bool) {
        if !self.non_terminal.eq(&other.non_terminal) {
            return false;
        }
        if self.cursor != other.cursor {
            return false;
        }
        symbols_equal(&self.elements, &other.elements)
    }
}

impl vstd::std_specs::cmp::PartialEqSpecImpl for Production {
    open spec fn obeys_eq_spec() -> bool {
        true
    }

    open spec fn eq_spec(&self, other: &Production) -> bool {
        self@.non_terminal == other@.non_terminal && self@.elements == other@.elements
            && self@.cursor == other@.cursor
    }
}

/// A copy of a string of grammar symbols.
fn clone_symbols(v: &Vec<GrammarSymbol>) -> (r: Vec<GrammarSymbol>)
    ensures
        symbol_views(r@) == symbol_views(v@),
{
    let mut out: Vec<GrammarSymbol> = Vec::new();
    let mut i: usize = 0;
    while i < v.len()
        invariant
            i <= v@.len(),
            out@.len() == i,
            forall|j: int| 0 <= j < i ==> (#[trigger] out@[j])@ == v@[j]@,
        decreases v@.len() - i,
    {
        out.push(v[i].clone());
        i = i + 1;
    }
    proof {
        assert(symbol_views(out@) =~= symbol_views(v@));
    }
    out
}

/// Whether two symbol strings hold the same symbols.
fn symbols_equal(a: &Vec<GrammarSymbol>, b: &Vec<GrammarSymbol>) -> (r: bool)
    ensures
        r == (symbol_views(a@) == symbol_views(b@)),
{
    if a.len() != b.len() {
        proof {
            assert(symbol_views(a@).len() != symbol_views(b@).len());
        }
        return false;
    }
    let mut i: usize = 0;
    while i < a.len()
        invariant
            i <= a@.len(),
            a@.len() == b@.len(),
            forall|j: int| 0 <= j < i ==> (#[trigger] symbol_views(a@)[j]) == symbol_views(b@)[j],
        decreases a@.len() - i,
    {
        if !(&a[i] == &b[i]) {
            proof {
                assert(symbol_views(a@)[i as int] != symbol_views(b@)[i as int]);
            }
            return false;
        }
        i = i + 1;
    }
    proof {
        assert(symbol_views(a@) =~= symbol_views(b@));
    }
    true
}

} // verus!
verus! {

/// Whether two cursored productions agree on non-terminal, elements and
/// cursor — the sameness that deduplication goes by; the tree operation is
/// left out, as in `==`.
pub open spec fn production_like(a: ProductionView, b: ProductionView) -> bool {
    a.non_terminal == b.non_terminal && a.elements == b.elements && a.cursor == b.cursor
}

/// Whether a state already holds a production the candidate is the same as.
pub open spec fn holds_production_like(state: Seq<ProductionView>, candidate: ProductionView) -> bool {
    exists|j: int| 0 <= j < state.len() && production_like(state[j], candidate)
}

/// Every (name, string) pair the grammar offers, flattened over the store
/// from entry `e`: the candidates a closure can ever add.
pub open spec fn closure_candidates(g: crate::slr::grammar::GrammarView, e: int) -> Seq<
    (Seq<char>, Seq<GrammarSymbolView>),
>
    decreases g.productions.len() - e,
{
    if e < 0 || e >= g.productions.len() {
        Seq::empty()
    } else {
        Seq::new(g.productions[e].1.len(), |j: int| (g.productions[e].0, g.productions[e].1[j]))
            + closure_candidates(g, e + 1)
    }
}

/// A production string found by lookup is one of the flattened candidates.
proof fn lemma_lookup_in_candidates(
    g: crate::slr::grammar::GrammarView,
    name: Seq<char>,
    elements: Seq<GrammarSymbolView>,
    e: int,
)
    requires
        0 <= e,
        crate::slr::grammar::spec_lookup_productions(g.productions, name, e) is Some,
        crate::slr::grammar::spec_lookup_productions(g.productions, name, e)->Some_0.contains(
            elements,
        ),
    ensures
        closure_candidates(g, e).contains((name, elements)),
    decreases g.productions.len() - e,
{
    if e < g.productions.len() {
        let head = Seq::new(
            g.productions[e].1.len(),
            |j: int| (g.productions[e].0, g.productions[e].1[j]),
        );
        if g.productions[e].0 == name {
            let list = g.productions[e].1;
            let j = choose|j: int| 0 <= j < list.len() && list[j] == elements;
            assert(head[j] == (name, elements));
            assert(closure_candidates(g, e)[j] == (name, elements));
        } else {
            lemma_lookup_in_candidates(g, name, elements, e + 1);
            let rest = closure_candidates(g, e + 1);
            let j = choose|j: int| 0 <= j < rest.len() && rest[j] == (name, elements);
            assert(closure_candidates(g, e)[head.len() + j] == (name, elements));
        }
    }
}

/// Whether one closure item demands nothing more of the state: where its
/// cursor stands before a non-terminal other than its own, every production
/// of that name is already in the state.
pub open spec fn item_closed(
    g: crate::slr::grammar::GrammarView,
    state: Seq<ProductionView>,
    item: ProductionView,
) -> bool {
    match crate::slr::slr_goto::spec_next_symbol(item) {
        Option::Some(GrammarSymbolView::NonTerminal(name)) => name != item.non_terminal
            ==> match crate::slr::grammar::spec_lookup_productions(g.productions, name, 0) {
            Option::Some(list) => forall|m: int|
                0 <= m < list.len() ==> holds_production_like(
                    state,
                    ProductionView {
                        non_terminal: name,
                        elements: #[trigger] list[m],
                        cursor: 0,
                        ast_function: AstOperation::Nothing,
                    },
                ),
            Option::None => true,
        },
        _ => true,
    }
}

/// Pairwise-distinct additions (no two alike) whose pairs come from the
/// grammar are at most as many as the grammar's flattened candidates.
proof fn lemma_added_bound(
    g: crate::slr::grammar::GrammarView,
    added: Seq<ProductionView>,
)
    requires
        forall|k1: int, k2: int|
            0 <= k1 < k2 < added.len() ==> !production_like(
                #[trigger] added[k1],
                #[trigger] added[k2],
            ),
        forall|k: int|
            0 <= k < added.len() ==> (#[trigger] added[k]).cursor == 0 && closure_candidates(
                g,
                0,
            ).contains((added[k].non_terminal, added[k].elements)),
    ensures
        added.len() <= closure_candidates(g, 0).len(),
{
    let pairs = Seq::new(added.len(), |k: int| (added[k].non_terminal, added[k].elements));
    assert forall|k1: int, k2: int| 0 <= k1 < k2 < pairs.len() implies pairs[k1] != pairs[k2] by {
        assert(!production_like(added[k1], added[k2]));
    }
    assert(pairs.no_duplicates());
    pairs.unique_seq_to_set();
    let candidates = closure_candidates(g, 0);
    candidates.lemma_cardinality_of_set();
    assert forall|p: (Seq<char>, Seq<GrammarSymbolView>)|
        pairs.to_set().contains(p) implies candidates.to_set().contains(p) by {
        let k = choose|k: int| 0 <= k < pairs.len() && pairs[k] == p;
        assert(candidates.contains((added[k].non_terminal, added[k].elements)));
    }
    vstd::set_lib::lemma_len_subset(pairs.to_set(), candidates.to_set());
}

/// Whether a state holds a production like the candidate, by linear scan.
fn state_holds(state: &Vec<Production>, candidate: &Production) -> (r: bool)
    ensures
        r == holds_production_like(production_views(state@), candidate@),
{
    let ghost sv = production_views(state@);
    let mut i: usize = 0;
    while i < state.len()
        invariant
            i <= state@.len(),
            sv == production_views(state@),
            forall|j: int| 0 <= j < i ==> !production_like(sv[j], candidate@),
        decreases state@.len() - i,
    {
        if &state[i] == candidate {
            proof {
                assert(production_like(sv[i as int], candidate@));
            }
            return true;
        }
        i = i + 1;
    }
    proof {
        if holds_production_like(sv, candidate@) {
            let j = choose|j: int| 0 <= j < sv.len() && production_like(sv[j], candidate@);
            assert(false);
        }
    }
    false
}

/// A copy of a list of cursored productions.
fn clone_productions(v: &Vec<Production>) -> (r: Vec<Production>)
    ensures
        production_views(r@) == production_views(v@),
{
    let mut out: Vec<Production> = Vec::new();
    let mut i: usize = 0;
    while i < v.len()
        invariant
            i <= v@.len(),
            out@.len() == i,
            forall|j: int| 0 <= j < i ==> (#[trigger] out@[j])@ == v@[j]@,
        decreases v@.len() - i,
    {
        out.push(v[i].clone());
        i = i + 1;
    }
    proof {
        assert(production_views(out@) =~= production_views(v@));
    }
    out
}

pub struct SlrClosure {}

impl SlrClosure {
    /// The closure of a state: grows the state until, for every item whose
    /// cursor stands before a non-terminal other than its own, that name's
    /// productions all stand in the state with their cursors at the start.
    /// Passed-over items and order are kept; nothing is added twice; only
    /// finitely many candidates exist, which bounds the passes.
    #[verifier::rlimit(30)]
    pub fn get_closure(grammar: &crate::slr::grammar::Grammar, productions: Vec<Production>) -> (r:
        Vec<Production>)
        ensures
            r@.len() >= productions@.len(),
            forall|k: int|
                0 <= k < productions@.len() ==> (#[trigger] r@[k])@ == productions@[k]@,
            forall|k: int|
                productions@.len() <= k < r@.len() ==> (#[trigger] r@[k])@.cursor == 0
                    && closure_candidates(grammar@, 0).contains(
                    (r@[k]@.non_terminal, r@[k]@.elements),
                ),
            forall|k: int|
                0 <= k < r@.len() ==> item_closed(
                    grammar@,
                    production_views(r@),
                    (#[trigger] r@[k])@,
                ),
    {
        let ghost g = grammar@;
        let ghost input_views = production_views(productions@);
        let input_len = productions.len();
        let mut productions = productions;
        let ghost bound = input_views.len() + closure_candidates(g, 0).len() + 1;
        let mut done = false;

        while !done
            invariant
                g == grammar@,
                bound == input_views.len() + closure_candidates(g, 0).len() + 1,
                productions@.len() >= input_len,
                input_len == input_views.len(),
                forall|k: int|
                    0 <= k < input_len ==> (#[trigger] productions@[k])@ == input_views[k],
                forall|k: int|
                    input_len <= k < productions@.len() ==> (#[trigger] productions@[k])@.cursor
                        == 0 && closure_candidates(g, 0).contains(
                        (productions@[k]@.non_terminal, productions@[k]@.elements),
                    ),
                forall|k1: int, k2: int|
                    input_len <= k1 < k2 < productions@.len() ==> !production_like(
                        (#[trigger] productions@[k1])@,
                        (#[trigger] productions@[k2])@,
                    ),
                productions@.len() < bound,
                done ==> forall|k: int|
                    0 <= k < productions@.len() ==> item_closed(
                        g,
                        production_views(productions@),
                        (#[trigger] productions@[k])@,
                    ),
            decreases bound - productions@.len() + (if done {
                0int
            } else {
                1int
            }),
        {
            let cloned_productions = clone_productions(&productions);
            let before_len = productions.len();
            let mut i: usize = 0;
            while i < cloned_productions.len()
                invariant
                    g == grammar@,
                    bound == input_views.len() + closure_candidates(g, 0).len() + 1,
                    i <= cloned_productions@.len(),
                    production_views(cloned_productions@) == production_views(
                        productions@,
                    ).take(cloned_productions@.len() as int),
                    cloned_productions@.len() == before_len,
                    before_len <= productions@.len(),
                    productions@.len() < bound,
                    input_len <= before_len,
                    input_len == input_views.len(),
                    forall|k: int|
                        0 <= k < input_len ==> (#[trigger] productions@[k])@ == input_views[k],
                    forall|k: int|
                        input_len <= k < productions@.len() ==> (
                        #[trigger] productions@[k])@.cursor == 0 && closure_candidates(
                            g,
                            0,
                        ).contains((productions@[k]@.non_terminal, productions@[k]@.elements)),
                    forall|k1: int, k2: int|
                        input_len <= k1 < k2 < productions@.len() ==> !production_like(
                            (#[trigger] productions@[k1])@,
                            (#[trigger] productions@[k2])@,
                        ),
                    forall|k: int|
                        0 <= k < i ==> item_closed(
                            g,
                            production_views(productions@),
                            production_views(cloned_productions@)[k],
                        ),
                decreases cloned_productions@.len() - i,
            {
                let ghost pre_pass = production_views(productions@);
                let next_is_new_non_terminal = match cloned_productions[i].get_next_grammar_symbol() {
                    Some(symbol) => match symbol {
                        GrammarSymbol::NonTerminal(name) => !name.eq(
                            &cloned_productions[i].non_terminal,
                        ),
                        GrammarSymbol::Terminal(_) => false,
                    },
                    None => false,
                };
                if next_is_new_non_terminal {
                    let name = match cloned_productions[i].get_next_grammar_symbol() {
                        Some(GrammarSymbol::NonTerminal(name)) => name.clone(),
                        _ => unreached(),
                    };
                    match grammar.find_productions(name.as_str()) {
                        None => {},
                        Some(new_productions) => {
                            let ghost list = crate::slr::grammar::production_list_views(
                                new_productions@,
                            );
                            let mut m: usize = 0;
                            while m < new_productions.len()
                                invariant
                                    g == grammar@,
                                    bound == input_views.len() + closure_candidates(g, 0).len()
                                        + 1,
                                    m <= new_productions@.len(),
                                    list == crate::slr::grammar::production_list_views(
                                        new_productions@,
                                    ),
                                    crate::slr::grammar::spec_lookup_productions(
                                        g.productions,
                                        name@,
                                        0,
                                    ) == Option::Some(list),
                                    before_len <= productions@.len(),
                                    productions@.len() < bound,
                                    input_len <= before_len,
                                    input_len == input_views.len(),
                                    production_views(cloned_productions@) == production_views(
                                        productions@,
                                    ).take(cloned_productions@.len() as int),
                                    cloned_productions@.len() == before_len,
                                    forall|k: int|
                                        0 <= k < input_len ==> (#[trigger] productions@[k])@
                                            == input_views[k],
                                    forall|k: int|
                                        input_len <= k < productions@.len() ==> (
                                        #[trigger] productions@[k])@.cursor == 0
                                            && closure_candidates(g, 0).contains(
                                            (
                                                productions@[k]@.non_terminal,
                                                productions@[k]@.elements,
                                            ),
                                        ),
                                    forall|k1: int, k2: int|
                                        input_len <= k1 < k2 < productions@.len()
                                            ==> !production_like(
                                            (#[trigger] productions@[k1])@,
                                            (#[trigger] productions@[k2])@,
                                        ),
                                    forall|k: int|
                                        0 <= k < i ==> item_closed(
                                            g,
                                            production_views(productions@),
                                            production_views(cloned_productions@)[k],
                                        ),
                                    forall|mm: int|
                                        0 <= mm < m ==> holds_production_like(
                                            production_views(productions@),
                                            ProductionView {
                                                non_terminal: name@,
                                                elements: #[trigger] list[mm],
                                                cursor: 0,
                                                ast_function: AstOperation::Nothing,
                                            },
                                        ),
                                decreases new_productions@.len() - m,
                            {
                                let candidate = Production::from_string(
                                    name.as_str(),
                                    clone_symbols_public(&new_productions[m]),
                                );
                                proof {
                                    assert(list[m as int] == crate::slr::grammar::symbol_views(
                                        new_productions@[m as int]@,
                                    ));
                                    assert(candidate@ == (ProductionView {
                                        non_terminal: name@,
                                        elements: list[m as int],
                                        cursor: 0,
                                        ast_function: AstOperation::Nothing,
                                    }));
                                }
                                let ghost pre = production_views(productions@);
                                if !state_holds(&productions, &candidate) {
                                    proof {
                                        lemma_lookup_in_candidates(g, name@, list[m as int], 0);
                                    }
                                    let ghost cand_view = candidate@;
                                    productions.push(candidate);
                                    proof {
                                        assert(production_views(productions@) =~= pre.push(
                                            cand_view,
                                        ));
                                        assert forall|k1: int, k2: int|
                                            input_len <= k1 < k2 < productions@.len()
                                                implies !production_like(
                                            (#[trigger] productions@[k1])@,
                                            (#[trigger] productions@[k2])@,
                                        ) by {
                                            if k2 == productions@.len() - 1 {
                                                assert(!production_like(pre[k1], cand_view));
                                                assert(productions@[k1]@ == pre[k1]);
                                                assert(productions@[k2]@ == cand_view);
                                            } else {
                                                assert(productions@[k1]@ == pre[k1]);
                                                assert(productions@[k2]@ == pre[k2]);
                                            }
                                        }
                                        assert(production_views(productions@).take(
                                            cloned_productions@.len() as int,
                                        ) =~= pre.take(cloned_productions@.len() as int));
                                        assert forall|k: int|
                                            0 <= k < i implies item_closed(
                                            g,
                                            production_views(productions@),
                                            production_views(cloned_productions@)[k],
                                        ) by {
                                            assert(item_closed(g, pre, production_views(
                                                cloned_productions@,
                                            )[k]));
                                            assert forall|c: ProductionView|
                                                holds_production_like(pre, c)
                                                    implies holds_production_like(
                                                production_views(productions@),
                                                c,
                                            ) by {
                                                let j = choose|j: int|
                                                    0 <= j < pre.len() && production_like(
                                                        pre[j],
                                                        c,
                                                    );
                                                assert(production_like(
                                                    production_views(productions@)[j],
                                                    c,
                                                ));
                                            }
                                        }
                                        assert forall|mm: int|
                                            0 <= mm < m + 1 implies holds_production_like(
                                            production_views(productions@),
                                            ProductionView {
                                                non_terminal: name@,
                                                elements: #[trigger] list[mm],
                                                cursor: 0,
                                                ast_function: AstOperation::Nothing,
                                            },
                                        ) by {
                                            if mm < m {
                                                let c = ProductionView {
                                                    non_terminal: name@,
                                                    elements: list[mm],
                                                    cursor: 0,
                                                    ast_function: AstOperation::Nothing,
                                                };
                                                let j = choose|j: int|
                                                    0 <= j < pre.len() && production_like(
                                                        pre[j],
                                                        c,
                                                    );
                                                assert(production_like(
                                                    production_views(productions@)[j],
                                                    c,
                                                ));
                                            } else {
                                                assert(production_like(
                                                    production_views(productions@)[
                                                        production_views(productions@).len() - 1],
                                                    ProductionView {
                                                        non_terminal: name@,
                                                        elements: list[mm],
                                                        cursor: 0,
                                                        ast_function: AstOperation::Nothing,
                                                    },
                                                ));
                                            }
                                        }
                                        let added = production_views(productions@).skip(
                                            input_len as int,
                                        );
                                        assert forall|k1: int, k2: int|
                                            0 <= k1 < k2 < added.len() implies !production_like(
                                            #[trigger] added[k1],
                                            #[trigger] added[k2],
                                        ) by {
                                            assert(added[k1] == production_views(productions@)[
                                                input_len + k1]);
                                            assert(added[k2] == production_views(productions@)[
                                                input_len + k2]);
                                        }
                                        assert forall|k: int|
                                            0 <= k < added.len() implies (
                                        #[trigger] added[k]).cursor == 0 && closure_candidates(
                                            g,
                                            0,
                                        ).contains((added[k].non_terminal, added[k].elements)) by {
                                            assert(added[k] == production_views(productions@)[
                                                input_len + k]);
                                        }
                                        lemma_added_bound(g, added);
                                        assert(productions@.len() < bound);
                                    }
                                }
                                m = m + 1;
                            }
                        },
                    }
                }
                proof {
                    assert(item_closed(
                        g,
                        production_views(productions@),
                        production_views(cloned_productions@)[i as int],
                    ));
                }
                i = i + 1;
            }
            if productions.len() == before_len {
                proof {
                    assert(production_views(cloned_productions@) =~= production_views(
                        productions@,
                    ));
                    assert forall|k: int|
                        0 <= k < productions@.len() implies item_closed(
                        g,
                        production_views(productions@),
                        (#[trigger] productions@[k])@,
                    ) by {
                        assert(item_closed(
                            g,
                            production_views(productions@),
                            production_views(cloned_productions@)[k],
                        ));
                        assert(production_views(cloned_productions@)[k] == productions@[k]@);
                    }
                }
                done = true;
            }
        }
        productions
    }
}

/// A copy of a string of grammar symbols.
fn clone_symbols_public(v: &Vec<GrammarSymbol>) -> (r: Vec<GrammarSymbol>)
    ensures
        symbol_views(r@) == symbol_views(v@),
{
    let mut out: Vec<GrammarSymbol> = Vec::new();
    let mut i: usize = 0;
    while i < v.len()
        invariant
            i <= v@.len(),
            out@.len() == i,
            forall|j: int| 0 <= j < i ==> (#[trigger] out@[j])@ == v@[j]@,
        decreases v@.len() - i,
    {
        out.push(v[i].clone());
        i = i + 1;
    }
    proof {
        assert(symbol_views(out@) =~= symbol_views(v@));
    }
    out
}

} // verus!
