//! The grammar of the SLR exercise: symbols, the keyed production store, and
//! the hand-built SLR action and goto tables over the four-symbol arithmetic
//! grammar.

use vstd::prelude::*;

use vstd::pervasive::unreached;

use crate::slr::AstOperation;
use crate::slr::Reaction;
use crate::slr::ReactionView;
use crate::slr::Reduction;
use crate::slr::ReductionView;
use crate::slr::Token;
use crate::slr::TokenView;

verus! {

/// A terminal token or a named non-terminal.
#[derive(Debug)]
pub enum GrammarSymbol {
    NonTerminal(String),
    Terminal(Token),
}

/// The mathematical value of a grammar symbol.
pub enum GrammarSymbolView {
    NonTerminal(Seq<char>),
    Terminal(TokenView),
}

impl View for GrammarSymbol {
    type V = GrammarSymbolView;

    open spec fn view(&self) -> GrammarSymbolView {
        match self {
            GrammarSymbol::NonTerminal(name) => GrammarSymbolView::NonTerminal(name@),
            GrammarSymbol::Terminal(token) => GrammarSymbolView::Terminal(token@),
        }
    }
}

impl GrammarSymbol {
    pub fn non_terminal(non_terminal: &str) -> (r: GrammarSymbol)
        ensures
            r@ == GrammarSymbolView::NonTerminal(non_terminal@),
    {
        GrammarSymbol::NonTerminal(non_terminal.to_owned())
    }

    pub fn terminal(token: Token) -> (r: GrammarSymbol)
        ensures
            r@ == GrammarSymbolView::Terminal(token@),
    {
        GrammarSymbol::Terminal(token)
    }
}

impl Clone for GrammarSymbol {
    fn clone(&self) -> (r: GrammarSymbol)
        ensures
            r@ == self@,
    {
        match self {
            GrammarSymbol::NonTerminal(name) => GrammarSymbol::NonTerminal(name.clone()),
            GrammarSymbol::Terminal(token) => GrammarSymbol::Terminal(token.clone()),
        }
    }
}

impl PartialEq for GrammarSymbol {
    fn eq(&self, other: &GrammarSymbol) -> (r: bool) {
        match (self, other) {
            (GrammarSymbol::NonTerminal(a), GrammarSymbol::NonTerminal(b)) => a.eq(b),
            (GrammarSymbol::Terminal(a), GrammarSymbol::Terminal(b)) => a == b,
            _ => false,
        }
    }
}

impl vstd::std_specs::cmp::PartialEqSpecImpl for GrammarSymbol {
    open spec fn obeys_eq_spec() -> bool {
        true
    }

    open spec fn eq_spec(&self, other: &GrammarSymbol) -> bool {
        match (self@, other@) {
            (GrammarSymbolView::NonTerminal(a), GrammarSymbolView::NonTerminal(b)) => a == b,
            (GrammarSymbolView::Terminal(a), GrammarSymbolView::Terminal(b)) => a.value == b.value
                && a.is_end_symbol == b.is_end_symbol,
            _ => false,
        }
    }
}

/// The values of a string of grammar symbols.
pub open spec fn symbol_views(symbols: Seq<GrammarSymbol>) -> Seq<GrammarSymbolView> {
    Seq::new(symbols.len(), |i: int| symbols[i]@)
}

/// The values of a list of productions.
pub open spec fn production_list_views(productions: Seq<Vec<GrammarSymbol>>) -> Seq<
    Seq<GrammarSymbolView>,
> {
    Seq::new(productions.len(), |i: int| symbol_views(productions[i]@))
}

/// The mathematical value of the grammar: its keyed production store and the
/// two distinguished names.
pub struct GrammarView {
    pub productions: Seq<(Seq<char>, Seq<Seq<GrammarSymbolView>>)>,
    pub starting_state: usize,
    pub starting_non_terminal: Seq<char>,
    pub end_token: Seq<char>,
}

/// A production store with one more production filed under `name`: appended
/// to the first entry of that name, or as a fresh entry at the end.
pub open spec fn spec_add_production(
    store: Seq<(Seq<char>, Seq<Seq<GrammarSymbolView>>)>,
    name: Seq<char>,
    production: Seq<GrammarSymbolView>,
    i: int,
) -> Seq<(Seq<char>, Seq<Seq<GrammarSymbolView>>)>
    decreases store.len() - i,
{
    if i < 0 || i >= store.len() {
        store.push((name, seq![production]))
    } else if store[i].0 == name {
        store.update(i, (store[i].0, store[i].1.push(production)))
    } else {
        spec_add_production(store, name, production, i + 1)
    }
}

/// The first production list filed under `name`.
pub open spec fn spec_lookup_productions(
    store: Seq<(Seq<char>, Seq<Seq<GrammarSymbolView>>)>,
    name: Seq<char>,
    i: int,
) -> Option<Seq<Seq<GrammarSymbolView>>>
    decreases store.len() - i,
{
    if i < 0 || i >= store.len() {
        Option::None
    } else if store[i].0 == name {
        Option::Some(store[i].1)
    } else {
        spec_lookup_productions(store, name, i + 1)
    }
}

/// The grammar under study.
pub struct Grammar {
    pub(crate) productions: Vec<(String, Vec<Vec<GrammarSymbol>>)>,
    pub starting_state: usize,
    pub(crate) starting_non_terminal: String,
    pub(crate) end_token: String,
}

impl View for Grammar {
    type V = GrammarView;

    closed spec fn view(&self) -> GrammarView {
        GrammarView {
            productions: Seq::new(
                self.productions@.len(),
                |i: int| (self.productions@[i].0@, production_list_views(self.productions@[i].1@)),
            ),
            starting_state: self.starting_state,
            starting_non_terminal: self.starting_non_terminal@,
            end_token: self.end_token@,
        }
    }
}

/// The expression grammar the exercise studies, with `E'` as its fresh start
/// symbol: the production store that the constructor's additions build up.
pub open spec fn slr_expression_grammar() -> GrammarView {
    let s0 = Seq::<(Seq<char>, Seq<Seq<GrammarSymbolView>>)>::empty();
    let s1 = spec_add_production(s0, "E'"@, seq![GrammarSymbolView::NonTerminal("E"@)], 0);
    let s2 = spec_add_production(
        s1,
        "E"@,
        seq![
            GrammarSymbolView::NonTerminal("E"@),
            GrammarSymbolView::Terminal((TokenView { value: "Plus"@, is_end_symbol: false })),
            GrammarSymbolView::NonTerminal("T"@),
        ],
        0,
    );
    let s3 = spec_add_production(s2, "E"@, seq![GrammarSymbolView::NonTerminal("T"@)], 0);
    let s4 = spec_add_production(
        s3,
        "T"@,
        seq![
            GrammarSymbolView::NonTerminal("T"@),
            GrammarSymbolView::Terminal((TokenView { value: "Times"@, is_end_symbol: false })),
            GrammarSymbolView::NonTerminal("F"@),
        ],
        0,
    );
    let s5 = spec_add_production(s4, "T"@, seq![GrammarSymbolView::NonTerminal("F"@)], 0);
    let s6 = spec_add_production(
        s5,
        "F"@,
        seq![
            GrammarSymbolView::Terminal((TokenView { value: "OpeningBracket"@, is_end_symbol: false })),
            GrammarSymbolView::NonTerminal("E"@),
            GrammarSymbolView::Terminal((TokenView { value: "ClosingBracket"@, is_end_symbol: false })),
        ],
        0,
    );
    let s7 = spec_add_production(s6, "F"@, seq![GrammarSymbolView::Terminal((TokenView { value: "Id"@, is_end_symbol: false }))], 0);
    GrammarView {
        productions: s7,
        starting_state: 0,
        starting_non_terminal: "E'"@,
        end_token: "EndSymbol"@,
    }
}

/// The values of an SLR action table.
pub open spec fn action_table_views(table: Seq<Vec<(Token, Reaction)>>) -> Seq<
    Seq<(Seq<char>, ReactionView)>,
> {
    Seq::new(
        table.len(),
        |i: int|
            Seq::new(table[i]@.len(), |j: int| (table[i]@[j].0@.value, table[i]@[j].1@)),
    )
}

/// The values of a goto table.
pub open spec fn goto_table_views(table: Seq<Vec<(String, usize)>>) -> Seq<Seq<(Seq<char>, usize)>> {
    Seq::new(
        table.len(),
        |i: int| Seq::new(table[i]@.len(), |j: int| (table[i]@[j].0@, table[i]@[j].1)),
    )
}

/// The hand-built SLR action table of the expression grammar.
pub open spec fn slr_action_table() -> Seq<Seq<(Seq<char>, ReactionView)>> {
    seq![
        seq![
            ("Id"@ , ReactionView::ShiftTo(5)),
            ("OpeningBracket"@ , ReactionView::ShiftTo(4))
        ],
        seq![
            ("Plus"@ , ReactionView::ShiftTo(6)),
            ("EndSymbol"@ , ReactionView::Accept)
        ],
        seq![
            ("Plus"@ , ReactionView::Reduce(ReductionView { non_terminal: "E"@, amount_of_elements_on_stack: 1, ast_function: AstOperation::Nothing })),
            ("Times"@ , ReactionView::ShiftTo(7)),
            ("ClosingBracket"@ , ReactionView::Reduce(ReductionView { non_terminal: "E"@, amount_of_elements_on_stack: 1, ast_function: AstOperation::Nothing })),
            ("EndSymbol"@ , ReactionView::Reduce(ReductionView { non_terminal: "E"@, amount_of_elements_on_stack: 1, ast_function: AstOperation::Nothing }))
        ],
        seq![
            ("Plus"@ , ReactionView::Reduce(ReductionView { non_terminal: "T"@, amount_of_elements_on_stack: 1, ast_function: AstOperation::Nothing })),
            ("Times"@ , ReactionView::Reduce(ReductionView { non_terminal: "T"@, amount_of_elements_on_stack: 1, ast_function: AstOperation::Nothing })),
            ("ClosingBracket"@ , ReactionView::Reduce(ReductionView { non_terminal: "T"@, amount_of_elements_on_stack: 1, ast_function: AstOperation::Nothing })),
            ("EndSymbol"@ , ReactionView::Reduce(ReductionView { non_terminal: "T"@, amount_of_elements_on_stack: 1, ast_function: AstOperation::Nothing }))
        ],
        seq![
            ("Id"@ , ReactionView::ShiftTo(5)),
            ("OpeningBracket"@ , ReactionView::ShiftTo(4))
        ],
        seq![
            ("Plus"@ , ReactionView::Reduce(ReductionView { non_terminal: "F"@, amount_of_elements_on_stack: 1, ast_function: AstOperation::CreateNumber })),
            ("Times"@ , ReactionView::Reduce(ReductionView { non_terminal: "F"@, amount_of_elements_on_stack: 1, ast_function: AstOperation::CreateNumber })),
            ("ClosingBracket"@ , ReactionView::Reduce(ReductionView { non_terminal: "F"@, amount_of_elements_on_stack: 1, ast_function: AstOperation::CreateNumber })),
            ("EndSymbol"@ , ReactionView::Reduce(ReductionView { non_terminal: "F"@, amount_of_elements_on_stack: 1, ast_function: AstOperation::CreateNumber }))
        ],
        seq![
            ("Id"@ , ReactionView::ShiftTo(5)),
            ("OpeningBracket"@ , ReactionView::ShiftTo(4))
        ],
        seq![
            ("Id"@ , ReactionView::ShiftTo(5)),
            ("OpeningBracket"@ , ReactionView::ShiftTo(4))
        ],
        seq![
            ("Plus"@ , ReactionView::ShiftTo(6)),
            ("ClosingBracket"@ , ReactionView::ShiftTo(11))
        ],
        seq![
            ("Plus"@ , ReactionView::Reduce(ReductionView { non_terminal: "E"@, amount_of_elements_on_stack: 3, ast_function: AstOperation::CreateAddition })),
            ("Times"@ , ReactionView::ShiftTo(7)),
            ("ClosingBracket"@ , ReactionView::Reduce(ReductionView { non_terminal: "E"@, amount_of_elements_on_stack: 3, ast_function: AstOperation::CreateAddition })),
            ("EndSymbol"@ , ReactionView::Reduce(ReductionView { non_terminal: "E"@, amount_of_elements_on_stack: 3, ast_function: AstOperation::CreateAddition }))
        ],
        seq![
            ("Plus"@ , ReactionView::Reduce(ReductionView { non_terminal: "T"@, amount_of_elements_on_stack: 3, ast_function: AstOperation::CreateMultiplication })),
            ("Times"@ , ReactionView::Reduce(ReductionView { non_terminal: "T"@, amount_of_elements_on_stack: 3, ast_function: AstOperation::CreateMultiplication })),
            ("ClosingBracket"@ , ReactionView::Reduce(ReductionView { non_terminal: "T"@, amount_of_elements_on_stack: 3, ast_function: AstOperation::CreateMultiplication })),
            ("EndSymbol"@ , ReactionView::Reduce(ReductionView { non_terminal: "T"@, amount_of_elements_on_stack: 3, ast_function: AstOperation::CreateMultiplication }))
        ],
        seq![
            ("Plus"@ , ReactionView::Reduce(ReductionView { non_terminal: "F"@, amount_of_elements_on_stack: 3, ast_function: AstOperation::CreateCalculation })),
            ("Times"@ , ReactionView::Reduce(ReductionView { non_terminal: "F"@, amount_of_elements_on_stack: 3, ast_function: AstOperation::CreateCalculation })),
            ("ClosingBracket"@ , ReactionView::Reduce(ReductionView { non_terminal: "F"@, amount_of_elements_on_stack: 3, ast_function: AstOperation::CreateCalculation })),
            ("EndSymbol"@ , ReactionView::Reduce(ReductionView { non_terminal: "F"@, amount_of_elements_on_stack: 3, ast_function: AstOperation::CreateCalculation }))
        ]
    ]
}

/// The hand-built goto table of the expression grammar.
pub open spec fn slr_goto_table() -> Seq<Seq<(Seq<char>, usize)>> {
    seq![
        seq![("E"@ , 1usize), ("T"@ , 2usize), ("F"@ , 3usize)],
        Seq::<(Seq<char>, usize)>::empty(),
        Seq::<(Seq<char>, usize)>::empty(),
        Seq::<(Seq<char>, usize)>::empty(),
        seq![("E"@ , 8usize), ("T"@ , 2usize), ("F"@ , 3usize)],
        Seq::<(Seq<char>, usize)>::empty(),
        seq![("T"@ , 9usize), ("F"@ , 3usize)],
        seq![("F"@ , 10usize)],
        Seq::<(Seq<char>, usize)>::empty(),
        Seq::<(Seq<char>, usize)>::empty(),
        Seq::<(Seq<char>, usize)>::empty(),
        Seq::<(Seq<char>, usize)>::empty()
    ]
}

impl Grammar {
    /// A grammar with nothing in it yet.
    pub fn empty() -> (r: Grammar)
        ensures
            r@.productions == Seq::<(Seq<char>, Seq<Seq<GrammarSymbolView>>)>::empty(),
            r@.starting_state == 0,
            r@.starting_non_terminal == Seq::<char>::empty(),
            r@.end_token == Seq::<char>::empty(),
    {
        let grammar = Grammar {
            end_token: String::new(),
            productions: Vec::new(),
            starting_state: 0,
            starting_non_terminal: String::new(),
        };
        proof {
            assert(grammar@.productions =~= Seq::<(Seq<char>, Seq<Seq<GrammarSymbolView>>)>::empty());
        }
        grammar
    }

    /// The expression grammar the exercise studies.
    pub fn new() -> (r: Grammar)
        ensures
            r@ == slr_expression_grammar(),
    {
        let mut grammar = Grammar::empty();
        grammar.set_end_token("EndSymbol");
        grammar.set_starting_non_terminal("E'");

        let mut p: Vec<GrammarSymbol> = Vec::new();
        p.push(GrammarSymbol::non_terminal("E"));
        proof {
            assert(symbol_views(p@) =~= seq![GrammarSymbolView::NonTerminal("E"@)]);
        }
        grammar.add_production("E'", p);

        let mut p: Vec<GrammarSymbol> = Vec::new();
        p.push(GrammarSymbol::non_terminal("E"));
        p.push(GrammarSymbol::terminal(Token::new("Plus")));
        p.push(GrammarSymbol::non_terminal("T"));
        proof {
            assert(symbol_views(p@) =~= seq![
                GrammarSymbolView::NonTerminal("E"@),
                GrammarSymbolView::Terminal((TokenView { value: "Plus"@, is_end_symbol: false })),
                GrammarSymbolView::NonTerminal("T"@),
            ]);
        }
        grammar.add_production("E", p);

        let mut p: Vec<GrammarSymbol> = Vec::new();
        p.push(GrammarSymbol::non_terminal("T"));
        proof {
            assert(symbol_views(p@) =~= seq![GrammarSymbolView::NonTerminal("T"@)]);
        }
        grammar.add_production("E", p);

        let mut p: Vec<GrammarSymbol> = Vec::new();
        p.push(GrammarSymbol::non_terminal("T"));
        p.push(GrammarSymbol::terminal(Token::new("Times")));
        p.push(GrammarSymbol::non_terminal("F"));
        proof {
            assert(symbol_views(p@) =~= seq![
                GrammarSymbolView::NonTerminal("T"@),
                GrammarSymbolView::Terminal((TokenView { value: "Times"@, is_end_symbol: false })),
                GrammarSymbolView::NonTerminal("F"@),
            ]);
        }
        grammar.add_production("T", p);

        let mut p: Vec<GrammarSymbol> = Vec::new();
        p.push(GrammarSymbol::non_terminal("F"));
        proof {
            assert(symbol_views(p@) =~= seq![GrammarSymbolView::NonTerminal("F"@)]);
        }
        grammar.add_production("T", p);

        let mut p: Vec<GrammarSymbol> = Vec::new();
        p.push(GrammarSymbol::terminal(Token::new("OpeningBracket")));
        p.push(GrammarSymbol::non_terminal("E"));
        p.push(GrammarSymbol::terminal(Token::new("ClosingBracket")));
        proof {
            assert(symbol_views(p@) =~= seq![
                GrammarSymbolView::Terminal((TokenView { value: "OpeningBracket"@, is_end_symbol: false })),
                GrammarSymbolView::NonTerminal("E"@),
                GrammarSymbolView::Terminal((TokenView { value: "ClosingBracket"@, is_end_symbol: false })),
            ]);
        }
        grammar.add_production("F", p);

        let mut p: Vec<GrammarSymbol> = Vec::new();
        p.push(GrammarSymbol::terminal(Token::new("Id")));
        proof {
            assert(symbol_views(p@) =~= seq![GrammarSymbolView::Terminal((TokenView { value: "Id"@, is_end_symbol: false }))]);
        }
        grammar.add_production("F", p);

        grammar
    }

    /// Files one more production under a non-terminal.
    pub fn add_production(&mut self, non_terminal: &str, production: Vec<GrammarSymbol>)
        ensures
            final(self)@.productions == spec_add_production(
                old(self)@.productions,
                non_terminal@,
                symbol_views(production@),
                0,
            ),
            final(self)@.starting_state == old(self)@.starting_state,
            final(self)@.starting_non_terminal == old(self)@.starting_non_terminal,
            final(self)@.end_token == old(self)@.end_token,
    {
        let ghost store = self@.productions;
        let name: String = non_terminal.to_owned();
        let mut i: usize = 0;
        while i < self.productions.len()
            invariant
                i <= self.productions@.len(),
                name@ == non_terminal@,
                self@ == old(self)@,
                store == old(self)@.productions,
                spec_add_production(store, non_terminal@, symbol_views(production@), 0)
                    == spec_add_production(store, non_terminal@, symbol_views(production@), i as int),
            decreases self.productions@.len() - i,
        {
            if self.productions[i].0.eq(&name) {
                let ghost pre = self@.productions;
                self.productions[i].1.push(production);
                proof {
                    assert(self@.productions =~~= pre.update(
                        i as int,
                        (pre[i as int].0, pre[i as int].1.push(symbol_views(production@))),
                    ));
                }
                return ;
            }
            i = i + 1;
        }
        let ghost pre = self@.productions;
        self.productions.push((name, vec![production]));
        proof {
            assert(self@.productions =~~= pre.push(
                (non_terminal@, seq![symbol_views(production@)]),
            ));
        }
    }

    pub fn set_starting_non_terminal(&mut self, non_terminal: &str)
        ensures
            final(self)@ == (GrammarView { starting_non_terminal: non_terminal@, ..old(self)@ }),
    {
        self.starting_non_terminal = non_terminal.to_owned();
        proof {
            assert(final(self)@.productions =~= old(self)@.productions);
        }
    }

    pub fn set_end_token(&mut self, end_token: &str)
        ensures
            final(self)@ == (GrammarView { end_token: end_token@, ..old(self)@ }),
    {
        self.end_token = end_token.to_owned();
        proof {
            assert(final(self)@.productions =~= old(self)@.productions);
        }
    }

    /// The production list of a non-terminal, which must have one.
    pub fn get_production(&self, non_terminal: &str) -> (r: &Vec<Vec<GrammarSymbol>>)
        requires
            spec_lookup_productions(self@.productions, non_terminal@, 0) is Some,
        ensures
            production_list_views(r@) == spec_lookup_productions(
                self@.productions,
                non_terminal@,
                0,
            )->Some_0,
    {
        match self.find_productions(non_terminal) {
            Some(productions) => productions,
            None => unreached(),
        }
    }

    /// The production list of a non-terminal, if it has one.
    pub(crate) fn find_productions(&self, non_terminal: &str) -> (r: Option<
        &Vec<Vec<GrammarSymbol>>,
    >)
        ensures
            match r {
                Option::Some(productions) => spec_lookup_productions(
                    self@.productions,
                    non_terminal@,
                    0,
                ) == Option::Some(production_list_views(productions@)),
                Option::None => spec_lookup_productions(self@.productions, non_terminal@, 0)
                    is None,
            },
    {
        let name: String = non_terminal.to_owned();
        let mut i: usize = 0;
        while i < self.productions.len()
            invariant
                i <= self.productions@.len(),
                name@ == non_terminal@,
                spec_lookup_productions(self@.productions, non_terminal@, 0)
                    == spec_lookup_productions(self@.productions, non_terminal@, i as int),
            decreases self.productions@.len() - i,
        {
            if self.productions[i].0.eq(&name) {
                return Some(&self.productions[i].1);
            }
            i = i + 1;
        }
        None
    }

    /// The FIRST set of a non-terminal.
    pub fn get_first(&self, non_terminal: &str) -> (r: crate::slr::first::FirstElements)
        ensures
            r@ == crate::slr::first::spec_get_first(self@, non_terminal@),
    {
        crate::slr::first::First::get_first(self, non_terminal)
    }

    /// How many non-terminals have productions.
    pub(crate) fn production_count(&self) -> (r: usize)
        ensures
            r == self@.productions.len(),
    {
        self.productions.len()
    }

    /// One entry of the production store.
    pub(crate) fn production_entry(&self, e: usize) -> (r: (&String, &Vec<Vec<GrammarSymbol>>))
        requires
            e < self@.productions.len(),
        ensures
            r.0@ == self@.productions[e as int].0,
            production_list_views(r.1@) == self@.productions[e as int].1,
    {
        (&self.productions[e].0, &self.productions[e].1)
    }

    /// The FOLLOW set of a non-terminal.
    pub fn get_follow(&self, non_terminal: &str) -> (r: Vec<Token>)
        ensures
            crate::slr::first::token_views(r@) == crate::slr::follow::spec_get_follow(
                self@,
                non_terminal@,
            ),
    {
        crate::slr::follow::Follow::get_follow(self, non_terminal)
    }

    pub fn get_starting_non_terminal(&self) -> (r: &String)
        ensures
            r@ == self@.starting_non_terminal,
    {
        &self.starting_non_terminal
    }

    pub fn get_end_symbol(&self) -> (r: Token)
        ensures
            r@.value == self@.end_token,
            r@.is_end_symbol == false,
    {
        Token::new(self.end_token.as_str())
    }

    /// The non-terminals that have productions, in insertion order.
    pub fn get_non_terminals(&self) -> (r: Vec<&String>)
        ensures
            r@.len() == self@.productions.len(),
            forall|i: int| 0 <= i < r@.len() ==> (#[trigger] r@[i])@ == self@.productions[i].0,
    {
        let mut result: Vec<&String> = Vec::new();
        let mut i: usize = 0;
        while i < self.productions.len()
            invariant
                i <= self.productions@.len(),
                result@.len() == i,
                forall|j: int| 0 <= j < i ==> (#[trigger] result@[j])@ == self@.productions[j].0,
            decreases self.productions@.len() - i,
        {
            result.push(&self.productions[i].0);
            i = i + 1;
        }
        result
    }

    /// The SLR action table of the expression grammar, one row per state.
    pub fn get_slr_table(&self) -> (r: Vec<Vec<(Token, Reaction)>>)
        ensures
            action_table_views(r@) == slr_action_table(),
    {
    let mut state_0_tokens: Vec<(Token, Reaction)> = Vec::new();
    state_0_tokens.push((Token::new("Id"), Reaction::ShiftTo(5)));
    state_0_tokens.push((Token::new("OpeningBracket"), Reaction::ShiftTo(4)));
    let mut state_1_tokens: Vec<(Token, Reaction)> = Vec::new();
    state_1_tokens.push((Token::new("Plus"), Reaction::ShiftTo(6)));
    state_1_tokens.push((Token::end_token("EndSymbol"), Reaction::Accept));
    let mut state_2_tokens: Vec<(Token, Reaction)> = Vec::new();
    state_2_tokens.push((Token::new("Plus"), Reaction::Reduce(Reduction::new("E", 1))));
    state_2_tokens.push((Token::new("Times"), Reaction::ShiftTo(7)));
    state_2_tokens.push((Token::new("ClosingBracket"), Reaction::Reduce(Reduction::new("E", 1))));
    state_2_tokens.push((Token::end_token("EndSymbol"), Reaction::Reduce(Reduction::new("E", 1))));
    let mut state_3_tokens: Vec<(Token, Reaction)> = Vec::new();
    state_3_tokens.push((Token::new("Plus"), Reaction::Reduce(Reduction::new("T", 1))));
    state_3_tokens.push((Token::new("Times"), Reaction::Reduce(Reduction::new("T", 1))));
    state_3_tokens.push((Token::new("ClosingBracket"), Reaction::Reduce(Reduction::new("T", 1))));
    state_3_tokens.push((Token::end_token("EndSymbol"), Reaction::Reduce(Reduction::new("T", 1))));
    let mut state_4_tokens: Vec<(Token, Reaction)> = Vec::new();
    state_4_tokens.push((Token::new("Id"), Reaction::ShiftTo(5)));
    state_4_tokens.push((Token::new("OpeningBracket"), Reaction::ShiftTo(4)));
    let mut state_5_tokens: Vec<(Token, Reaction)> = Vec::new();
    state_5_tokens.push((Token::new("Plus"), Reaction::Reduce(Reduction::with_function("F", 1, AstOperation::CreateNumber))));
    state_5_tokens.push((Token::new("Times"), Reaction::Reduce(Reduction::with_function("F", 1, AstOperation::CreateNumber))));
    state_5_tokens.push((Token::new("ClosingBracket"), Reaction::Reduce(Reduction::with_function("F", 1, AstOperation::CreateNumber))));
    state_5_tokens.push((Token::end_token("EndSymbol"), Reaction::Reduce(Reduction::with_function("F", 1, AstOperation::CreateNumber))));
    let mut state_6_tokens: Vec<(Token, Reaction)> = Vec::new();
    state_6_tokens.push((Token::new("Id"), Reaction::ShiftTo(5)));
    state_6_tokens.push((Token::new("OpeningBracket"), Reaction::ShiftTo(4)));
    let mut state_7_tokens: Vec<(Token, Reaction)> = Vec::new();
    state_7_tokens.push((Token::new("Id"), Reaction::ShiftTo(5)));
    state_7_tokens.push((Token::new("OpeningBracket"), Reaction::ShiftTo(4)));
    let mut state_8_tokens: Vec<(Token, Reaction)> = Vec::new();
    state_8_tokens.push((Token::new("Plus"), Reaction::ShiftTo(6)));
    state_8_tokens.push((Token::new("ClosingBracket"), Reaction::ShiftTo(11)));
    let mut state_9_tokens: Vec<(Token, Reaction)> = Vec::new();
    state_9_tokens.push((Token::new("Plus"), Reaction::Reduce(Reduction::with_function("E", 3, AstOperation::CreateAddition))));
    state_9_tokens.push((Token::new("Times"), Reaction::ShiftTo(7)));
    state_9_tokens.push((Token::new("ClosingBracket"), Reaction::Reduce(Reduction::with_function("E", 3, AstOperation::CreateAddition))));
    state_9_tokens.push((Token::end_token("EndSymbol"), Reaction::Reduce(Reduction::with_function("E", 3, AstOperation::CreateAddition))));
    let mut state_10_tokens: Vec<(Token, Reaction)> = Vec::new();
    state_10_tokens.push((Token::new("Plus"), Reaction::Reduce(Reduction::with_function("T", 3, AstOperation::CreateMultiplication))));
    state_10_tokens.push((Token::new("Times"), Reaction::Reduce(Reduction::with_function("T", 3, AstOperation::CreateMultiplication))));
    state_10_tokens.push((Token::new("ClosingBracket"), Reaction::Reduce(Reduction::with_function("T", 3, AstOperation::CreateMultiplication))));
    state_10_tokens.push((Token::end_token("EndSymbol"), Reaction::Reduce(Reduction::with_function("T", 3, AstOperation::CreateMultiplication))));
    let mut state_11_tokens: Vec<(Token, Reaction)> = Vec::new();
    state_11_tokens.push((Token::new("Plus"), Reaction::Reduce(Reduction::with_function("F", 3, AstOperation::CreateCalculation))));
    state_11_tokens.push((Token::new("Times"), Reaction::Reduce(Reduction::with_function("F", 3, AstOperation::CreateCalculation))));
    state_11_tokens.push((Token::new("ClosingBracket"), Reaction::Reduce(Reduction::with_function("F", 3, AstOperation::CreateCalculation))));
    state_11_tokens.push((Token::end_token("EndSymbol"), Reaction::Reduce(Reduction::with_function("F", 3, AstOperation::CreateCalculation))));
        let mut table: Vec<Vec<(Token, Reaction)>> = Vec::new();
    table.push(state_0_tokens);
    table.push(state_1_tokens);
    table.push(state_2_tokens);
    table.push(state_3_tokens);
    table.push(state_4_tokens);
    table.push(state_5_tokens);
    table.push(state_6_tokens);
    table.push(state_7_tokens);
    table.push(state_8_tokens);
    table.push(state_9_tokens);
    table.push(state_10_tokens);
    table.push(state_11_tokens);
        proof {
            let v = action_table_views(table@);
            let s = slr_action_table();
            assert forall|i: int| 0 <= i < 12 implies v[i] =~= s[i] by {}
            assert(v =~= s);
        }
        table
    }

    /// The goto table of the expression grammar, one row per state.
    pub fn get_goto_table(&self) -> (r: Vec<Vec<(String, usize)>>)
        ensures
            goto_table_views(r@) == slr_goto_table(),
    {
    let mut state_0_goto: Vec<(String, usize)> = Vec::new();
    state_0_goto.push(("E".to_owned(), 1));
    state_0_goto.push(("T".to_owned(), 2));
    state_0_goto.push(("F".to_owned(), 3));
    let mut state_1_goto: Vec<(String, usize)> = Vec::new();
    let mut state_2_goto: Vec<(String, usize)> = Vec::new();
    let mut state_3_goto: Vec<(String, usize)> = Vec::new();
    let mut state_4_goto: Vec<(String, usize)> = Vec::new();
    state_4_goto.push(("E".to_owned(), 8));
    state_4_goto.push(("T".to_owned(), 2));
    state_4_goto.push(("F".to_owned(), 3));
    let mut state_5_goto: Vec<(String, usize)> = Vec::new();
    let mut state_6_goto: Vec<(String, usize)> = Vec::new();
    state_6_goto.push(("T".to_owned(), 9));
    state_6_goto.push(("F".to_owned(), 3));
    let mut state_7_goto: Vec<(String, usize)> = Vec::new();
    state_7_goto.push(("F".to_owned(), 10));
    let mut state_8_goto: Vec<(String, usize)> = Vec::new();
    let mut state_9_goto: Vec<(String, usize)> = Vec::new();
    let mut state_10_goto: Vec<(String, usize)> = Vec::new();
    let mut state_11_goto: Vec<(String, usize)> = Vec::new();
        let mut table: Vec<Vec<(String, usize)>> = Vec::new();
    table.push(state_0_goto);
    table.push(state_1_goto);
    table.push(state_2_goto);
    table.push(state_3_goto);
    table.push(state_4_goto);
    table.push(state_5_goto);
    table.push(state_6_goto);
    table.push(state_7_goto);
    table.push(state_8_goto);
    table.push(state_9_goto);
    table.push(state_10_goto);
    table.push(state_11_goto);
        proof {
            let v = goto_table_views(table@);
            let s = slr_goto_table();
            assert forall|i: int| 0 <= i < 12 implies v[i] =~= s[i] by {}
            assert(v =~= s);
        }
        table
    }
}

} // verus!
