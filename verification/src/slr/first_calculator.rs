//! An earlier cut of the FIRST-set calculator, kept alongside the later one:
//! it pushes tokens into the memo during the scan of each production instead
//! of collecting them first. The memoization and the fuel discipline are the
//! same; its specs reuse the shared memo model.

use vstd::prelude::*;

use crate::slr::first::spec_assoc_get;
use crate::slr::first::spec_assoc_set;
use crate::slr::first::spec_calc_nullable;
use crate::slr::first::spec_default_fuel;
use crate::slr::first::spec_push_token;
use crate::slr::first::spec_push_tokens;
use crate::slr::first::token_views;
use crate::slr::first::FirstElements;
use crate::slr::first::FirstView;
use crate::slr::grammar::spec_lookup_productions;
use crate::slr::grammar::Grammar;
use crate::slr::grammar::GrammarSymbol;
use crate::slr::grammar::GrammarSymbolView;
use crate::slr::grammar::GrammarView;
use crate::slr::Token;
use crate::slr::TokenView;

verus! {

/// The calculator's memo, as in the later cut.
pub struct First {
    pub(crate) firsts_of_non_terminals: Vec<(String, Vec<Token>)>,
    pub(crate) is_non_terminal_nullable: Vec<(String, bool)>,
}

impl View for First {
    type V = FirstView;

    closed spec fn view(&self) -> FirstView {
        FirstView {
            firsts: Seq::new(
                self.firsts_of_non_terminals@.len(),
                |i: int|
                    (
                        self.firsts_of_non_terminals@[i].0@,
                        token_views(self.firsts_of_non_terminals@[i].1@),
                    ),
            ),
            nullable: Seq::new(
                self.is_non_terminal_nullable@.len(),
                |i: int| (self.is_non_terminal_nullable@[i].0@, self.is_non_terminal_nullable@[i].1),
            ),
        }
    }
}

/// The scan of one production's symbols from position `i`: a terminal's
/// token goes straight into the name's memo entry and settles the scan; a
/// non-terminal's memoized set goes in likewise, and the scan goes on only
/// through a nullable name.
pub open spec fn spec_scan_production(
    g: GrammarView,
    st: FirstView,
    name: Seq<char>,
    string: Seq<GrammarSymbolView>,
    i: int,
    fuel: nat,
) -> FirstView
    decreases fuel, 0int, string.len() - i,
{
    if fuel == 0 {
        st
    } else if i < 0 || i >= string.len() {
        st
    } else {
        match string[i] {
            GrammarSymbolView::Terminal(token) => spec_push_token(st, name, token),
            GrammarSymbolView::NonTerminal(inner) => {
                let st1 = if spec_assoc_get(st.firsts, inner, 0) is None {
                    spec_calculate_first_inline(g, st, inner, (fuel - 1) as nat)
                } else {
                    st
                };
                let found = match spec_assoc_get(st1.firsts, inner, 0) {
                    Option::Some(tokens) => tokens,
                    Option::None => Seq::empty(),
                };
                let st2 = spec_push_tokens(st1, name, found, 0);
                if spec_assoc_get(st2.nullable, inner, 0) == Option::Some(true) {
                    spec_scan_production(g, st2, name, string, i + 1, fuel)
                } else {
                    st2
                }
            },
        }
    }
}

/// The scan over `productions[j..]`.
pub open spec fn spec_scan_productions(
    g: GrammarView,
    st: FirstView,
    name: Seq<char>,
    productions: Seq<Seq<GrammarSymbolView>>,
    j: int,
    fuel: nat,
) -> FirstView
    decreases fuel, 1int, productions.len() - j,
{
    if j < 0 || j >= productions.len() {
        st
    } else {
        let st1 = spec_scan_production(g, st, name, productions[j], 0, fuel);
        spec_scan_productions(g, st1, name, productions, j + 1, fuel)
    }
}

/// The memo after this cut computes a name's FIRST set: the name is entered
/// with an empty set, its nullability is computed, and each production's
/// tokens are pushed as the scan finds them.
pub open spec fn spec_calculate_first_inline(
    g: GrammarView,
    st: FirstView,
    name: Seq<char>,
    fuel: nat,
) -> FirstView
    decreases fuel, 2int, 0int,
{
    if fuel == 0 {
        st
    } else {
        let st1 = FirstView {
            firsts: spec_assoc_set(st.firsts, name, Seq::empty(), 0),
            nullable: st.nullable,
        };
        let st2 = spec_calc_nullable(g, st1, name, (fuel - 1) as nat);
        match spec_lookup_productions(g.productions, name, 0) {
            Option::None => st2,
            Option::Some(productions) => spec_scan_productions(
                g,
                st2,
                name,
                productions,
                0,
                (fuel - 1) as nat,
            ),
        }
    }
}

/// The FIRST set of a name, computed by this cut from a fresh memo.
pub open spec fn spec_get_first_inline(g: GrammarView, name: Seq<char>) -> crate::slr::first::FirstElementsView {
    let empty = FirstView { firsts: Seq::empty(), nullable: Seq::empty() };
    let st = spec_calculate_first_inline(g, empty, name, spec_default_fuel(g));
    crate::slr::first::FirstElementsView {
        empty_set: (spec_assoc_get(st.nullable, name, 0) == Option::Some(true)),
        tokens: match spec_assoc_get(st.firsts, name, 0) {
            Option::Some(tokens) => tokens,
            Option::None => Seq::empty(),
        },
    }
}

impl First {
    /// The FIRST set of a non-terminal, computed from a fresh memo.
    pub fn get_first(grammar: &Grammar, non_terminal: &str) -> (r: FirstElements)
        ensures
            r@ == spec_get_first_inline(grammar@, non_terminal@),
    {
        let mut first = First {
            firsts_of_non_terminals: Vec::new(),
            is_non_terminal_nullable: Vec::new(),
        };
        proof {
            assert(first@.firsts =~= Seq::<(Seq<char>, Seq<TokenView>)>::empty());
            assert(first@.nullable =~= Seq::<(Seq<char>, bool)>::empty());
        }
        first.calculate_first(grammar, non_terminal);

        let tokens = match first.find_first_entry(non_terminal) {
            Some(tokens) => crate::slr::first::clone_tokens(tokens),
            None => Vec::new(),
        };
        let empty_set = match first.find_nullable_entry(non_terminal) {
            Some(is_nullable) => is_nullable,
            None => false,
        };
        proof {
            if spec_assoc_get(first@.firsts, non_terminal@, 0) is None {
                assert(token_views(tokens@) =~= Seq::<TokenView>::empty());
            }
        }
        FirstElements { empty_set, tokens }
    }

    /// Computes and memoizes the FIRST set of a non-terminal.
    pub fn calculate_first(&mut self, grammar: &Grammar, non_terminal: &str)
        ensures
            final(self)@ == spec_calculate_first_inline(
                grammar@,
                old(self)@,
                non_terminal@,
                spec_default_fuel(grammar@),
            ),
    {
        let fuel = crate::slr::first::First::public_fuel(grammar);
        self.calculate_first_fueled(grammar, non_terminal, fuel);
    }

    /// Computes and memoizes whether a non-terminal can derive the empty
    /// string.
    pub fn calculate_if_non_terminal_is_nullable(&mut self, grammar: &Grammar, non_terminal: &str)
        ensures
            final(self)@ == spec_calc_nullable(
                grammar@,
                old(self)@,
                non_terminal@,
                spec_default_fuel(grammar@),
            ),
    {
        let fuel = crate::slr::first::First::public_fuel(grammar);
        self.calc_nullable_fueled(grammar, non_terminal, fuel);
    }

    /// Appends a token to a name's memoized FIRST set, when the memo has one.
    pub fn add_token(&mut self, non_terminal: &str, token: &Token)
        ensures
            final(self)@ == spec_push_token(old(self)@, non_terminal@, token@),
    {
        let ghost entries = self@.firsts;
        let key: String = non_terminal.to_owned();
        let mut i: usize = 0;
        while i < self.firsts_of_non_terminals.len()
            invariant
                i <= self.firsts_of_non_terminals@.len(),
                key@ == non_terminal@,
                self@ == old(self)@,
                entries == old(self)@.firsts,
                forall|k: int| 0 <= k < i ==> (#[trigger] entries[k]).0 != non_terminal@,
            decreases self.firsts_of_non_terminals@.len() - i,
        {
            if self.firsts_of_non_terminals[i].0.eq(&key) {
                proof {
                    crate::slr::first::lemma_assoc_get_skip(entries, non_terminal@, i as int);
                    crate::slr::first::lemma_assoc_set_skip(
                        entries,
                        non_terminal@,
                        entries[i as int].1.push(token@),
                        i as int,
                    );
                }
                self.firsts_of_non_terminals[i].1.push(token.clone());
                proof {
                    assert(self@.firsts =~~= spec_assoc_set(
                        entries,
                        non_terminal@,
                        entries[i as int].1.push(token@),
                        i as int,
                    ));
                    assert(self@.nullable =~~= old(self)@.nullable);
                }
                return ;
            }
            i = i + 1;
        }
        proof {
            crate::slr::first::lemma_assoc_get_skip(entries, non_terminal@, entries.len() as int);
        }
    }

    /// The memoized FIRST tokens of a name, if computed already.
    fn find_first_entry(&self, name: &str) -> (r: Option<&Vec<Token>>)
        ensures
            match r {
                Option::Some(tokens) => spec_assoc_get(self@.firsts, name@, 0) == Option::Some(
                    token_views(tokens@),
                ),
                Option::None => spec_assoc_get(self@.firsts, name@, 0) is None,
            },
    {
        let key: String = name.to_owned();
        let mut i: usize = 0;
        while i < self.firsts_of_non_terminals.len()
            invariant
                i <= self.firsts_of_non_terminals@.len(),
                key@ == name@,
                spec_assoc_get(self@.firsts, name@, 0) == spec_assoc_get(
                    self@.firsts,
                    name@,
                    i as int,
                ),
            decreases self.firsts_of_non_terminals@.len() - i,
        {
            if self.firsts_of_non_terminals[i].0.eq(&key) {
                return Some(&self.firsts_of_non_terminals[i].1);
            }
            i = i + 1;
        }
        None
    }

    /// The memoized nullability of a name, if computed already.
    fn find_nullable_entry(&self, name: &str) -> (r: Option<bool>)
        ensures
            r == spec_assoc_get(self@.nullable, name@, 0),
    {
        let key: String = name.to_owned();
        let mut i: usize = 0;
        while i < self.is_non_terminal_nullable.len()
            invariant
                i <= self.is_non_terminal_nullable@.len(),
                key@ == name@,
                spec_assoc_get(self@.nullable, name@, 0) == spec_assoc_get(
                    self@.nullable,
                    name@,
                    i as int,
                ),
            decreases self.is_non_terminal_nullable@.len() - i,
        {
            if self.is_non_terminal_nullable[i].0.eq(&key) {
                return Some(self.is_non_terminal_nullable[i].1);
            }
            i = i + 1;
        }
        None
    }

    /// Binds a name's FIRST tokens in the memo.
    fn set_first_entry(&mut self, name: &str, value: Vec<Token>)
        ensures
            final(self)@.firsts == spec_assoc_set(
                old(self)@.firsts,
                name@,
                token_views(value@),
                0,
            ),
            final(self)@.nullable == old(self)@.nullable,
    {
        let ghost entries = self@.firsts;
        let ghost vv = token_views(value@);
        let key: String = name.to_owned();
        let mut i: usize = 0;
        while i < self.firsts_of_non_terminals.len()
            invariant
                i <= self.firsts_of_non_terminals@.len(),
                key@ == name@,
                self@ == old(self)@,
                entries == old(self)@.firsts,
                vv == token_views(value@),
                forall|k: int| 0 <= k < i ==> (#[trigger] entries[k]).0 != name@,
            decreases self.firsts_of_non_terminals@.len() - i,
        {
            if self.firsts_of_non_terminals[i].0.eq(&key) {
                proof {
                    crate::slr::first::lemma_assoc_set_skip(entries, name@, vv, i as int);
                }
                self.firsts_of_non_terminals[i].1 = value;
                proof {
                    assert(self@.firsts =~~= spec_assoc_set(entries, name@, vv, i as int));
                    assert(self@.nullable =~~= old(self)@.nullable);
                }
                return ;
            }
            i = i + 1;
        }
        proof {
            crate::slr::first::lemma_assoc_set_skip(entries, name@, vv, entries.len() as int);
        }
        self.firsts_of_non_terminals.push((key, value));
        proof {
            assert(self@.firsts =~~= entries.push((name@, vv)));
            assert(self@.nullable =~~= old(self)@.nullable);
        }
    }

    /// Binds a name's nullability in the memo.
    fn set_nullable_entry(&mut self, name: &str, value: bool)
        ensures
            final(self)@.nullable == spec_assoc_set(old(self)@.nullable, name@, value, 0),
            final(self)@.firsts == old(self)@.firsts,
    {
        let ghost entries = self@.nullable;
        let key: String = name.to_owned();
        let mut i: usize = 0;
        while i < self.is_non_terminal_nullable.len()
            invariant
                i <= self.is_non_terminal_nullable@.len(),
                key@ == name@,
                self@ == old(self)@,
                entries == old(self)@.nullable,
                forall|k: int| 0 <= k < i ==> (#[trigger] entries[k]).0 != name@,
            decreases self.is_non_terminal_nullable@.len() - i,
        {
            if self.is_non_terminal_nullable[i].0.eq(&key) {
                proof {
                    crate::slr::first::lemma_assoc_set_skip(entries, name@, value, i as int);
                }
                self.is_non_terminal_nullable[i].1 = value;
                proof {
                    assert(self@.nullable =~~= spec_assoc_set(entries, name@, value, i as int));
                    assert(self@.firsts =~~= old(self)@.firsts);
                }
                return ;
            }
            i = i + 1;
        }
        proof {
            crate::slr::first::lemma_assoc_set_skip(entries, name@, value, entries.len() as int);
        }
        self.is_non_terminal_nullable.push((key, value));
        proof {
            assert(self@.nullable =~~= entries.push((name@, value)));
            assert(self@.firsts =~~= old(self)@.firsts);
        }
    }

    fn calculate_first_fueled(&mut self, grammar: &Grammar, non_terminal: &str, fuel: usize)
        ensures
            final(self)@ == spec_calculate_first_inline(
                grammar@,
                old(self)@,
                non_terminal@,
                fuel as nat,
            ),
        decreases fuel, 4int,
    {
        if fuel == 0 {
            return ;
        }
        let fresh: Vec<Token> = Vec::new();
        proof {
            assert(token_views(fresh@) =~= Seq::<TokenView>::empty());
        }
        self.set_first_entry(non_terminal, fresh);
        self.calc_nullable_fueled(grammar, non_terminal, fuel - 1);
        let productions = match grammar.find_productions(non_terminal) {
            Some(productions) => productions,
            None => {
                return ;
            },
        };
        let ghost prods = crate::slr::grammar::production_list_views(productions@);
        let mut j: usize = 0;
        while j < productions.len()
            invariant
                j <= productions@.len(),
                prods == crate::slr::grammar::production_list_views(productions@),
                fuel >= 1,
                spec_calculate_first_inline(grammar@, old(self)@, non_terminal@, fuel as nat)
                    == spec_scan_productions(
                    grammar@,
                    self@,
                    non_terminal@,
                    prods,
                    j as int,
                    (fuel - 1) as nat,
                ),
            decreases productions@.len() - j,
        {
            proof {
                assert(prods[j as int] == crate::slr::grammar::symbol_views(
                    productions@[j as int]@,
                ));
            }
            self.scan_production_fueled(grammar, non_terminal, &productions[j], fuel - 1);
            j = j + 1;
        }
    }

    /// The scan of one production, pushing what it finds into the memo.
    fn scan_production_fueled(
        &mut self,
        grammar: &Grammar,
        non_terminal: &str,
        production: &Vec<GrammarSymbol>,
        fuel: usize,
    )
        ensures
            final(self)@ == spec_scan_production(
                grammar@,
                old(self)@,
                non_terminal@,
                crate::slr::grammar::symbol_views(production@),
                0,
                fuel as nat,
            ),
        decreases fuel, 3int,
    {
        let ghost sv = crate::slr::grammar::symbol_views(production@);
        if fuel == 0 {
            return ;
        }
        let mut i: usize = 0;
        while i < production.len()
            invariant
                i <= production@.len(),
                fuel >= 1,
                sv == crate::slr::grammar::symbol_views(production@),
                spec_scan_production(grammar@, old(self)@, non_terminal@, sv, 0, fuel as nat)
                    == spec_scan_production(grammar@, self@, non_terminal@, sv, i as int, fuel as nat),
            decreases production@.len() - i,
        {
            proof {
                assert(sv[i as int] == production@[i as int]@);
            }
            match &production[i] {
                GrammarSymbol::Terminal(token) => {
                    self.add_token(non_terminal, token);
                    return ;
                },
                GrammarSymbol::NonTerminal(name) => {
                    let ghost st_loop = self@;
                    let missing = match self.find_first_entry(name.as_str()) {
                        Some(_) => false,
                        None => true,
                    };
                    if missing {
                        self.calculate_first_fueled(grammar, name.as_str(), fuel - 1);
                    }
                    let ghost st1 = self@;
                    let found = match self.find_first_entry(name.as_str()) {
                        Some(terminals) => crate::slr::first::clone_tokens(terminals),
                        None => Vec::new(),
                    };
                    proof {
                        if spec_assoc_get(self@.firsts, name@, 0) is None {
                            assert(token_views(found@) =~= Seq::<TokenView>::empty());
                        }
                    }
                    let mut k: usize = 0;
                    while k < found.len()
                        invariant
                            k <= found@.len(),
                            spec_push_tokens(st1, non_terminal@, token_views(found@), 0)
                                == spec_push_tokens(
                                self@,
                                non_terminal@,
                                token_views(found@),
                                k as int,
                            ),
                        decreases found@.len() - k,
                    {
                        proof {
                            assert(token_views(found@)[k as int] == found@[k as int]@);
                        }
                        self.add_token(non_terminal, &found[k]);
                        k = k + 1;
                    }
                    let keep_scanning = match self.find_nullable_entry(name.as_str()) {
                        Some(is_nullable) => is_nullable,
                        None => false,
                    };
                    if !keep_scanning {
                        return ;
                    }
                },
            }
            i = i + 1;
        }
    }

    fn calc_nullable_fueled(&mut self, grammar: &Grammar, non_terminal: &str, fuel: usize)
        ensures
            final(self)@ == spec_calc_nullable(grammar@, old(self)@, non_terminal@, fuel as nat),
        decreases fuel, 2int,
    {
        if fuel == 0 {
            return ;
        }
        self.set_nullable_entry(non_terminal, false);
        let productions = match grammar.find_productions(non_terminal) {
            Some(productions) => productions,
            None => {
                return ;
            },
        };
        let ghost prods = crate::slr::grammar::production_list_views(productions@);
        let mut j: usize = 0;
        while j < productions.len()
            invariant
                j <= productions@.len(),
                prods == crate::slr::grammar::production_list_views(productions@),
                fuel >= 1,
                crate::slr::first::spec_calc_nullable(
                    grammar@,
                    old(self)@,
                    non_terminal@,
                    fuel as nat,
                ) == crate::slr::first::spec_calc_nullable_productions(
                    grammar@,
                    self@,
                    non_terminal@,
                    prods,
                    j as int,
                    (fuel - 1) as nat,
                ),
            decreases productions@.len() - j,
        {
            let ghost st_loop = self@;
            let is_production_nullable = self.nullability_for_string_fueled(
                grammar,
                &productions[j],
                fuel - 1,
            );
            proof {
                assert(prods[j as int] == crate::slr::grammar::symbol_views(
                    productions@[j as int]@,
                ));
                assert((self@, is_production_nullable)
                    == crate::slr::first::spec_nullability_for_string(
                    grammar@,
                    st_loop,
                    prods[j as int],
                    0,
                    (fuel - 1) as nat,
                ));
            }
            if is_production_nullable {
                self.set_nullable_entry(non_terminal, true);
                return ;
            }
            j = j + 1;
        }
        self.set_nullable_entry(non_terminal, false);
    }

    fn nullability_for_string_fueled(
        &mut self,
        grammar: &Grammar,
        string: &Vec<GrammarSymbol>,
        fuel: usize,
    ) -> (r: bool)
        ensures
            (final(self)@, r) == crate::slr::first::spec_nullability_for_string(
                grammar@,
                old(self)@,
                crate::slr::grammar::symbol_views(string@),
                0,
                fuel as nat,
            ),
        decreases fuel, 1int,
    {
        let ghost sv = crate::slr::grammar::symbol_views(string@);
        if fuel == 0 {
            return false;
        }
        let mut i: usize = 0;
        while i < string.len()
            invariant
                i <= string@.len(),
                fuel >= 1,
                sv == crate::slr::grammar::symbol_views(string@),
                crate::slr::first::spec_nullability_for_string(
                    grammar@,
                    old(self)@,
                    sv,
                    0,
                    fuel as nat,
                ) == crate::slr::first::spec_nullability_for_string(
                    grammar@,
                    self@,
                    sv,
                    i as int,
                    fuel as nat,
                ),
            decreases string@.len() - i,
        {
            match &string[i] {
                GrammarSymbol::Terminal(_) => {
                    return false;
                },
                GrammarSymbol::NonTerminal(name) => {
                    let ghost st_loop = self@;
                    proof {
                        assert(sv[i as int] == GrammarSymbolView::NonTerminal(name@));
                    }
                    let missing = match self.find_nullable_entry(name.as_str()) {
                        Some(_) => false,
                        None => true,
                    };
                    if missing {
                        self.calc_nullable_fueled(grammar, name.as_str(), fuel - 1);
                    }
                    let ghost st1 = self@;
                    proof {
                        assert(st1 == (if spec_assoc_get(st_loop.nullable, name@, 0) is None {
                            spec_calc_nullable(grammar@, st_loop, name@, (fuel - 1) as nat)
                        } else {
                            st_loop
                        }));
                    }
                    let is_nullable = match self.find_nullable_entry(name.as_str()) {
                        Some(is_nullable) => is_nullable,
                        None => false,
                    };
                    proof {
                        assert(is_nullable == (spec_assoc_get(st1.nullable, name@, 0)
                            == Option::Some(true)));
                    }
                    if !is_nullable {
                        return false;
                    }
                    return self.nullability_from(grammar, string, i + 1, fuel - 1);
                },
            }
        }
        true
    }

    fn nullability_from(
        &mut self,
        grammar: &Grammar,
        string: &Vec<GrammarSymbol>,
        start: usize,
        fuel: usize,
    ) -> (r: bool)
        ensures
            (final(self)@, r) == crate::slr::first::spec_nullability_for_string(
                grammar@,
                old(self)@,
                crate::slr::grammar::symbol_views(string@),
                start as int,
                fuel as nat,
            ),
        decreases fuel, 1int,
    {
        let ghost sv = crate::slr::grammar::symbol_views(string@);
        if fuel == 0 {
            return false;
        }
        let mut i: usize = start;
        while i < string.len()
            invariant
                start <= i <= string@.len() || (start > string@.len() && i == start),
                fuel >= 1,
                sv == crate::slr::grammar::symbol_views(string@),
                crate::slr::first::spec_nullability_for_string(
                    grammar@,
                    old(self)@,
                    sv,
                    start as int,
                    fuel as nat,
                ) == crate::slr::first::spec_nullability_for_string(
                    grammar@,
                    self@,
                    sv,
                    i as int,
                    fuel as nat,
                ),
            decreases string@.len() - i,
        {
            match &string[i] {
                GrammarSymbol::Terminal(_) => {
                    return false;
                },
                GrammarSymbol::NonTerminal(name) => {
                    let ghost st_loop = self@;
                    proof {
                        assert(sv[i as int] == GrammarSymbolView::NonTerminal(name@));
                    }
                    let missing = match self.find_nullable_entry(name.as_str()) {
                        Some(_) => false,
                        None => true,
                    };
                    if missing {
                        self.calc_nullable_fueled(grammar, name.as_str(), fuel - 1);
                    }
                    let ghost st1 = self@;
                    proof {
                        assert(st1 == (if spec_assoc_get(st_loop.nullable, name@, 0) is None {
                            spec_calc_nullable(grammar@, st_loop, name@, (fuel - 1) as nat)
                        } else {
                            st_loop
                        }));
                    }
                    let is_nullable = match self.find_nullable_entry(name.as_str()) {
                        Some(is_nullable) => is_nullable,
                        None => false,
                    };
                    proof {
                        assert(is_nullable == (spec_assoc_get(st1.nullable, name@, 0)
                            == Option::Some(true)));
                    }
                    if !is_nullable {
                        return false;
                    }
                    return self.nullability_from(grammar, string, i + 1, fuel - 1);
                },
            }
        }
        true
    }
}

} // verus!
