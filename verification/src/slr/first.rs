//! FIRST sets: which tokens can begin a non-terminal's derivations, and
//! whether it can derive the empty string. The calculator memoizes per
//! non-terminal; a name is entered into the memo before its productions are
//! examined, which cuts self-referential loops. Every function carries a fuel
//! bound mirrored exactly by its spec: each public call provides the fuel
//! its contract names, and a walk that ran out of fuel would return the
//! truncated memo its spec gives — the contracts promise no more.

use vstd::prelude::*;

use crate::slr::grammar::spec_lookup_productions;
use crate::slr::grammar::Grammar;
use crate::slr::grammar::GrammarSymbol;
use crate::slr::grammar::GrammarSymbolView;
use crate::slr::grammar::GrammarView;
use crate::slr::Token;
use crate::slr::TokenView;

verus! {

/// The values of a token list.
pub open spec fn token_views(tokens: Seq<Token>) -> Seq<TokenView> {
    Seq::new(tokens.len(), |i: int| tokens[i]@)
}

/// The first value filed under a key in an association list.
pub open spec fn spec_assoc_get<T>(entries: Seq<(Seq<char>, T)>, key: Seq<char>, i: int) -> Option<
    T,
>
    decreases entries.len() - i,
{
    if i < 0 || i >= entries.len() {
        Option::None
    } else if entries[i].0 == key {
        Option::Some(entries[i].1)
    } else {
        spec_assoc_get(entries, key, i + 1)
    }
}

/// The association list with `key` bound to `value`: the first entry of that
/// key replaced, or a fresh entry appended.
pub open spec fn spec_assoc_set<T>(
    entries: Seq<(Seq<char>, T)>,
    key: Seq<char>,
    value: T,
    i: int,
) -> Seq<(Seq<char>, T)>
    decreases entries.len() - i,
{
    if i < 0 || i >= entries.len() {
        entries.push((key, value))
    } else if entries[i].0 == key {
        entries.update(i, (entries[i].0, value))
    } else {
        spec_assoc_set(entries, key, value, i + 1)
    }
}

/// A FIRST set: its tokens, and whether the empty string is derivable.
#[derive(Debug, PartialEq)]
pub struct FirstElements {
    pub empty_set: bool,
    pub tokens: Vec<Token>,
}

/// The mathematical value of a FIRST set.
pub struct FirstElementsView {
    pub empty_set: bool,
    pub tokens: Seq<TokenView>,
}

impl View for FirstElements {
    type V = FirstElementsView;

    open spec fn view(&self) -> FirstElementsView {
        FirstElementsView { empty_set: self.empty_set, tokens: token_views(self.tokens@) }
    }
}

/// The calculator's memo: tokens and nullability already computed per
/// non-terminal.
pub struct First {
    pub(crate) firsts_of_non_terminals: Vec<(String, Vec<Token>)>,
    pub(crate) is_non_terminal_nullable: Vec<(String, bool)>,
}

/// The mathematical value of the memo.
pub struct FirstView {
    pub firsts: Seq<(Seq<char>, Seq<TokenView>)>,
    pub nullable: Seq<(Seq<char>, bool)>,
}

impl View for First {
    type V = FirstView;

    closed spec fn view(&self) -> FirstView {
        FirstView {
            firsts: Seq::new(
                self.firsts_of_non_terminals@.len(),
                |i: int|
                    (
                        self.firsts_of_non_terminals@[i].0@,
                        token_views(self.firsts_of_non_terminals@[i].1@),
                    ),
            ),
            nullable: Seq::new(
                self.is_non_terminal_nullable@.len(),
                |i: int| (self.is_non_terminal_nullable@[i].0@, self.is_non_terminal_nullable@[i].1),
            ),
        }
    }
}

/// A token appended to the memoized FIRST set of a name, when the memo has an
/// entry for it.
pub open spec fn spec_push_token(st: FirstView, name: Seq<char>, token: TokenView) -> FirstView {
    match spec_assoc_get(st.firsts, name, 0) {
        Option::Some(tokens) => FirstView {
            firsts: spec_assoc_set(st.firsts, name, tokens.push(token), 0),
            nullable: st.nullable,
        },
        Option::None => st,
    }
}

/// The tokens of a memoized FIRST set pushed one by one, from index `k`.
pub open spec fn spec_push_tokens(
    st: FirstView,
    name: Seq<char>,
    tokens: Seq<TokenView>,
    k: int,
) -> FirstView
    decreases tokens.len() - k,
{
    if k < 0 || k >= tokens.len() {
        st
    } else {
        spec_push_tokens(spec_push_token(st, name, tokens[k]), name, tokens, k + 1)
    }
}

/// The memo after the nullability of a name is computed: the name is entered
/// as not nullable first, then every production is tried until one derives
/// the empty string.
pub open spec fn spec_calc_nullable(g: GrammarView, st: FirstView, name: Seq<char>, fuel: nat) -> FirstView
    decreases fuel, 2int, 0int,
{
    if fuel == 0 {
        st
    } else {
        let st1 = FirstView {
            firsts: st.firsts,
            nullable: spec_assoc_set(st.nullable, name, false, 0),
        };
        match spec_lookup_productions(g.productions, name, 0) {
            Option::None => st1,
            Option::Some(productions) => spec_calc_nullable_productions(
                g,
                st1,
                name,
                productions,
                0,
                (fuel - 1) as nat,
            ),
        }
    }
}

/// The nullability pass over `productions[j..]`.
pub open spec fn spec_calc_nullable_productions(
    g: GrammarView,
    st: FirstView,
    name: Seq<char>,
    productions: Seq<Seq<GrammarSymbolView>>,
    j: int,
    fuel: nat,
) -> FirstView
    decreases fuel, 1int, productions.len() - j,
{
    if j < 0 || j >= productions.len() {
        FirstView { firsts: st.firsts, nullable: spec_assoc_set(st.nullable, name, false, 0) }
    } else {
        let (st1, is_nullable) = spec_nullability_for_string(g, st, productions[j], 0, fuel);
        if is_nullable {
            FirstView { firsts: st1.firsts, nullable: spec_assoc_set(st1.nullable, name, true, 0) }
        } else {
            spec_calc_nullable_productions(g, st1, name, productions, j + 1, fuel)
        }
    }
}

/// Whether a symbol string derives the empty string, scanning from `i`: a
/// terminal settles it, a non-terminal is computed on demand and must be
/// nullable for the scan to go on.
pub open spec fn spec_nullability_for_string(
    g: GrammarView,
    st: FirstView,
    string: Seq<GrammarSymbolView>,
    i: int,
    fuel: nat,
) -> (FirstView, bool)
    decreases fuel, 0int, string.len() - i,
{
    if fuel == 0 {
        (st, false)
    } else if i < 0 || i >= string.len() {
        (st, true)
    } else {
        match string[i] {
            GrammarSymbolView::Terminal(_) => (st, false),
            GrammarSymbolView::NonTerminal(name) => {
                let st1 = if spec_assoc_get(st.nullable, name, 0) is None {
                    spec_calc_nullable(g, st, name, (fuel - 1) as nat)
                } else {
                    st
                };
                if spec_assoc_get(st1.nullable, name, 0) == Option::Some(true) {
                    spec_nullability_for_string(g, st1, string, i + 1, (fuel - 1) as nat)
                } else {
                    (st1, false)
                }
            },
        }
    }
}

/// The memo after the FIRST set of a name is computed: the name is entered
/// with an empty set first, its nullability is computed, and the tokens each
/// production can begin with are pushed in order.
pub open spec fn spec_calculate_first(g: GrammarView, st: FirstView, name: Seq<char>, fuel: nat) -> FirstView
    decreases fuel, 5int, 0int,
{
    if fuel == 0 {
        st
    } else {
        let st1 = FirstView {
            firsts: spec_assoc_set(st.firsts, name, Seq::empty(), 0),
            nullable: st.nullable,
        };
        let st2 = spec_calc_nullable(g, st1, name, (fuel - 1) as nat);
        match spec_lookup_productions(g.productions, name, 0) {
            Option::None => st2,
            Option::Some(productions) => spec_first_productions(
                g,
                st2,
                name,
                productions,
                0,
                (fuel - 1) as nat,
            ),
        }
    }
}

/// The FIRST pass over `productions[j..]`.
pub open spec fn spec_first_productions(
    g: GrammarView,
    st: FirstView,
    name: Seq<char>,
    productions: Seq<Seq<GrammarSymbolView>>,
    j: int,
    fuel: nat,
) -> FirstView
    decreases fuel, 4int, productions.len() - j,
{
    if j < 0 || j >= productions.len() {
        st
    } else {
        let (st1, pieces) = spec_first_for_string(g, st, productions[j], 0, Seq::empty(), fuel);
        let st2 = spec_push_tokens(st1, name, pieces, 0);
        spec_first_productions(g, st2, name, productions, j + 1, fuel)
    }
}

/// The tokens a symbol string can begin with, scanning from `i` with `tokens`
/// collected: a terminal joins the set and settles it; a non-terminal is
/// computed on demand, its memoized set joins, and the scan goes on only
/// through a nullable name.
pub open spec fn spec_first_for_string(
    g: GrammarView,
    st: FirstView,
    string: Seq<GrammarSymbolView>,
    i: int,
    tokens: Seq<TokenView>,
    fuel: nat,
) -> (FirstView, Seq<TokenView>)
    decreases fuel, 3int, string.len() - i,
{
    if fuel == 0 {
        (st, tokens)
    } else if i < 0 || i >= string.len() {
        (st, tokens)
    } else {
        match string[i] {
            GrammarSymbolView::Terminal(token) => (st, tokens.push(
                TokenView { value: token.value, is_end_symbol: token.is_end_symbol },
            )),
            GrammarSymbolView::NonTerminal(name) => {
                let st1 = if spec_assoc_get(st.firsts, name, 0) is None {
                    spec_calculate_first(g, st, name, (fuel - 1) as nat)
                } else {
                    st
                };
                let found = match spec_assoc_get(st1.firsts, name, 0) {
                    Option::Some(terminals) => terminals,
                    Option::None => Seq::empty(),
                };
                let tokens1 = tokens + found;
                if spec_assoc_get(st1.nullable, name, 0) == Option::Some(true) {
                    spec_first_for_string(g, st1, string, i + 1, tokens1, (fuel - 1) as nat)
                } else {
                    (st1, tokens1)
                }
            },
        }
    }
}

/// The fuel a public call hands to the calculator, in terms of the store's
/// size; the contracts pin results for exactly this fuel.
pub open spec fn spec_default_fuel(g: GrammarView) -> nat {
    if 2 * g.productions.len() + 4 > usize::MAX {
        usize::MAX as nat
    } else {
        (2 * g.productions.len() + 4) as nat
    }
}

/// The FIRST set of a name, computed from a fresh memo.
pub open spec fn spec_get_first(g: GrammarView, name: Seq<char>) -> FirstElementsView {
    let empty = FirstView { firsts: Seq::empty(), nullable: Seq::empty() };
    let st = spec_calculate_first(g, empty, name, spec_default_fuel(g));
    FirstElementsView {
        empty_set: (spec_assoc_get(st.nullable, name, 0) == Option::Some(true)),
        tokens: match spec_assoc_get(st.firsts, name, 0) {
            Option::Some(tokens) => tokens,
            Option::None => Seq::empty(),
        },
    }
}

/// The FIRST set of a symbol string, computed from a fresh memo.
pub open spec fn spec_get_first_for_string(g: GrammarView, string: Seq<GrammarSymbolView>) -> FirstElementsView {
    let empty = FirstView { firsts: Seq::empty(), nullable: Seq::empty() };
    let (st1, tokens) = spec_first_for_string(g, empty, string, 0, Seq::empty(), spec_default_fuel(g));
    let (st2, empty_set) = spec_nullability_for_string(g, st1, string, 0, spec_default_fuel(g));
    FirstElementsView { empty_set, tokens }
}

} // verus!
verus! {

/// Skipping entries whose key differs does not change a lookup.
pub(crate) proof fn lemma_assoc_get_skip<T>(entries: Seq<(Seq<char>, T)>, key: Seq<char>, i: int)
    requires
        0 <= i <= entries.len(),
        forall|k: int| 0 <= k < i ==> (#[trigger] entries[k]).0 != key,
    ensures
        spec_assoc_get(entries, key, 0) == spec_assoc_get(entries, key, i),
    decreases i,
{
    if i > 0 {
        lemma_assoc_get_skip(entries, key, i - 1);
    }
}

/// Skipping entries whose key differs does not change an update.
pub(crate) proof fn lemma_assoc_set_skip<T>(entries: Seq<(Seq<char>, T)>, key: Seq<char>, value: T, i: int)
    requires
        0 <= i <= entries.len(),
        forall|k: int| 0 <= k < i ==> (#[trigger] entries[k]).0 != key,
    ensures
        spec_assoc_set(entries, key, value, 0) == spec_assoc_set(entries, key, value, i),
    decreases i,
{
    if i > 0 {
        lemma_assoc_set_skip(entries, key, value, i - 1);
    }
}

/// A copy of a token list.
pub(crate) fn clone_tokens(v: &Vec<Token>) -> (r: Vec<Token>)
    ensures
        token_views(r@) == token_views(v@),
{
    let mut out: Vec<Token> = Vec::new();
    let mut i: usize = 0;
    while i < v.len()
        invariant
            i <= v@.len(),
            out@.len() == i,
            forall|j: int| 0 <= j < i ==> (#[trigger] out@[j])@ == v@[j]@,
        decreases v@.len() - i,
    {
        out.push(v[i].clone());
        i = i + 1;
    }
    proof {
        assert(token_views(out@) =~= token_views(v@));
    }
    out
}

impl First {
    /// The FIRST set of a non-terminal, computed from a fresh memo.
    pub fn get_first(grammar: &Grammar, non_terminal: &str) -> (r: FirstElements)
        ensures
            r@ == spec_get_first(grammar@, non_terminal@),
    {
        let mut first = First {
            firsts_of_non_terminals: Vec::new(),
            is_non_terminal_nullable: Vec::new(),
        };
        proof {
            assert(first@.firsts =~= Seq::<(Seq<char>, Seq<TokenView>)>::empty());
            assert(first@.nullable =~= Seq::<(Seq<char>, bool)>::empty());
        }
        first.calculate_first(grammar, non_terminal);

        let tokens = match first.find_first_entry(non_terminal) {
            Some(tokens) => clone_tokens(tokens),
            None => Vec::new(),
        };
        let empty_set = match first.find_nullable_entry(non_terminal) {
            Some(is_nullable) => is_nullable,
            None => false,
        };
        proof {
            if spec_assoc_get(first@.firsts, non_terminal@, 0) is None {
                assert(token_views(tokens@) =~= Seq::<TokenView>::empty());
            }
        }
        FirstElements { empty_set, tokens }
    }

    /// The FIRST set of a symbol string, computed from a fresh memo.
    pub fn get_first_for_string(grammar: &Grammar, string: &Vec<GrammarSymbol>) -> (r:
        FirstElements)
        ensures
            r@ == spec_get_first_for_string(grammar@, crate::slr::grammar::symbol_views(string@)),
    {
        let mut first = First {
            firsts_of_non_terminals: Vec::new(),
            is_non_terminal_nullable: Vec::new(),
        };
        proof {
            assert(first@.firsts =~= Seq::<(Seq<char>, Seq<TokenView>)>::empty());
            assert(first@.nullable =~= Seq::<(Seq<char>, bool)>::empty());
        }
        let tokens = first.calculate_first_for_string(grammar, string);
        let empty_set = first.calculate_nullability_for_string(grammar, string);
        FirstElements { empty_set, tokens }
    }

    /// The memoized FIRST tokens of a name, if computed already.
    fn find_first_entry(&self, name: &str) -> (r: Option<&Vec<Token>>)
        ensures
            match r {
                Option::Some(tokens) => spec_assoc_get(self@.firsts, name@, 0) == Option::Some(
                    token_views(tokens@),
                ),
                Option::None => spec_assoc_get(self@.firsts, name@, 0) is None,
            },
    {
        let key: String = name.to_owned();
        let mut i: usize = 0;
        while i < self.firsts_of_non_terminals.len()
            invariant
                i <= self.firsts_of_non_terminals@.len(),
                key@ == name@,
                spec_assoc_get(self@.firsts, name@, 0) == spec_assoc_get(
                    self@.firsts,
                    name@,
                    i as int,
                ),
            decreases self.firsts_of_non_terminals@.len() - i,
        {
            if self.firsts_of_non_terminals[i].0.eq(&key) {
                return Some(&self.firsts_of_non_terminals[i].1);
            }
            i = i + 1;
        }
        None
    }

    /// The memoized nullability of a name, if computed already.
    fn find_nullable_entry(&self, name: &str) -> (r: Option<bool>)
        ensures
            r == spec_assoc_get(self@.nullable, name@, 0),
    {
        let key: String = name.to_owned();
        let mut i: usize = 0;
        while i < self.is_non_terminal_nullable.len()
            invariant
                i <= self.is_non_terminal_nullable@.len(),
                key@ == name@,
                spec_assoc_get(self@.nullable, name@, 0) == spec_assoc_get(
                    self@.nullable,
                    name@,
                    i as int,
                ),
            decreases self.is_non_terminal_nullable@.len() - i,
        {
            if self.is_non_terminal_nullable[i].0.eq(&key) {
                return Some(self.is_non_terminal_nullable[i].1);
            }
            i = i + 1;
        }
        None
    }

    /// Binds a name's FIRST tokens in the memo.
    fn set_first_entry(&mut self, name: &str, value: Vec<Token>)
        ensures
            final(self)@.firsts == spec_assoc_set(
                old(self)@.firsts,
                name@,
                token_views(value@),
                0,
            ),
            final(self)@.nullable == old(self)@.nullable,
    {
        let ghost entries = self@.firsts;
        let ghost vv = token_views(value@);
        let key: String = name.to_owned();
        let mut i: usize = 0;
        while i < self.firsts_of_non_terminals.len()
            invariant
                i <= self.firsts_of_non_terminals@.len(),
                key@ == name@,
                self@ == old(self)@,
                entries == old(self)@.firsts,
                vv == token_views(value@),
                forall|k: int| 0 <= k < i ==> (#[trigger] entries[k]).0 != name@,
            decreases self.firsts_of_non_terminals@.len() - i,
        {
            if self.firsts_of_non_terminals[i].0.eq(&key) {
                proof {
                    lemma_assoc_set_skip(entries, name@, vv, i as int);
                }
                self.firsts_of_non_terminals[i].1 = value;
                proof {
                    assert(self@.firsts =~~= spec_assoc_set(entries, name@, vv, i as int));
                    assert(self@.nullable =~~= old(self)@.nullable);
                }
                return ;
            }
            i = i + 1;
        }
        proof {
            lemma_assoc_set_skip(entries, name@, vv, entries.len() as int);
        }
        self.firsts_of_non_terminals.push((key, value));
        proof {
            assert(self@.firsts =~~= entries.push((name@, vv)));
            assert(self@.nullable =~~= old(self)@.nullable);
        }
    }

    /// Binds a name's nullability in the memo.
    fn set_nullable_entry(&mut self, name: &str, value: bool)
        ensures
            final(self)@.nullable == spec_assoc_set(old(self)@.nullable, name@, value, 0),
            final(self)@.firsts == old(self)@.firsts,
    {
        let ghost entries = self@.nullable;
        let key: String = name.to_owned();
        let mut i: usize = 0;
        while i < self.is_non_terminal_nullable.len()
            invariant
                i <= self.is_non_terminal_nullable@.len(),
                key@ == name@,
                self@ == old(self)@,
                entries == old(self)@.nullable,
                forall|k: int| 0 <= k < i ==> (#[trigger] entries[k]).0 != name@,
            decreases self.is_non_terminal_nullable@.len() - i,
        {
            if self.is_non_terminal_nullable[i].0.eq(&key) {
                proof {
                    lemma_assoc_set_skip(entries, name@, value, i as int);
                }
                self.is_non_terminal_nullable[i].1 = value;
                proof {
                    assert(self@.nullable =~~= spec_assoc_set(entries, name@, value, i as int));
                    assert(self@.firsts =~~= old(self)@.firsts);
                }
                return ;
            }
            i = i + 1;
        }
        proof {
            lemma_assoc_set_skip(entries, name@, value, entries.len() as int);
        }
        self.is_non_terminal_nullable.push((key, value));
        proof {
            assert(self@.nullable =~~= entries.push((name@, value)));
            assert(self@.firsts =~~= old(self)@.firsts);
        }
    }

    /// Appends a token to a name's memoized FIRST set, when the memo has one.
    pub fn add_token(&mut self, non_terminal: &str, token: Token)
        ensures
            final(self)@ == spec_push_token(old(self)@, non_terminal@, token@),
    {
        let ghost entries = self@.firsts;
        let key: String = non_terminal.to_owned();
        let mut i: usize = 0;
        while i < self.firsts_of_non_terminals.len()
            invariant
                i <= self.firsts_of_non_terminals@.len(),
                key@ == non_terminal@,
                self@ == old(self)@,
                entries == old(self)@.firsts,
                forall|k: int| 0 <= k < i ==> (#[trigger] entries[k]).0 != non_terminal@,
            decreases self.firsts_of_non_terminals@.len() - i,
        {
            if self.firsts_of_non_terminals[i].0.eq(&key) {
                proof {
                    lemma_assoc_get_skip(entries, non_terminal@, i as int);
                    lemma_assoc_set_skip(
                        entries,
                        non_terminal@,
                        entries[i as int].1.push(token@),
                        i as int,
                    );
                }
                self.firsts_of_non_terminals[i].1.push(token);
                proof {
                    assert(self@.firsts =~~= spec_assoc_set(
                        entries,
                        non_terminal@,
                        entries[i as int].1.push(token@),
                        i as int,
                    ));
                    assert(self@.nullable =~~= old(self)@.nullable);
                }
                return ;
            }
            i = i + 1;
        }
        proof {
            lemma_assoc_get_skip(entries, non_terminal@, entries.len() as int);
        }
    }
}

} // verus!
verus! {

impl First {
    /// The fuel a public call provides.
    pub(crate) fn public_fuel(grammar: &Grammar) -> (r: usize)
        ensures
            r as nat == spec_default_fuel(grammar@),
    {
        Self::default_fuel(grammar)
    }

    /// The fuel a public call provides.
    fn default_fuel(grammar: &Grammar) -> (r: usize)
        ensures
            r as nat == spec_default_fuel(grammar@),
    {
        let n = grammar.get_non_terminals().len();
        if n > (usize::MAX - 4) / 2 {
            usize::MAX
        } else {
            2 * n + 4
        }
    }

    /// Computes and memoizes the FIRST set of a non-terminal.
    pub fn calculate_first(&mut self, grammar: &Grammar, non_terminal: &str)
        ensures
            final(self)@ == spec_calculate_first(
                grammar@,
                old(self)@,
                non_terminal@,
                spec_default_fuel(grammar@),
            ),
    {
        let fuel = Self::default_fuel(grammar);
        self.calculate_first_fueled(grammar, non_terminal, fuel);
    }

    /// Computes the tokens a symbol string can begin with, memoizing along
    /// the way.
    pub fn calculate_first_for_string(&mut self, grammar: &Grammar, string: &Vec<GrammarSymbol>) -> (r:
        Vec<Token>)
        ensures
            (final(self)@, token_views(r@)) == spec_first_for_string(
                grammar@,
                old(self)@,
                crate::slr::grammar::symbol_views(string@),
                0,
                Seq::empty(),
                spec_default_fuel(grammar@),
            ),
    {
        let fuel = Self::default_fuel(grammar);
        let mut tokens: Vec<Token> = Vec::new();
        proof {
            assert(token_views(tokens@) =~= Seq::<TokenView>::empty());
        }
        self.first_for_string_fueled(grammar, string, &mut tokens, fuel);
        tokens
    }

    /// Computes and memoizes whether a non-terminal can derive the empty
    /// string.
    pub fn calculate_if_non_terminal_is_nullable(&mut self, grammar: &Grammar, non_terminal: &str)
        ensures
            final(self)@ == spec_calc_nullable(
                grammar@,
                old(self)@,
                non_terminal@,
                spec_default_fuel(grammar@),
            ),
    {
        let fuel = Self::default_fuel(grammar);
        self.calc_nullable_fueled(grammar, non_terminal, fuel);
    }

    /// Computes whether a symbol string can derive the empty string,
    /// memoizing along the way.
    pub fn calculate_nullability_for_string(
        &mut self,
        grammar: &Grammar,
        string: &Vec<GrammarSymbol>,
    ) -> (r: bool)
        ensures
            (final(self)@, r) == spec_nullability_for_string(
                grammar@,
                old(self)@,
                crate::slr::grammar::symbol_views(string@),
                0,
                spec_default_fuel(grammar@),
            ),
    {
        let fuel = Self::default_fuel(grammar);
        self.nullability_for_string_fueled(grammar, string, fuel)
    }

    fn calculate_first_fueled(&mut self, grammar: &Grammar, non_terminal: &str, fuel: usize)
        ensures
            final(self)@ == spec_calculate_first(grammar@, old(self)@, non_terminal@, fuel as nat),
        decreases fuel, 5int,
    {
        if fuel == 0 {
            return ;
        }
        let fresh: Vec<Token> = Vec::new();
        proof {
            assert(token_views(fresh@) =~= Seq::<TokenView>::empty());
        }
        self.set_first_entry(non_terminal, fresh);
        self.calc_nullable_fueled(grammar, non_terminal, fuel - 1);
        let productions = match grammar.find_productions(non_terminal) {
            Some(productions) => productions,
            None => {
                return ;
            },
        };
        let ghost prods = crate::slr::grammar::production_list_views(productions@);
        let mut j: usize = 0;
        while j < productions.len()
            invariant
                j <= productions@.len(),
                prods == crate::slr::grammar::production_list_views(productions@),
                fuel >= 1,
                spec_calculate_first(grammar@, old(self)@, non_terminal@, fuel as nat)
                    == spec_first_productions(
                    grammar@,
                    self@,
                    non_terminal@,
                    prods,
                    j as int,
                    (fuel - 1) as nat,
                ),
            decreases productions@.len() - j,
        {
            let ghost st_loop = self@;
            let pieces = self.first_for_string_fueled_fresh(grammar, &productions[j], fuel - 1);
            let ghost st_mid = self@;
            proof {
                assert(prods[j as int] == crate::slr::grammar::symbol_views(
                    productions@[j as int]@,
                ));
                assert((st_mid, token_views(pieces@)) == spec_first_for_string(
                    grammar@,
                    st_loop,
                    prods[j as int],
                    0,
                    Seq::empty(),
                    (fuel - 1) as nat,
                ));
            }
            let mut k: usize = 0;
            while k < pieces.len()
                invariant
                    k <= pieces@.len(),
                    spec_push_tokens(st_mid, non_terminal@, token_views(pieces@), 0)
                        == spec_push_tokens(self@, non_terminal@, token_views(pieces@), k as int),
                decreases pieces@.len() - k,
            {
                self.add_token(non_terminal, pieces[k].clone());
                k = k + 1;
            }
            j = j + 1;
        }
    }

    /// The string pass started with an empty token list.
    fn first_for_string_fueled_fresh(
        &mut self,
        grammar: &Grammar,
        string: &Vec<GrammarSymbol>,
        fuel: usize,
    ) -> (r: Vec<Token>)
        ensures
            (final(self)@, token_views(r@)) == spec_first_for_string(
                grammar@,
                old(self)@,
                crate::slr::grammar::symbol_views(string@),
                0,
                Seq::empty(),
                fuel as nat,
            ),
        decreases fuel, 4int,
    {
        let mut tokens: Vec<Token> = Vec::new();
        proof {
            assert(token_views(tokens@) =~= Seq::<TokenView>::empty());
        }
        self.first_for_string_fueled(grammar, string, &mut tokens, fuel);
        tokens
    }

    fn first_for_string_fueled(
        &mut self,
        grammar: &Grammar,
        string: &Vec<GrammarSymbol>,
        tokens: &mut Vec<Token>,
        fuel: usize,
    )
        ensures
            (final(self)@, token_views(final(tokens)@)) == spec_first_for_string(
                grammar@,
                old(self)@,
                crate::slr::grammar::symbol_views(string@),
                0,
                token_views(old(tokens)@),
                fuel as nat,
            ),
        decreases fuel, 3int,
    {
        let ghost sv = crate::slr::grammar::symbol_views(string@);
        if fuel == 0 {
            return ;
        }
        let mut i: usize = 0;
        while i < string.len()
            invariant
                i <= string@.len(),
                fuel >= 1,
                sv == crate::slr::grammar::symbol_views(string@),
                spec_first_for_string(
                    grammar@,
                    old(self)@,
                    sv,
                    0,
                    token_views(old(tokens)@),
                    fuel as nat,
                ) == spec_first_for_string(
                    grammar@,
                    self@,
                    sv,
                    i as int,
                    token_views(tokens@),
                    fuel as nat,
                ),
            decreases string@.len() - i,
        {
            match &string[i] {
                GrammarSymbol::Terminal(token) => {
                    let ghost pre = tokens@;
                    tokens.push(token.clone());
                    proof {
                        assert(token_views(tokens@) =~= token_views(pre).push(string@[i as int]@->Terminal_0));
                    }
                    return ;
                },
                GrammarSymbol::NonTerminal(name) => {
                    let missing = match self.find_first_entry(name.as_str()) {
                        Some(_) => false,
                        None => true,
                    };
                    if missing {
                        self.calculate_first_fueled(grammar, name.as_str(), fuel - 1);
                    }
                    let found = match self.find_first_entry(name.as_str()) {
                        Some(terminals) => clone_tokens(terminals),
                        None => Vec::new(),
                    };
                    proof {
                        if spec_assoc_get(self@.firsts, name@, 0) is None {
                            assert(token_views(found@) =~= Seq::<TokenView>::empty());
                        }
                    }
                    let ghost pre = tokens@;
                    let mut k: usize = 0;
                    while k < found.len()
                        invariant
                            k <= found@.len(),
                            token_views(tokens@) =~= token_views(pre) + token_views(found@).take(
                                k as int,
                            ),
                        decreases found@.len() - k,
                    {
                        let ghost mid = tokens@;
                        tokens.push(found[k].clone());
                        proof {
                            assert(token_views(tokens@) =~= token_views(mid).push(found@[k as int]@));
                            assert(token_views(found@).take(k + 1 as int) =~= token_views(
                                found@,
                            ).take(k as int).push(found@[k as int]@));
                        }
                        k = k + 1;
                    }
                    proof {
                        assert(token_views(found@).take(found@.len() as int) =~= token_views(
                            found@,
                        ));
                        assert(token_views(tokens@) =~= token_views(pre) + token_views(found@));
                    }
                    let continue_scan = match self.find_nullable_entry(name.as_str()) {
                        Some(is_nullable) => is_nullable,
                        None => false,
                    };
                    if !continue_scan {
                        return ;
                    }
                    self.first_for_string_from(grammar, string, i + 1, tokens, fuel - 1);
                    return ;
                },
            }
        }
    }

    /// The scan continued from position `start`.
    fn first_for_string_from(
        &mut self,
        grammar: &Grammar,
        string: &Vec<GrammarSymbol>,
        start: usize,
        tokens: &mut Vec<Token>,
        fuel: usize,
    )
        ensures
            (final(self)@, token_views(final(tokens)@)) == spec_first_for_string(
                grammar@,
                old(self)@,
                crate::slr::grammar::symbol_views(string@),
                start as int,
                token_views(old(tokens)@),
                fuel as nat,
            ),
        decreases fuel, 3int,
    {
        let ghost sv = crate::slr::grammar::symbol_views(string@);
        if fuel == 0 {
            return ;
        }
        let mut i: usize = start;
        while i < string.len()
            invariant
                start <= i <= string@.len() || (start > string@.len() && i == start),
                fuel >= 1,
                sv == crate::slr::grammar::symbol_views(string@),
                spec_first_for_string(
                    grammar@,
                    old(self)@,
                    sv,
                    start as int,
                    token_views(old(tokens)@),
                    fuel as nat,
                ) == spec_first_for_string(
                    grammar@,
                    self@,
                    sv,
                    i as int,
                    token_views(tokens@),
                    fuel as nat,
                ),
            decreases string@.len() - i,
        {
            match &string[i] {
                GrammarSymbol::Terminal(token) => {
                    let ghost pre = tokens@;
                    tokens.push(token.clone());
                    proof {
                        assert(token_views(tokens@) =~= token_views(pre).push(string@[i as int]@->Terminal_0));
                    }
                    return ;
                },
                GrammarSymbol::NonTerminal(name) => {
                    let missing = match self.find_first_entry(name.as_str()) {
                        Some(_) => false,
                        None => true,
                    };
                    if missing {
                        self.calculate_first_fueled(grammar, name.as_str(), fuel - 1);
                    }
                    let found = match self.find_first_entry(name.as_str()) {
                        Some(terminals) => clone_tokens(terminals),
                        None => Vec::new(),
                    };
                    proof {
                        if spec_assoc_get(self@.firsts, name@, 0) is None {
                            assert(token_views(found@) =~= Seq::<TokenView>::empty());
                        }
                    }
                    let ghost pre = tokens@;
                    let mut k: usize = 0;
                    while k < found.len()
                        invariant
                            k <= found@.len(),
                            token_views(tokens@) =~= token_views(pre) + token_views(found@).take(
                                k as int,
                            ),
                        decreases found@.len() - k,
                    {
                        let ghost mid = tokens@;
                        tokens.push(found[k].clone());
                        proof {
                            assert(token_views(tokens@) =~= token_views(mid).push(found@[k as int]@));
                            assert(token_views(found@).take(k + 1 as int) =~= token_views(
                                found@,
                            ).take(k as int).push(found@[k as int]@));
                        }
                        k = k + 1;
                    }
                    proof {
                        assert(token_views(found@).take(found@.len() as int) =~= token_views(
                            found@,
                        ));
                        assert(token_views(tokens@) =~= token_views(pre) + token_views(found@));
                    }
                    let continue_scan = match self.find_nullable_entry(name.as_str()) {
                        Some(is_nullable) => is_nullable,
                        None => false,
                    };
                    if !continue_scan {
                        return ;
                    }
                    self.first_for_string_from(grammar, string, i + 1, tokens, fuel - 1);
                    return ;
                },
            }
        }
    }

    fn calc_nullable_fueled(&mut self, grammar: &Grammar, non_terminal: &str, fuel: usize)
        ensures
            final(self)@ == spec_calc_nullable(grammar@, old(self)@, non_terminal@, fuel as nat),
        decreases fuel, 2int,
    {
        if fuel == 0 {
            return ;
        }
        self.set_nullable_entry(non_terminal, false);
        let productions = match grammar.find_productions(non_terminal) {
            Some(productions) => productions,
            None => {
                return ;
            },
        };
        let ghost prods = crate::slr::grammar::production_list_views(productions@);
        let mut j: usize = 0;
        while j < productions.len()
            invariant
                j <= productions@.len(),
                prods == crate::slr::grammar::production_list_views(productions@),
                fuel >= 1,
                spec_calc_nullable(grammar@, old(self)@, non_terminal@, fuel as nat)
                    == spec_calc_nullable_productions(
                    grammar@,
                    self@,
                    non_terminal@,
                    prods,
                    j as int,
                    (fuel - 1) as nat,
                ),
            decreases productions@.len() - j,
        {
            let ghost st_loop = self@;
            let is_production_nullable = self.nullability_for_string_fueled(
                grammar,
                &productions[j],
                fuel - 1,
            );
            proof {
                assert(prods[j as int] == crate::slr::grammar::symbol_views(
                    productions@[j as int]@,
                ));
                assert((self@, is_production_nullable) == spec_nullability_for_string(
                    grammar@,
                    st_loop,
                    prods[j as int],
                    0,
                    (fuel - 1) as nat,
                ));
            }
            if is_production_nullable {
                self.set_nullable_entry(non_terminal, true);
                return ;
            }
            j = j + 1;
        }
        self.set_nullable_entry(non_terminal, false);
    }

    fn nullability_for_string_fueled(
        &mut self,
        grammar: &Grammar,
        string: &Vec<GrammarSymbol>,
        fuel: usize,
    ) -> (r: bool)
        ensures
            (final(self)@, r) == spec_nullability_for_string(
                grammar@,
                old(self)@,
                crate::slr::grammar::symbol_views(string@),
                0,
                fuel as nat,
            ),
        decreases fuel, 1int,
    {
        let ghost sv = crate::slr::grammar::symbol_views(string@);
        if fuel == 0 {
            return false;
        }
        let mut i: usize = 0;
        while i < string.len()
            invariant
                i <= string@.len(),
                fuel >= 1,
                sv == crate::slr::grammar::symbol_views(string@),
                spec_nullability_for_string(grammar@, old(self)@, sv, 0, fuel as nat)
                    == spec_nullability_for_string(grammar@, self@, sv, i as int, fuel as nat),
            decreases string@.len() - i,
        {
            match &string[i] {
                GrammarSymbol::Terminal(_) => {
                    return false;
                },
                GrammarSymbol::NonTerminal(name) => {
                    let ghost st_loop = self@;
                    proof {
                        assert(sv[i as int] == GrammarSymbolView::NonTerminal(name@));
                    }
                    let missing = match self.find_nullable_entry(name.as_str()) {
                        Some(_) => false,
                        None => true,
                    };
                    if missing {
                        self.calc_nullable_fueled(grammar, name.as_str(), fuel - 1);
                    }
                    let ghost st1 = self@;
                    proof {
                        assert(st1 == (if spec_assoc_get(st_loop.nullable, name@, 0) is None {
                            spec_calc_nullable(grammar@, st_loop, name@, (fuel - 1) as nat)
                        } else {
                            st_loop
                        }));
                    }
                    let is_nullable = match self.find_nullable_entry(name.as_str()) {
                        Some(is_nullable) => is_nullable,
                        None => false,
                    };
                    proof {
                        assert(is_nullable == (spec_assoc_get(st1.nullable, name@, 0)
                            == Option::Some(true)));
                    }
                    if !is_nullable {
                        return false;
                    }
                    return self.nullability_from(grammar, string, i + 1, fuel - 1);
                },
            }
        }
        true
    }

    /// The nullability scan continued from position `start`.
    fn nullability_from(
        &mut self,
        grammar: &Grammar,
        string: &Vec<GrammarSymbol>,
        start: usize,
        fuel: usize,
    ) -> (r: bool)
        ensures
            (final(self)@, r) == spec_nullability_for_string(
                grammar@,
                old(self)@,
                crate::slr::grammar::symbol_views(string@),
                start as int,
                fuel as nat,
            ),
        decreases fuel, 1int,
    {
        let ghost sv = crate::slr::grammar::symbol_views(string@);
        if fuel == 0 {
            return false;
        }
        let mut i: usize = start;
        while i < string.len()
            invariant
                start <= i <= string@.len() || (start > string@.len() && i == start),
                fuel >= 1,
                sv == crate::slr::grammar::symbol_views(string@),
                spec_nullability_for_string(grammar@, old(self)@, sv, start as int, fuel as nat)
                    == spec_nullability_for_string(grammar@, self@, sv, i as int, fuel as nat),
            decreases string@.len() - i,
        {
            match &string[i] {
                GrammarSymbol::Terminal(_) => {
                    return false;
                },
                GrammarSymbol::NonTerminal(name) => {
                    let ghost st_loop = self@;
                    proof {
                        assert(sv[i as int] == GrammarSymbolView::NonTerminal(name@));
                    }
                    let missing = match self.find_nullable_entry(name.as_str()) {
                        Some(_) => false,
                        None => true,
                    };
                    if missing {
                        self.calc_nullable_fueled(grammar, name.as_str(), fuel - 1);
                    }
                    let ghost st1 = self@;
                    proof {
                        assert(st1 == (if spec_assoc_get(st_loop.nullable, name@, 0) is None {
                            spec_calc_nullable(grammar@, st_loop, name@, (fuel - 1) as nat)
                        } else {
                            st_loop
                        }));
                    }
                    let is_nullable = match self.find_nullable_entry(name.as_str()) {
                        Some(is_nullable) => is_nullable,
                        None => false,
                    };
                    proof {
                        assert(is_nullable == (spec_assoc_get(st1.nullable, name@, 0)
                            == Option::Some(true)));
                    }
                    if !is_nullable {
                        return false;
                    }
                    return self.nullability_from(grammar, string, i + 1, fuel - 1);
                },
            }
        }
        true
    }
}

} // verus!
