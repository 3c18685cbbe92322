//! FOLLOW sets: which tokens can stand right after a non-terminal in a
//! derivation. The walker memoizes per non-terminal, entering a name with an
//! empty set before its occurrences are examined, which cuts
//! self-referential loops; each occurrence contributes the FIRST set of what
//! stands after it, and the surrounding name's own FOLLOW set where that can
//! vanish. Every function carries a fuel bound mirrored exactly by its spec.

use vstd::prelude::*;

use crate::slr::first::spec_assoc_get;
use crate::slr::first::spec_assoc_set;
use crate::slr::first::spec_get_first_for_string;
use crate::slr::first::token_views;
use crate::slr::first::First;
use crate::slr::grammar::symbol_views;
use crate::slr::grammar::Grammar;
use crate::slr::grammar::GrammarSymbol;
use crate::slr::grammar::GrammarSymbolView;
use crate::slr::grammar::GrammarView;
use crate::slr::Token;
use crate::slr::TokenView;

verus! {

/// The walker's memo: FOLLOW sets already computed per non-terminal.
pub struct Follow {
    pub(crate) follow_of_non_terminal: Vec<(String, Vec<Token>)>,
}

/// The mathematical value of the memo.
pub open spec fn follow_view(entries: Seq<(String, Vec<Token>)>) -> Seq<(Seq<char>, Seq<TokenView>)> {
    Seq::new(entries.len(), |i: int| (entries[i].0@, token_views(entries[i].1@)))
}

impl View for Follow {
    type V = Seq<(Seq<char>, Seq<TokenView>)>;

    closed spec fn view(&self) -> Seq<(Seq<char>, Seq<TokenView>)> {
        follow_view(self.follow_of_non_terminal@)
    }
}

/// The first position of a non-terminal in a production.
pub open spec fn spec_symbol_position(
    production: Seq<GrammarSymbolView>,
    name: Seq<char>,
    i: int,
) -> Option<int>
    decreases production.len() - i,
{
    if i < 0 || i >= production.len() {
        Option::None
    } else if production[i] == GrammarSymbolView::NonTerminal(name) {
        Option::Some(i)
    } else {
        spec_symbol_position(production, name, i + 1)
    }
}

/// The occurrences of a non-terminal: for each production that holds it, the
/// production's own name and its string, in store order.
pub open spec fn spec_occurrences_in_list(
    current: Seq<char>,
    productions: Seq<Seq<GrammarSymbolView>>,
    name: Seq<char>,
    j: int,
) -> Seq<(Seq<char>, Seq<GrammarSymbolView>)>
    decreases productions.len() - j,
{
    if j < 0 || j >= productions.len() {
        Seq::empty()
    } else {
        let rest = spec_occurrences_in_list(current, productions, name, j + 1);
        if spec_symbol_position(productions[j], name, 0) is Some {
            seq![(current, productions[j])] + rest
        } else {
            rest
        }
    }
}

/// The occurrences of a non-terminal over the whole store from entry `e`.
pub open spec fn spec_occurrences(g: GrammarView, name: Seq<char>, e: int) -> Seq<
    (Seq<char>, Seq<GrammarSymbolView>),
>
    decreases g.productions.len() - e,
{
    if e < 0 || e >= g.productions.len() {
        Seq::empty()
    } else {
        spec_occurrences_in_list(g.productions[e].0, g.productions[e].1, name, 0)
            + spec_occurrences(g, name, e + 1)
    }
}

/// Tokens merged into a FOLLOW set without duplicates, from index `k`.
pub open spec fn spec_follow_merge(follow: Seq<TokenView>, found: Seq<TokenView>, k: int) -> Seq<
    TokenView,
>
    decreases found.len() - k,
{
    if k < 0 || k >= found.len() {
        follow
    } else if follow.contains(found[k]) {
        spec_follow_merge(follow, found, k + 1)
    } else {
        spec_follow_merge(follow.push(found[k]), found, k + 1)
    }
}

/// The walk over a name's occurrences from index `k`: each contributes the
/// FIRST tokens of what stands after the name, and where that can derive the
/// empty string, the surrounding name's own FOLLOW set (computed on demand,
/// the memo's entry for a name under construction standing in for it).
pub open spec fn spec_follow_occurrences(
    g: GrammarView,
    st: Seq<(Seq<char>, Seq<TokenView>)>,
    occurrences: Seq<(Seq<char>, Seq<GrammarSymbolView>)>,
    k: int,
    follow: Seq<TokenView>,
    name: Seq<char>,
    fuel: nat,
) -> (Seq<(Seq<char>, Seq<TokenView>)>, Seq<TokenView>)
    decreases fuel, 0int, occurrences.len() - k,
{
    if fuel == 0 {
        (st, follow)
    } else if k < 0 || k >= occurrences.len() {
        (st, follow)
    } else {
        let (current, production) = occurrences[k];
        let substring = match spec_symbol_position(production, name, 0) {
            Option::Some(position) => production.skip(position + 1),
            Option::None => Seq::empty(),
        };
        let first = spec_get_first_for_string(g, substring);
        let follow1 = spec_follow_merge(follow, first.tokens, 0);
        if first.empty_set {
            let st1 = if spec_assoc_get(st, current, 0) is None {
                spec_calculate_follow(g, st, current, (fuel - 1) as nat)
            } else {
                st
            };
            let parent = match spec_assoc_get(st1, current, 0) {
                Option::Some(tokens) => tokens,
                Option::None => Seq::empty(),
            };
            let follow2 = spec_follow_merge(follow1, parent, 0);
            spec_follow_occurrences(g, st1, occurrences, k + 1, follow2, name, fuel)
        } else {
            spec_follow_occurrences(g, st, occurrences, k + 1, follow1, name, fuel)
        }
    }
}

/// The memo after a name's FOLLOW set is computed: the name is entered with
/// an empty set first, the end token seeds the start symbol's set, every
/// occurrence contributes, and the finished set replaces the entry.
pub open spec fn spec_calculate_follow(
    g: GrammarView,
    st: Seq<(Seq<char>, Seq<TokenView>)>,
    name: Seq<char>,
    fuel: nat,
) -> Seq<(Seq<char>, Seq<TokenView>)>
    decreases fuel, 1int, 0int,
{
    if fuel == 0 {
        st
    } else {
        let st1 = spec_assoc_set(st, name, Seq::empty(), 0);
        let base: Seq<TokenView> = spec_calculate_follow_base(g, name);
        let occurrences = spec_occurrences(g, name, 0);
        let (st2, follow) = spec_follow_occurrences(
            g,
            st1,
            occurrences,
            0,
            base,
            name,
            (fuel - 1) as nat,
        );
        spec_assoc_set(st2, name, follow, 0)
    }
}

/// The FOLLOW set of a name, computed from a fresh memo.
pub open spec fn spec_get_follow(g: GrammarView, name: Seq<char>) -> Seq<TokenView> {
    let st = spec_calculate_follow(
        g,
        Seq::empty(),
        name,
        crate::slr::first::spec_default_fuel(g),
    );
    match spec_assoc_get(st, name, 0) {
        Option::Some(tokens) => tokens,
        Option::None => Seq::empty(),
    }
}

} // verus!
verus! {

/// Whether a token list holds a token with the given value and flag.
fn contains_token(tokens: &Vec<Token>, token: &Token) -> (r: bool)
    ensures
        r == token_views(tokens@).contains(token@),
{
    let ghost tv = token_views(tokens@);
    let mut i: usize = 0;
    while i < tokens.len()
        invariant
            i <= tokens@.len(),
            tv == token_views(tokens@),
            forall|j: int| 0 <= j < i ==> tv[j] != token@,
        decreases tokens@.len() - i,
    {
        if &tokens[i] == token {
            proof {
                assert(tv[i as int] == token@);
            }
            return true;
        }
        i = i + 1;
    }
    proof {
        if tv.contains(token@) {
            let j = choose|j: int| 0 <= j < tv.len() && tv[j] == token@;
            assert(false);
        }
    }
    false
}

/// Tokens merged into a FOLLOW set without duplicates.
fn merge_tokens(follow: &mut Vec<Token>, found: &Vec<Token>)
    ensures
        token_views(final(follow)@) == spec_follow_merge(
            token_views(old(follow)@),
            token_views(found@),
            0,
        ),
{
    let ghost fv = token_views(found@);
    let mut k: usize = 0;
    while k < found.len()
        invariant
            k <= found@.len(),
            fv == token_views(found@),
            spec_follow_merge(token_views(old(follow)@), fv, 0) == spec_follow_merge(
                token_views(follow@),
                fv,
                k as int,
            ),
        decreases found@.len() - k,
    {
        proof {
            assert(fv[k as int] == found@[k as int]@);
        }
        let ghost pre = token_views(follow@);
        if !contains_token(follow, &found[k]) {
            follow.push(found[k].clone());
            proof {
                assert(token_views(follow@) =~= pre.push(found@[k as int]@));
            }
        }
        k = k + 1;
    }
}

/// The first position of a non-terminal in a production.
fn symbol_position(production: &Vec<GrammarSymbol>, name: &str) -> (r: Option<usize>)
    ensures
        match r {
            Option::Some(index) => spec_symbol_position(symbol_views(production@), name@, 0)
                == Option::Some(index as int) && index < production@.len(),
            Option::None => spec_symbol_position(symbol_views(production@), name@, 0) is None,
        },
{
    let ghost sv = symbol_views(production@);
    let key: String = name.to_owned();
    let mut i: usize = 0;
    while i < production.len()
        invariant
            i <= production@.len(),
            key@ == name@,
            sv == symbol_views(production@),
            spec_symbol_position(sv, name@, 0) == spec_symbol_position(sv, name@, i as int),
        decreases production@.len() - i,
    {
        proof {
            assert(sv[i as int] == production@[i as int]@);
        }
        let found = match &production[i] {
            GrammarSymbol::NonTerminal(n) => n.eq(&key),
            _ => false,
        };
        if found {
            return Some(i);
        }
        i = i + 1;
    }
    None
}

/// A copy of a production's symbols from position `start` on.
fn symbols_from(production: &Vec<GrammarSymbol>, start: usize) -> (r: Vec<GrammarSymbol>)
    requires
        start <= production@.len(),
    ensures
        symbol_views(r@) == symbol_views(production@).skip(start as int),
{
    let mut out: Vec<GrammarSymbol> = Vec::new();
    let mut i: usize = start;
    while i < production.len()
        invariant
            start <= i <= production@.len(),
            out@.len() == i - start,
            forall|j: int| 0 <= j < out@.len() ==> (#[trigger] out@[j])@ == production@[start + j]@,
        decreases production@.len() - i,
    {
        out.push(production[i].clone());
        i = i + 1;
    }
    proof {
        assert(symbol_views(out@) =~= symbol_views(production@).skip(start as int));
    }
    out
}

impl Follow {
    /// The FOLLOW set of a non-terminal, computed from a fresh memo.
    pub fn get_follow(grammar: &Grammar, non_terminal: &str) -> (r: Vec<Token>)
        ensures
            token_views(r@) == spec_get_follow(grammar@, non_terminal@),
    {
        let mut follow = Follow { follow_of_non_terminal: Vec::new() };
        proof {
            assert(follow@ =~= Seq::<(Seq<char>, Seq<TokenView>)>::empty());
        }
        let fuel = crate::slr::first::First::public_fuel(grammar);
        follow.calculate_follow_fueled(grammar, non_terminal, fuel);
        let result = match follow.find_follow_entry(non_terminal) {
            Some(tokens) => crate::slr::first::clone_tokens(tokens),
            None => Vec::new(),
        };
        proof {
            if spec_assoc_get(follow@, non_terminal@, 0) is None {
                assert(token_views(result@) =~= Seq::<TokenView>::empty());
            }
        }
        result
    }

    /// The memoized FOLLOW set of a name, if computed already.
    fn find_follow_entry(&self, name: &str) -> (r: Option<&Vec<Token>>)
        ensures
            match r {
                Option::Some(tokens) => spec_assoc_get(self@, name@, 0) == Option::Some(
                    token_views(tokens@),
                ),
                Option::None => spec_assoc_get(self@, name@, 0) is None,
            },
    {
        let key: String = name.to_owned();
        let mut i: usize = 0;
        while i < self.follow_of_non_terminal.len()
            invariant
                i <= self.follow_of_non_terminal@.len(),
                key@ == name@,
                spec_assoc_get(self@, name@, 0) == spec_assoc_get(self@, name@, i as int),
            decreases self.follow_of_non_terminal@.len() - i,
        {
            if self.follow_of_non_terminal[i].0.eq(&key) {
                return Some(&self.follow_of_non_terminal[i].1);
            }
            i = i + 1;
        }
        None
    }

    /// Binds a name's FOLLOW set in the memo.
    fn set_follow_entry(&mut self, name: &str, value: Vec<Token>)
        ensures
            final(self)@ == spec_assoc_set(old(self)@, name@, token_views(value@), 0),
    {
        let ghost entries = self@;
        let ghost vv = token_views(value@);
        let key: String = name.to_owned();
        let mut i: usize = 0;
        while i < self.follow_of_non_terminal.len()
            invariant
                i <= self.follow_of_non_terminal@.len(),
                key@ == name@,
                self@ == old(self)@,
                entries == old(self)@,
                vv == token_views(value@),
                forall|k: int| 0 <= k < i ==> (#[trigger] entries[k]).0 != name@,
            decreases self.follow_of_non_terminal@.len() - i,
        {
            if self.follow_of_non_terminal[i].0.eq(&key) {
                proof {
                    crate::slr::first::lemma_assoc_set_skip(entries, name@, vv, i as int);
                }
                self.follow_of_non_terminal[i].1 = value;
                proof {
                    assert(self@ =~~= spec_assoc_set(entries, name@, vv, i as int));
                }
                return ;
            }
            i = i + 1;
        }
        proof {
            crate::slr::first::lemma_assoc_set_skip(entries, name@, vv, entries.len() as int);
        }
        self.follow_of_non_terminal.push((key, value));
        proof {
            assert(self@ =~~= entries.push((name@, vv)));
        }
    }

    /// The occurrences of a name over the whole store.
    fn collect_occurrences(grammar: &Grammar, name: &str) -> (r: Vec<(String, Vec<GrammarSymbol>)>)
        ensures
            Seq::new(r@.len(), |k: int| (r@[k].0@, symbol_views(r@[k].1@))) == spec_occurrences(
                grammar@,
                name@,
                0,
            ),
    {
        let mut out: Vec<(String, Vec<GrammarSymbol>)> = Vec::new();
        let entry_count = grammar.production_count();
        let mut e: usize = 0;
        while e < entry_count
            invariant
                e <= grammar@.productions.len(),
                entry_count == grammar@.productions.len(),
                spec_occurrences(grammar@, name@, 0) =~= Seq::new(
                    out@.len(),
                    |k: int| (out@[k].0@, symbol_views(out@[k].1@)),
                ) + spec_occurrences(grammar@, name@, e as int),
            decreases grammar@.productions.len() - e,
        {
            let (current, productions) = grammar.production_entry(e);
            let ghost prods = crate::slr::grammar::production_list_views(productions@);
            let ghost out_pre = Seq::new(
                out@.len(),
                |k: int| (out@[k].0@, symbol_views(out@[k].1@)),
            );
            let mut j: usize = 0;
            while j < productions.len()
                invariant
                    j <= productions@.len(),
                    current@ == grammar@.productions[e as int].0,
                    e < grammar@.productions.len(),
                    prods == crate::slr::grammar::production_list_views(productions@),
                    prods == grammar@.productions[e as int].1,
                    out_pre + spec_occurrences_in_list(current@, prods, name@, 0) =~= Seq::new(
                        out@.len(),
                        |k: int| (out@[k].0@, symbol_views(out@[k].1@)),
                    ) + spec_occurrences_in_list(current@, prods, name@, j as int),
                decreases productions@.len() - j,
            {
                proof {
                    assert(prods[j as int] == symbol_views(productions@[j as int]@));
                }
                let ghost pre = Seq::new(
                    out@.len(),
                    |k: int| (out@[k].0@, symbol_views(out@[k].1@)),
                );
                match symbol_position(&productions[j], name) {
                    Some(_) => {
                        out.push((current.clone(), clone_production(&productions[j])));
                        proof {
                            assert(Seq::new(
                                out@.len(),
                                |k: int| (out@[k].0@, symbol_views(out@[k].1@)),
                            ) =~= pre.push((current@, prods[j as int])));
                            assert(pre.push((current@, prods[j as int]))
                                + spec_occurrences_in_list(current@, prods, name@, j + 1) =~= pre
                                + (seq![(current@, prods[j as int])] + spec_occurrences_in_list(
                                current@,
                                prods,
                                name@,
                                j + 1,
                            )));
                        }
                    },
                    None => {},
                }
                j = j + 1;
            }
            proof {
                assert(spec_occurrences_in_list(current@, prods, name@, productions@.len() as int)
                    =~= Seq::<(Seq<char>, Seq<GrammarSymbolView>)>::empty());
                assert(out_pre + spec_occurrences_in_list(current@, prods, name@, 0) =~= Seq::new(
                    out@.len(),
                    |k: int| (out@[k].0@, symbol_views(out@[k].1@)),
                ));
            }
            e = e + 1;
        }
        proof {
            assert(spec_occurrences(grammar@, name@, entry_count as int) =~= Seq::<
                (Seq<char>, Seq<GrammarSymbolView>),
            >::empty());
            assert(Seq::new(out@.len(), |k: int| (out@[k].0@, symbol_views(out@[k].1@)))
                + spec_occurrences(grammar@, name@, entry_count as int) =~= Seq::new(
                out@.len(),
                |k: int| (out@[k].0@, symbol_views(out@[k].1@)),
            ));
        }
        out
    }

    fn calculate_follow_fueled(&mut self, grammar: &Grammar, non_terminal: &str, fuel: usize)
        ensures
            final(self)@ == spec_calculate_follow(grammar@, old(self)@, non_terminal@, fuel as nat),
        decreases fuel, 1int,
    {
        if fuel == 0 {
            return ;
        }
        let empty_entry: Vec<Token> = Vec::new();
        proof {
            assert(token_views(empty_entry@) =~= Seq::<TokenView>::empty());
        }
        self.set_follow_entry(non_terminal, empty_entry);

        let mut follow: Vec<Token> = Vec::new();
        if non_terminal.to_owned().eq(grammar.get_starting_non_terminal()) {
            follow.push(grammar.get_end_symbol());
        }
        proof {
            if non_terminal@ == grammar@.starting_non_terminal {
                assert(token_views(follow@) =~= seq![
                    TokenView { value: grammar@.end_token, is_end_symbol: false },
                ]);
            } else {
                assert(token_views(follow@) =~= Seq::<TokenView>::empty());
            }
        }
        if fuel == 1 {
            proof {
                assert(spec_follow_occurrences(
                    grammar@,
                    self@,
                    spec_occurrences(grammar@, non_terminal@, 0),
                    0,
                    spec_calculate_follow_base(grammar@, non_terminal@),
                    non_terminal@,
                    0nat,
                ) == (self@, spec_calculate_follow_base(grammar@, non_terminal@)));
            }
            self.set_follow_entry(non_terminal, follow);
            return ;
        }
        let occurrences = Self::collect_occurrences(grammar, non_terminal);
        let ghost occs = spec_occurrences(grammar@, non_terminal@, 0);
        let ghost st1 = self@;
        let mut k: usize = 0;
        while k < occurrences.len()
            invariant
                k <= occurrences@.len(),
                fuel >= 2,
                occs == Seq::new(
                    occurrences@.len(),
                    |m: int| (occurrences@[m].0@, symbol_views(occurrences@[m].1@)),
                ),
                spec_follow_occurrences(
                    grammar@,
                    st1,
                    occs,
                    0,
                    spec_calculate_follow_base(grammar@, non_terminal@),
                    non_terminal@,
                    (fuel - 1) as nat,
                ) == spec_follow_occurrences(
                    grammar@,
                    self@,
                    occs,
                    k as int,
                    token_views(follow@),
                    non_terminal@,
                    (fuel - 1) as nat,
                ),
            decreases occurrences@.len() - k,
        {
            let ghost st_loop = self@;
            proof {
                assert(occs[k as int] == (occurrences@[k as int].0@, symbol_views(
                    occurrences@[k as int].1@,
                )));
            }
            let current = clone_name(&occurrences[k].0);
            let production = &occurrences[k].1;
            let substring = match symbol_position(production, non_terminal) {
                Some(position) => {
                    proof {
                        assert(position < production@.len());
                    }
                    symbols_from(production, position + 1)
                },
                None => Vec::new(),
            };
            proof {
                if spec_symbol_position(symbol_views(production@), non_terminal@, 0) is None {
                    assert(symbol_views(substring@) =~= Seq::<GrammarSymbolView>::empty());
                }
            }
            let first = First::get_first_for_string(grammar, &substring);
            merge_tokens(&mut follow, &first.tokens);
            if first.empty_set {
                let missing = match self.find_follow_entry(current.as_str()) {
                    Some(_) => false,
                    None => true,
                };
                if missing {
                    self.calculate_follow_fueled(grammar, current.as_str(), fuel - 2);
                }
                let parent = match self.find_follow_entry(current.as_str()) {
                    Some(tokens) => crate::slr::first::clone_tokens(tokens),
                    None => Vec::new(),
                };
                proof {
                    if spec_assoc_get(self@, current@, 0) is None {
                        assert(token_views(parent@) =~= Seq::<TokenView>::empty());
                    }
                }
                merge_tokens(&mut follow, &parent);
            }
            k = k + 1;
        }
        self.set_follow_entry(non_terminal, follow);
    }
}

/// The seed of a FOLLOW computation: the end token for the start symbol.
pub open spec fn spec_calculate_follow_base(g: GrammarView, name: Seq<char>) -> Seq<TokenView> {
    if name == g.starting_non_terminal {
        seq![TokenView { value: g.end_token, is_end_symbol: false }]
    } else {
        Seq::empty()
    }
}

/// A copy of a name.
fn clone_name(s: &String) -> (r: String)
    ensures
        r@ == s@,
{
    s.clone()
}

/// A copy of a production's symbols.
fn clone_production(v: &Vec<GrammarSymbol>) -> (r: Vec<GrammarSymbol>)
    ensures
        symbol_views(r@) == symbol_views(v@),
{
    symbols_from(v, 0)
}

} // verus!
