//! An LL(1) parser exercise over the same four-symbol arithmetic grammar,
//! written with a separated start symbol: FIRST and FOLLOW sets and the
//! predictive parse table. The FIRST/FOLLOW walkers mirror their spec
//! functions step by step, fuel included: each public call provides the
//! fuel its contract names, and a walk that ran out of fuel would return
//! the truncated set its spec gives — the contracts promise no more.

use vstd::prelude::*;

verus! {

/// A token of the expression language, with the marker the set calculations
/// use for the empty string.
#[derive(Clone, Copy, Debug, PartialEq, Eq, Hash, Structural)]
pub enum Token {
    Id,
    OpenBracket,
    ClosingBracket,
    Plus,
    Times,
    EndSymbol,
    EmptySet,
}

/// A terminal, a named non-terminal, or the end marker of the parse stack.
#[derive(Debug)]
pub enum GrammarSymbol {
    Terminal(Token),
    NonTerminal(String),
    EndSymbol,
}

/// The mathematical value of a grammar symbol.
pub enum LlSymbolView {
    Terminal(Token),
    NonTerminal(Seq<char>),
    EndSymbol,
}

impl View for GrammarSymbol {
    type V = LlSymbolView;

    open spec fn view(&self) -> LlSymbolView {
        match self {
            GrammarSymbol::Terminal(token) => LlSymbolView::Terminal(*token),
            GrammarSymbol::NonTerminal(name) => LlSymbolView::NonTerminal(name@),
            GrammarSymbol::EndSymbol => LlSymbolView::EndSymbol,
        }
    }
}

impl Clone for GrammarSymbol {
    fn clone(&self) -> (r: GrammarSymbol)
        ensures
            r@ == self@,
    {
        match self {
            GrammarSymbol::Terminal(token) => GrammarSymbol::Terminal(*token),
            GrammarSymbol::NonTerminal(name) => GrammarSymbol::NonTerminal(name.clone()),
            GrammarSymbol::EndSymbol => GrammarSymbol::EndSymbol,
        }
    }
}

impl PartialEq for GrammarSymbol {
    fn eq(&self, other: &GrammarSymbol) -> (r: bool) {
        match (self, other) {
            (GrammarSymbol::Terminal(a), GrammarSymbol::Terminal(b)) => a == b,
            (GrammarSymbol::NonTerminal(a), GrammarSymbol::NonTerminal(b)) => a.eq(b),
            (GrammarSymbol::EndSymbol, GrammarSymbol::EndSymbol) => true,
            _ => false,
        }
    }
}

impl vstd::std_specs::cmp::PartialEqSpecImpl for GrammarSymbol {
    open spec fn obeys_eq_spec() -> bool {
        true
    }

    open spec fn eq_spec(&self, other: &GrammarSymbol) -> bool {
        match (self@, other@) {
            (LlSymbolView::Terminal(a), LlSymbolView::Terminal(b)) => a == b,
            (LlSymbolView::NonTerminal(a), LlSymbolView::NonTerminal(b)) => a == b,
            (LlSymbolView::EndSymbol, LlSymbolView::EndSymbol) => true,
            _ => false,
        }
    }
}

/// The values of a string of grammar symbols.
pub open spec fn ll_symbol_views(symbols: Seq<GrammarSymbol>) -> Seq<LlSymbolView> {
    Seq::new(symbols.len(), |i: int| symbols[i]@)
}

/// The values of a list of productions.
pub open spec fn ll_production_views(productions: Seq<Vec<GrammarSymbol>>) -> Seq<
    Seq<LlSymbolView>,
> {
    Seq::new(productions.len(), |i: int| ll_symbol_views(productions[i]@))
}

/// The mathematical value of the grammar.
pub struct LlGrammarView {
    pub productions: Seq<(Seq<char>, Seq<Seq<LlSymbolView>>)>,
    pub start_symbol: Seq<char>,
}

/// The first production list filed under a name.
pub open spec fn ll_lookup(
    store: Seq<(Seq<char>, Seq<Seq<LlSymbolView>>)>,
    name: Seq<char>,
    i: int,
) -> Option<Seq<Seq<LlSymbolView>>>
    decreases store.len() - i,
{
    if i < 0 || i >= store.len() {
        Option::None
    } else if store[i].0 == name {
        Option::Some(store[i].1)
    } else {
        ll_lookup(store, name, i + 1)
    }
}

/// The grammar under study, fixed by its one constructor.
pub struct Grammar {
    pub(crate) productions: Vec<(String, Vec<Vec<GrammarSymbol>>)>,
    pub(crate) start_symbol: String,
}

impl View for Grammar {
    type V = LlGrammarView;

    closed spec fn view(&self) -> LlGrammarView {
        LlGrammarView {
            productions: Seq::new(
                self.productions@.len(),
                |i: int| (self.productions@[i].0@, ll_production_views(self.productions@[i].1@)),
            ),
            start_symbol: self.start_symbol@,
        }
    }
}

/// Tokens collected from a FIRST set, skipping the empty-string marker and
/// duplicates, from index `k`.
pub open spec fn spec_merge_first(first: Seq<Token>, found: Seq<Token>, k: int) -> Seq<Token>
    decreases found.len() - k,
{
    if k < 0 || k >= found.len() {
        first
    } else if found[k] == Token::EmptySet {
        spec_merge_first(first, found, k + 1)
    } else if first.contains(found[k]) {
        spec_merge_first(first, found, k + 1)
    } else {
        spec_merge_first(first.push(found[k]), found, k + 1)
    }
}

/// The finishing step of a string's FIRST scan: the empty-string marker joins
/// only when every set seen held it and at least one did.
pub open spec fn spec_first_final(first: Seq<Token>, one_set_without_empty: bool, some_set_with_empty: bool) -> Seq<Token> {
    if !one_set_without_empty && some_set_with_empty {
        first.push(Token::EmptySet)
    } else {
        first
    }
}

/// The FIRST scan of a symbol string from position `i`: a terminal joins and
/// settles the scan; a non-terminal's own FIRST set joins without its marker,
/// and only a set that held the end marker would let the scan go on, so it
/// settles the scan too.
pub open spec fn spec_first_string_from(
    g: LlGrammarView,
    string: Seq<LlSymbolView>,
    i: int,
    first: Seq<Token>,
    one_set_without_empty: bool,
    some_set_with_empty: bool,
    fuel: nat,
) -> Seq<Token>
    decreases fuel, 3int, string.len() - i,
{
    if i < 0 || i >= string.len() {
        spec_first_final(first, one_set_without_empty, some_set_with_empty)
    } else {
        match string[i] {
            LlSymbolView::Terminal(token) => {
                let f = if first.contains(token) {
                    first
                } else {
                    first.push(token)
                };
                spec_first_final(f, true, some_set_with_empty)
            },
            LlSymbolView::NonTerminal(name) => {
                if fuel == 0 {
                    spec_first_final(first, one_set_without_empty, some_set_with_empty)
                } else {
                    let found = spec_get_first(g, name, (fuel - 1) as nat);
                    let f = spec_merge_first(first, found, 0);
                    let with_empty = found.contains(Token::EmptySet);
                    let one_set = if with_empty {
                        one_set_without_empty
                    } else {
                        true
                    };
                    let some_set = if with_empty {
                        true
                    } else {
                        some_set_with_empty
                    };
                    if !found.contains(Token::EndSymbol) {
                        spec_first_final(f, one_set, some_set)
                    } else {
                        spec_first_string_from(g, string, i + 1, f, one_set, some_set, fuel)
                    }
                }
            },
            LlSymbolView::EndSymbol => spec_first_final(
                first,
                one_set_without_empty,
                some_set_with_empty,
            ),
        }
    }
}

/// The FIRST pass over a name's productions from index `j`: an empty
/// production contributes the empty-string marker, and every production
/// contributes its string's FIRST tokens.
pub open spec fn spec_first_productions(
    g: LlGrammarView,
    productions: Seq<Seq<LlSymbolView>>,
    j: int,
    acc: Seq<Token>,
    fuel: nat,
) -> Seq<Token>
    decreases fuel, 4int, productions.len() - j,
{
    if j < 0 || j >= productions.len() {
        acc
    } else {
        let acc1 = if productions[j].len() == 0 {
            acc.push(Token::EmptySet)
        } else {
            acc
        };
        let pieces = spec_first_string_from(g, productions[j], 0, Seq::empty(), false, false, fuel);
        spec_first_productions(g, productions, j + 1, acc1 + pieces, fuel)
    }
}

/// The FIRST set of a non-terminal; a name without productions has the empty
/// set.
pub open spec fn spec_get_first(g: LlGrammarView, name: Seq<char>, fuel: nat) -> Seq<Token>
    decreases fuel, 5int, 0int,
{
    if fuel == 0 {
        Seq::empty()
    } else {
        match ll_lookup(g.productions, name, 0) {
            Option::None => Seq::empty(),
            Option::Some(productions) => spec_first_productions(
                g,
                productions,
                0,
                Seq::empty(),
                (fuel - 1) as nat,
            ),
        }
    }
}

/// The first position of a non-terminal in a production.
pub open spec fn spec_position_of(production: Seq<LlSymbolView>, name: Seq<char>, i: int) -> Option<
    int,
>
    decreases production.len() - i,
{
    if i < 0 || i >= production.len() {
        Option::None
    } else if production[i] == LlSymbolView::NonTerminal(name) {
        Option::Some(i)
    } else {
        spec_position_of(production, name, i + 1)
    }
}

/// Tokens merged into a FOLLOW set, without duplicates, from index `k`.
pub open spec fn spec_merge_follow(follow: Seq<Token>, found: Seq<Token>, k: int) -> Seq<Token>
    decreases found.len() - k,
{
    if k < 0 || k >= found.len() {
        follow
    } else if follow.contains(found[k]) {
        spec_merge_follow(follow, found, k + 1)
    } else {
        spec_merge_follow(follow.push(found[k]), found, k + 1)
    }
}

/// The FOLLOW contribution of the FIRST tokens of what stands after the name:
/// the empty-string marker lets the surrounding name's own FOLLOW set in.
pub open spec fn spec_follow_elements(
    g: LlGrammarView,
    current: Seq<char>,
    first: Seq<Token>,
    k: int,
    follow: Seq<Token>,
    name: Seq<char>,
    fuel: nat,
) -> Seq<Token>
    decreases fuel, 6int, first.len() - k,
{
    if fuel == 0 {
        follow
    } else if k < 0 || k >= first.len() {
        follow
    } else if first[k] == Token::EmptySet {
        let follow1 = if current != name {
            spec_merge_follow(follow, spec_get_follow(g, current, (fuel - 1) as nat), 0)
        } else {
            follow
        };
        spec_follow_elements(g, current, first, k + 1, follow1, name, fuel)
    } else if follow.contains(first[k]) {
        spec_follow_elements(g, current, first, k + 1, follow, name, fuel)
    } else {
        spec_follow_elements(g, current, first, k + 1, follow.push(first[k]), name, fuel)
    }
}

/// The FOLLOW contribution of one key's productions from index `j`.
pub open spec fn spec_follow_productions(
    g: LlGrammarView,
    current: Seq<char>,
    productions: Seq<Seq<LlSymbolView>>,
    j: int,
    follow: Seq<Token>,
    name: Seq<char>,
    fuel: nat,
) -> Seq<Token>
    decreases fuel, 7int, productions.len() - j,
{
    if fuel == 0 {
        follow
    } else if j < 0 || j >= productions.len() {
        follow
    } else {
        let production = productions[j];
        match spec_position_of(production, name, 0) {
            Option::None => spec_follow_productions(g, current, productions, j + 1, follow, name, fuel),
            Option::Some(index) => {
                if index == production.len() - 1 {
                    let follow1 = if current != name {
                        spec_merge_follow(follow, spec_get_follow(g, current, (fuel - 1) as nat), 0)
                    } else {
                        follow
                    };
                    spec_follow_productions(g, current, productions, j + 1, follow1, name, fuel)
                } else {
                    let first = spec_first_string_from(
                        g,
                        production.skip(index + 1),
                        0,
                        Seq::empty(),
                        false,
                        false,
                        (fuel - 1) as nat,
                    );
                    let follow1 = spec_follow_elements(g, current, first, 0, follow, name, fuel);
                    spec_follow_productions(g, current, productions, j + 1, follow1, name, fuel)
                }
            },
        }
    }
}

/// The FOLLOW pass over the production store from entry `e`.
pub open spec fn spec_follow_keys(
    g: LlGrammarView,
    e: int,
    follow: Seq<Token>,
    name: Seq<char>,
    fuel: nat,
) -> Seq<Token>
    decreases fuel, 8int, g.productions.len() - e,
{
    if e < 0 || e >= g.productions.len() {
        follow
    } else {
        let follow1 = spec_follow_productions(
            g,
            g.productions[e].0,
            g.productions[e].1,
            0,
            follow,
            name,
            fuel,
        );
        spec_follow_keys(g, e + 1, follow1, name, fuel)
    }
}

/// The FOLLOW set of a non-terminal: the end marker for the start symbol,
/// then what every occurrence in a production contributes.
pub open spec fn spec_get_follow(g: LlGrammarView, name: Seq<char>, fuel: nat) -> Seq<Token>
    decreases fuel, 9int, 0int,
{
    if fuel == 0 {
        Seq::empty()
    } else {
        let base: Seq<Token> = if name == g.start_symbol {
            seq![Token::EndSymbol]
        } else {
            Seq::empty()
        };
        spec_follow_keys(g, 0, base, name, (fuel - 1) as nat)
    }
}

/// The fuel a public call provides, in terms of the store's size; the
/// contracts pin results for exactly this fuel.
pub open spec fn ll_default_fuel(g: LlGrammarView) -> nat {
    if 2 * g.productions.len() + 4 > usize::MAX {
        usize::MAX as nat
    } else {
        (2 * g.productions.len() + 4) as nat
    }
}

} // verus!
verus! {

/// The production store of the expression grammar, exactly as the
/// constructor fills it.
pub open spec fn ll_expression_productions() -> Seq<(Seq<char>, Seq<Seq<LlSymbolView>>)> {
    seq![
        (
            "E"@,
            seq![
                seq![
                    LlSymbolView::NonTerminal("T"@),
                    LlSymbolView::NonTerminal("E'"@),
                ],
            ],
        ),
        (
            "E'"@,
            seq![
                seq![
                    LlSymbolView::Terminal(Token::Plus),
                    LlSymbolView::NonTerminal("T"@),
                    LlSymbolView::NonTerminal("E'"@),
                ],
                Seq::<LlSymbolView>::empty(),
            ],
        ),
        (
            "T"@,
            seq![
                seq![
                    LlSymbolView::NonTerminal("F"@),
                    LlSymbolView::NonTerminal("T'"@),
                ],
            ],
        ),
        (
            "T'"@,
            seq![
                seq![
                    LlSymbolView::Terminal(Token::Times),
                    LlSymbolView::NonTerminal("F"@),
                    LlSymbolView::NonTerminal("T'"@),
                ],
                Seq::<LlSymbolView>::empty(),
            ],
        ),
        (
            "F"@,
            seq![
                seq![
                    LlSymbolView::Terminal(Token::OpenBracket),
                    LlSymbolView::NonTerminal("E"@),
                    LlSymbolView::Terminal(Token::ClosingBracket),
                ],
                seq![LlSymbolView::Terminal(Token::Id)],
            ],
        ),
    ]
}

/// Whether a token list holds a token.
fn vec_contains_token(tokens: &Vec<Token>, token: Token) -> (r: bool)
    ensures
        r == tokens@.contains(token),
{
    let mut i: usize = 0;
    while i < tokens.len()
        invariant
            i <= tokens@.len(),
            forall|j: int| 0 <= j < i ==> tokens@[j] != token,
        decreases tokens@.len() - i,
    {
        if tokens[i] == token {
            return true;
        }
        i = i + 1;
    }
    proof {
        if tokens@.contains(token) {
            let j = choose|j: int| 0 <= j < tokens@.len() && tokens@[j] == token;
            assert(false);
        }
    }
    false
}

impl Grammar {
    /// The expression grammar with the separated start symbol `E`.
    pub fn new() -> (r: Grammar)
        ensures
            r@.productions == ll_expression_productions(),
            r@.start_symbol == "E"@,
    {
        let mut productions: Vec<(String, Vec<Vec<GrammarSymbol>>)> = Vec::new();

        let mut p: Vec<GrammarSymbol> = Vec::new();
        p.push(GrammarSymbol::NonTerminal("T".to_owned()));
        p.push(GrammarSymbol::NonTerminal("E'".to_owned()));
        let mut ps: Vec<Vec<GrammarSymbol>> = Vec::new();
        ps.push(p);
        productions.push(("E".to_owned(), ps));

        let mut p: Vec<GrammarSymbol> = Vec::new();
        p.push(GrammarSymbol::Terminal(Token::Plus));
        p.push(GrammarSymbol::NonTerminal("T".to_owned()));
        p.push(GrammarSymbol::NonTerminal("E'".to_owned()));
        let mut ps: Vec<Vec<GrammarSymbol>> = Vec::new();
        ps.push(p);
        ps.push(Vec::new());
        productions.push(("E'".to_owned(), ps));

        let mut p: Vec<GrammarSymbol> = Vec::new();
        p.push(GrammarSymbol::NonTerminal("F".to_owned()));
        p.push(GrammarSymbol::NonTerminal("T'".to_owned()));
        let mut ps: Vec<Vec<GrammarSymbol>> = Vec::new();
        ps.push(p);
        productions.push(("T".to_owned(), ps));

        let mut p: Vec<GrammarSymbol> = Vec::new();
        p.push(GrammarSymbol::Terminal(Token::Times));
        p.push(GrammarSymbol::NonTerminal("F".to_owned()));
        p.push(GrammarSymbol::NonTerminal("T'".to_owned()));
        let mut ps: Vec<Vec<GrammarSymbol>> = Vec::new();
        ps.push(p);
        ps.push(Vec::new());
        productions.push(("T'".to_owned(), ps));

        let mut p: Vec<GrammarSymbol> = Vec::new();
        p.push(GrammarSymbol::Terminal(Token::OpenBracket));
        p.push(GrammarSymbol::NonTerminal("E".to_owned()));
        p.push(GrammarSymbol::Terminal(Token::ClosingBracket));
        let mut ps: Vec<Vec<GrammarSymbol>> = Vec::new();
        ps.push(p);
        let mut p: Vec<GrammarSymbol> = Vec::new();
        p.push(GrammarSymbol::Terminal(Token::Id));
        ps.push(p);
        productions.push(("F".to_owned(), ps));

        let grammar = Grammar { productions, start_symbol: "E".to_owned() };
        proof {
            assert(grammar@.productions =~~= ll_expression_productions());
        }
        grammar
    }

    /// The production list of a name, if it has one.
    fn find_productions(&self, name: &str) -> (r: Option<&Vec<Vec<GrammarSymbol>>>)
        ensures
            match r {
                Option::Some(productions) => ll_lookup(self@.productions, name@, 0)
                    == Option::Some(ll_production_views(productions@)),
                Option::None => ll_lookup(self@.productions, name@, 0) is None,
            },
    {
        let key: String = name.to_owned();
        let mut i: usize = 0;
        while i < self.productions.len()
            invariant
                i <= self.productions@.len(),
                key@ == name@,
                ll_lookup(self@.productions, name@, 0) == ll_lookup(
                    self@.productions,
                    name@,
                    i as int,
                ),
            decreases self.productions@.len() - i,
        {
            if self.productions[i].0.eq(&key) {
                return Some(&self.productions[i].1);
            }
            i = i + 1;
        }
        None
    }

    /// The FIRST set of a non-terminal, in discovery order, with the
    /// empty-string marker where a production can vanish.
    pub fn get_first(&self, non_terminal: &str) -> (r: Vec<Token>)
        ensures
            r@ == spec_get_first(self@, non_terminal@, ll_default_fuel(self@)),
    {
        let fuel = self.default_fuel();
        self.get_first_fueled(non_terminal, fuel)
    }

    fn default_fuel(&self) -> (r: usize)
        ensures
            r as nat == ll_default_fuel(self@),
    {
        let n = self.productions.len();
        if n > (usize::MAX - 4) / 2 {
            usize::MAX
        } else {
            2 * n + 4
        }
    }

    fn get_first_fueled(&self, non_terminal: &str, fuel: usize) -> (r: Vec<Token>)
        ensures
            r@ == spec_get_first(self@, non_terminal@, fuel as nat),
        decreases fuel, 5int,
    {
        let mut first: Vec<Token> = Vec::new();
        if fuel == 0 {
            return first;
        }
        let productions = match self.find_productions(non_terminal) {
            Some(productions) => productions,
            None => {
                return first;
            },
        };
        let ghost prods = ll_production_views(productions@);
        let mut j: usize = 0;
        while j < productions.len()
            invariant
                j <= productions@.len(),
                prods == ll_production_views(productions@),
                fuel >= 1,
                spec_first_productions(self@, prods, 0, Seq::empty(), (fuel - 1) as nat)
                    == spec_first_productions(self@, prods, j as int, first@, (fuel - 1) as nat),
            decreases productions@.len() - j,
        {
            proof {
                assert(prods[j as int] == ll_symbol_views(productions@[j as int]@));
            }
            if productions[j].len() == 0 {
                first.push(Token::EmptySet);
            }
            let mut pieces = self.first_for_string_fueled(&productions[j], fuel - 1);
            let ghost first_mid = first@;
            let ghost pieces_view = pieces@;
            first.append(&mut pieces);
            proof {
                assert(first@ == first_mid + pieces_view);
            }
            j = j + 1;
        }
        first
    }

    /// The FIRST scan of one symbol string.
    fn first_for_string_fueled(&self, string: &Vec<GrammarSymbol>, fuel: usize) -> (r: Vec<Token>)
        ensures
            r@ == spec_first_string_from(
                self@,
                ll_symbol_views(string@),
                0,
                Seq::empty(),
                false,
                false,
                fuel as nat,
            ),
        decreases fuel, 4int,
    {
        let ghost sv = ll_symbol_views(string@);
        let mut first: Vec<Token> = Vec::new();
        let mut one_set_does_not_contain_empty_set = false;
        let mut set_contain_empty_set = false;
        let mut i: usize = 0;
        while i < string.len()
            invariant
                i <= string@.len(),
                sv == ll_symbol_views(string@),
                spec_first_string_from(self@, sv, 0, Seq::empty(), false, false, fuel as nat)
                    == spec_first_string_from(
                    self@,
                    sv,
                    i as int,
                    first@,
                    one_set_does_not_contain_empty_set,
                    set_contain_empty_set,
                    fuel as nat,
                ),
            decreases string@.len() - i,
        {
            proof {
                assert(sv[i as int] == string@[i as int]@);
            }
            match &string[i] {
                GrammarSymbol::Terminal(token) => {
                    if !vec_contains_token(&first, *token) {
                        first.push(*token);
                    }
                    one_set_does_not_contain_empty_set = true;
                    proof {
                        assert(spec_first_final(
                            first@,
                            true,
                            set_contain_empty_set,
                        ) == first@);
                    }
                    return first;
                },
                GrammarSymbol::NonTerminal(name) => {
                    if fuel == 0 {
                        proof {
                            assert(spec_first_final(
                                first@,
                                one_set_does_not_contain_empty_set,
                                set_contain_empty_set,
                            ) == spec_first_string_from(
                                self@,
                                sv,
                                i as int,
                                first@,
                                one_set_does_not_contain_empty_set,
                                set_contain_empty_set,
                                0nat,
                            ));
                        }
                        if !one_set_does_not_contain_empty_set && set_contain_empty_set {
                            first.push(Token::EmptySet);
                        }
                        return first;
                    }
                    let first_non_terminal = self.get_first_fueled(name.as_str(), fuel - 1);
                    let ghost first_pre = first@;
                    let mut contains_empty_set = false;
                    let mut k: usize = 0;
                    while k < first_non_terminal.len()
                        invariant
                            k <= first_non_terminal@.len(),
                            contains_empty_set <==> (exists|m: int|
                                0 <= m < k && first_non_terminal@[m] == Token::EmptySet),
                            spec_merge_first(first_pre, first_non_terminal@, 0) == spec_merge_first(
                                first@,
                                first_non_terminal@,
                                k as int,
                            ),
                        decreases first_non_terminal@.len() - k,
                    {
                        let token = first_non_terminal[k];
                        if token == Token::EmptySet {
                            contains_empty_set = true;
                        } else {
                            if !vec_contains_token(&first, token) {
                                first.push(token);
                            }
                        }
                        k = k + 1;
                    }
                    proof {
                        if contains_empty_set {
                            assert(first_non_terminal@.contains(Token::EmptySet));
                        }
                        if first_non_terminal@.contains(Token::EmptySet) {
                            let m = choose|m: int|
                                0 <= m < first_non_terminal@.len() && first_non_terminal@[m]
                                    == Token::EmptySet;
                            assert(contains_empty_set);
                        }
                    }
                    if contains_empty_set {
                        set_contain_empty_set = true;
                    } else {
                        one_set_does_not_contain_empty_set = true;
                    }
                    if !vec_contains_token(&first_non_terminal, Token::EndSymbol) {
                        if !one_set_does_not_contain_empty_set && set_contain_empty_set {
                            first.push(Token::EmptySet);
                        }
                        return first;
                    }
                },
                GrammarSymbol::EndSymbol => {
                    if !one_set_does_not_contain_empty_set && set_contain_empty_set {
                        first.push(Token::EmptySet);
                    }
                    return first;
                },
            }
            i = i + 1;
        }
        if !one_set_does_not_contain_empty_set && set_contain_empty_set {
            first.push(Token::EmptySet);
        }
        first
    }
}

} // verus!
verus! {

impl Grammar {
    /// The FOLLOW set of a non-terminal, in discovery order: the end marker
    /// first for the start symbol, then what each occurrence contributes.
    pub fn get_follow(&self, non_terminal: &str) -> (r: Vec<Token>)
        ensures
            r@ == spec_get_follow(self@, non_terminal@, ll_default_fuel(self@)),
    {
        let fuel = self.default_fuel();
        self.get_follow_fueled(non_terminal, fuel)
    }

    fn get_follow_fueled(&self, non_terminal: &str, fuel: usize) -> (r: Vec<Token>)
        ensures
            r@ == spec_get_follow(self@, non_terminal@, fuel as nat),
        decreases fuel, 9int,
    {
        let mut follow: Vec<Token> = Vec::new();
        if fuel == 0 {
            return follow;
        }
        if non_terminal_eq(non_terminal, self.start_symbol.as_str()) {
            follow.push(Token::EndSymbol);
        }
        proof {
            if non_terminal@ == self@.start_symbol {
                assert(follow@ =~= seq![Token::EndSymbol]);
            } else {
                assert(follow@ =~= Seq::<Token>::empty());
            }
        }
        if fuel == 1 {
            proof {
                lemma_follow_keys_zero_fuel(self@, 0, follow@, non_terminal@);
            }
            return follow;
        }
        let mut e: usize = 0;
        while e < self.productions.len()
            invariant
                e <= self.productions@.len(),
                fuel >= 2,
                spec_get_follow(self@, non_terminal@, fuel as nat) == spec_follow_keys(
                    self@,
                    e as int,
                    follow@,
                    non_terminal@,
                    (fuel - 1) as nat,
                ),
            decreases self.productions@.len() - e,
        {
            let ghost pre = follow@;
            let current = clone_string(&self.productions[e].0);
            let ghost prods = ll_production_views(self.productions@[e as int].1@);
            let mut j: usize = 0;
            while j < self.productions[e].1.len()
                invariant
                    e < self.productions@.len(),
                    j <= self.productions@[e as int].1@.len(),
                    fuel >= 2,
                    current@ == self@.productions[e as int].0,
                    prods == ll_production_views(self.productions@[e as int].1@),
                    prods == self@.productions[e as int].1,
                    spec_follow_productions(
                        self@,
                        current@,
                        prods,
                        0,
                        pre,
                        non_terminal@,
                        (fuel - 1) as nat,
                    ) == spec_follow_productions(
                        self@,
                        current@,
                        prods,
                        j as int,
                        follow@,
                        non_terminal@,
                        (fuel - 1) as nat,
                    ),
                decreases self.productions@[e as int].1@.len() - j,
            {
                proof {
                    assert(prods[j as int] == ll_symbol_views(
                        self.productions@[e as int].1@[j as int]@,
                    ));
                }
                let position = position_of_non_terminal(&self.productions[e].1[j], non_terminal);
                match position {
                    None => {},
                    Some(index) => {
                        let production_len = self.productions[e].1[j].len();
                        if index == production_len - 1 {
                            if !non_terminal_eq(current.as_str(), non_terminal) {
                                let parent_follow = self.get_follow_fueled(
                                    current.as_str(),
                                    fuel - 2,
                                );
                                merge_follow(&mut follow, &parent_follow);
                            }
                        } else {
                            let rest = symbols_after(&self.productions[e].1[j], index + 1);
                            proof {
                                assert(ll_symbol_views(rest@) =~= prods[j as int].skip(index + 1));
                            }
                            let first = self.first_for_string_fueled(&rest, fuel - 2);
                            let ghost follow_pre = follow@;
                            let mut k: usize = 0;
                            while k < first.len()
                                invariant
                                    k <= first@.len(),
                                    fuel >= 2,
                                    current@ == self@.productions[e as int].0,
                                    spec_follow_elements(
                                        self@,
                                        current@,
                                        first@,
                                        0,
                                        follow_pre,
                                        non_terminal@,
                                        (fuel - 1) as nat,
                                    ) == spec_follow_elements(
                                        self@,
                                        current@,
                                        first@,
                                        k as int,
                                        follow@,
                                        non_terminal@,
                                        (fuel - 1) as nat,
                                    ),
                                decreases first@.len() - k,
                            {
                                let element = first[k];
                                if element == Token::EmptySet {
                                    if !non_terminal_eq(current.as_str(), non_terminal) {
                                        let parent_follow = self.get_follow_fueled(
                                            current.as_str(),
                                            fuel - 2,
                                        );
                                        merge_follow(&mut follow, &parent_follow);
                                    }
                                } else {
                                    if !vec_contains_token(&follow, element) {
                                        follow.push(element);
                                    }
                                }
                                k = k + 1;
                            }
                        }
                    },
                }
                j = j + 1;
            }
            e = e + 1;
        }
        follow
    }

    /// The predictive parse table of the expression grammar: for each
    /// non-terminal, the production chosen on each lookahead token.
    pub fn get_parse_table(&self) -> (r: Vec<(String, Vec<(Token, Vec<GrammarSymbol>)>)>)
        ensures
            ll_table_views(r@) == ll_parse_table(),
    {
        let mut e_line: Vec<(Token, Vec<GrammarSymbol>)> = Vec::new();
        let mut p: Vec<GrammarSymbol> = Vec::new();
        p.push(GrammarSymbol::NonTerminal("T".to_owned()));
        p.push(GrammarSymbol::NonTerminal("E'".to_owned()));
        e_line.push((Token::OpenBracket, p));
        let mut p: Vec<GrammarSymbol> = Vec::new();
        p.push(GrammarSymbol::NonTerminal("T".to_owned()));
        p.push(GrammarSymbol::NonTerminal("E'".to_owned()));
        e_line.push((Token::Id, p));

        let mut e_stroke_line: Vec<(Token, Vec<GrammarSymbol>)> = Vec::new();
        e_stroke_line.push((Token::ClosingBracket, Vec::new()));
        let mut p: Vec<GrammarSymbol> = Vec::new();
        p.push(GrammarSymbol::Terminal(Token::Plus));
        p.push(GrammarSymbol::NonTerminal("T".to_owned()));
        p.push(GrammarSymbol::NonTerminal("E'".to_owned()));
        e_stroke_line.push((Token::Plus, p));
        e_stroke_line.push((Token::EndSymbol, Vec::new()));

        let mut t_line: Vec<(Token, Vec<GrammarSymbol>)> = Vec::new();
        let mut p: Vec<GrammarSymbol> = Vec::new();
        p.push(GrammarSymbol::NonTerminal("F".to_owned()));
        p.push(GrammarSymbol::NonTerminal("T'".to_owned()));
        t_line.push((Token::OpenBracket, p));
        let mut p: Vec<GrammarSymbol> = Vec::new();
        p.push(GrammarSymbol::NonTerminal("F".to_owned()));
        p.push(GrammarSymbol::NonTerminal("T'".to_owned()));
        t_line.push((Token::Id, p));

        let mut t_stroke_line: Vec<(Token, Vec<GrammarSymbol>)> = Vec::new();
        t_stroke_line.push((Token::ClosingBracket, Vec::new()));
        t_stroke_line.push((Token::Plus, Vec::new()));
        let mut p: Vec<GrammarSymbol> = Vec::new();
        p.push(GrammarSymbol::Terminal(Token::Times));
        p.push(GrammarSymbol::NonTerminal("F".to_owned()));
        p.push(GrammarSymbol::NonTerminal("T'".to_owned()));
        t_stroke_line.push((Token::Times, p));
        t_stroke_line.push((Token::EndSymbol, Vec::new()));

        let mut f_line: Vec<(Token, Vec<GrammarSymbol>)> = Vec::new();
        let mut p: Vec<GrammarSymbol> = Vec::new();
        p.push(GrammarSymbol::Terminal(Token::Id));
        f_line.push((Token::Id, p));
        let mut p: Vec<GrammarSymbol> = Vec::new();
        p.push(GrammarSymbol::Terminal(Token::OpenBracket));
        p.push(GrammarSymbol::NonTerminal("E".to_owned()));
        p.push(GrammarSymbol::Terminal(Token::ClosingBracket));
        f_line.push((Token::OpenBracket, p));

        let mut table: Vec<(String, Vec<(Token, Vec<GrammarSymbol>)>)> = Vec::new();
        table.push(("E".to_owned(), e_line));
        table.push(("E'".to_owned(), e_stroke_line));
        table.push(("T".to_owned(), t_line));
        table.push(("T'".to_owned(), t_stroke_line));
        table.push(("F".to_owned(), f_line));
        proof {
            let v = ll_table_views(table@);
            let s = ll_parse_table();
            assert forall|i: int| 0 <= i < 5 implies v[i].1 =~~= s[i].1 by {}
            assert forall|i: int| 0 <= i < 5 implies v[i] == s[i] by {
                assert(v[i].0 =~= s[i].0);
            }
            assert(v =~= s);
        }
        table
    }
}

/// The values of a parse table.
pub open spec fn ll_table_views(table: Seq<(String, Vec<(Token, Vec<GrammarSymbol>)>)>) -> Seq<
    (Seq<char>, Seq<(Token, Seq<LlSymbolView>)>),
> {
    Seq::new(
        table.len(),
        |i: int|
            (
                table[i].0@,
                Seq::new(
                    table[i].1@.len(),
                    |j: int| (table[i].1@[j].0, ll_symbol_views(table[i].1@[j].1@)),
                ),
            ),
    )
}

/// The predictive parse table of the expression grammar.
pub open spec fn ll_parse_table() -> Seq<(Seq<char>, Seq<(Token, Seq<LlSymbolView>)>)> {
    seq![
        (
            "E"@,
            seq![
                (
                    Token::OpenBracket,
                    seq![LlSymbolView::NonTerminal("T"@), LlSymbolView::NonTerminal("E'"@)],
                ),
                (
                    Token::Id,
                    seq![LlSymbolView::NonTerminal("T"@), LlSymbolView::NonTerminal("E'"@)],
                ),
            ],
        ),
        (
            "E'"@,
            seq![
                (Token::ClosingBracket, Seq::<LlSymbolView>::empty()),
                (
                    Token::Plus,
                    seq![
                        LlSymbolView::Terminal(Token::Plus),
                        LlSymbolView::NonTerminal("T"@),
                        LlSymbolView::NonTerminal("E'"@),
                    ],
                ),
                (Token::EndSymbol, Seq::<LlSymbolView>::empty()),
            ],
        ),
        (
            "T"@,
            seq![
                (
                    Token::OpenBracket,
                    seq![LlSymbolView::NonTerminal("F"@), LlSymbolView::NonTerminal("T'"@)],
                ),
                (
                    Token::Id,
                    seq![LlSymbolView::NonTerminal("F"@), LlSymbolView::NonTerminal("T'"@)],
                ),
            ],
        ),
        (
            "T'"@,
            seq![
                (Token::ClosingBracket, Seq::<LlSymbolView>::empty()),
                (Token::Plus, Seq::<LlSymbolView>::empty()),
                (
                    Token::Times,
                    seq![
                        LlSymbolView::Terminal(Token::Times),
                        LlSymbolView::NonTerminal("F"@),
                        LlSymbolView::NonTerminal("T'"@),
                    ],
                ),
                (Token::EndSymbol, Seq::<LlSymbolView>::empty()),
            ],
        ),
        (
            "F"@,
            seq![
                (Token::Id, seq![LlSymbolView::Terminal(Token::Id)]),
                (
                    Token::OpenBracket,
                    seq![
                        LlSymbolView::Terminal(Token::OpenBracket),
                        LlSymbolView::NonTerminal("E"@),
                        LlSymbolView::Terminal(Token::ClosingBracket),
                    ],
                ),
            ],
        ),
    ]
}

/// With no fuel, the FOLLOW pass over the store leaves the set alone.
proof fn lemma_follow_keys_zero_fuel(g: LlGrammarView, e: int, follow: Seq<Token>, name: Seq<char>)
    ensures
        spec_follow_keys(g, e, follow, name, 0nat) == follow,
    decreases g.productions.len() - e,
{
    if 0 <= e < g.productions.len() {
        assert(spec_follow_productions(
            g,
            g.productions[e].0,
            g.productions[e].1,
            0,
            follow,
            name,
            0nat,
        ) == follow);
        lemma_follow_keys_zero_fuel(g, e + 1, follow, name);
    }
}

/// Whether two names are the same.
fn non_terminal_eq(a: &str, b: &str) -> (r: bool)
    ensures
        r == (a@ == b@),
{
    let a_owned: String = a.to_owned();
    let b_owned: String = b.to_owned();
    a_owned.eq(&b_owned)
}

/// A copy of a name.
fn clone_string(s: &String) -> (r: String)
    ensures
        r@ == s@,
{
    s.clone()
}

/// The first position of a non-terminal in a production.
fn position_of_non_terminal(production: &Vec<GrammarSymbol>, name: &str) -> (r: Option<usize>)
    ensures
        match r {
            Option::Some(index) => spec_position_of(ll_symbol_views(production@), name@, 0)
                == Option::Some(index as int) && index < production@.len(),
            Option::None => spec_position_of(ll_symbol_views(production@), name@, 0) is None,
        },
{
    let ghost sv = ll_symbol_views(production@);
    let mut i: usize = 0;
    while i < production.len()
        invariant
            i <= production@.len(),
            sv == ll_symbol_views(production@),
            spec_position_of(sv, name@, 0) == spec_position_of(sv, name@, i as int),
        decreases production@.len() - i,
    {
        proof {
            assert(sv[i as int] == production@[i as int]@);
        }
        let found = match &production[i] {
            GrammarSymbol::NonTerminal(n) => non_terminal_eq(n.as_str(), name),
            _ => false,
        };
        if found {
            return Some(i);
        }
        i = i + 1;
    }
    None
}

/// The symbols of a production from position `start` on.
fn symbols_after(production: &Vec<GrammarSymbol>, start: usize) -> (r: Vec<GrammarSymbol>)
    requires
        start <= production@.len(),
    ensures
        ll_symbol_views(r@) == ll_symbol_views(production@).skip(start as int),
{
    let mut out: Vec<GrammarSymbol> = Vec::new();
    let mut i: usize = start;
    while i < production.len()
        invariant
            start <= i <= production@.len(),
            out@.len() == i - start,
            forall|j: int| 0 <= j < out@.len() ==> (#[trigger] out@[j])@ == production@[start + j]@,
        decreases production@.len() - i,
    {
        out.push(production[i].clone());
        i = i + 1;
    }
    proof {
        assert(ll_symbol_views(out@) =~= ll_symbol_views(production@).skip(start as int));
    }
    out
}

/// Tokens merged into a FOLLOW set without duplicates.
fn merge_follow(follow: &mut Vec<Token>, found: &Vec<Token>)
    ensures
        final(follow)@ == spec_merge_follow(old(follow)@, found@, 0),
{
    let mut k: usize = 0;
    while k < found.len()
        invariant
            k <= found@.len(),
            spec_merge_follow(old(follow)@, found@, 0) == spec_merge_follow(
                follow@,
                found@,
                k as int,
            ),
        decreases found@.len() - k,
    {
        let token = found[k];
        if !vec_contains_token(follow, token) {
            follow.push(token);
        }
        k = k + 1;
    }
}

} // verus!
