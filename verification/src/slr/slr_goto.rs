//! The goto step of the SLR construction: which grammar symbols lead out of a
//! state, and the productions a symbol leads to, each with its cursor moved
//! one ahead.

use vstd::prelude::*;

use crate::slr::grammar::GrammarSymbol;
use crate::slr::grammar::GrammarSymbolView;
use crate::slr::slr_closure::production_views;
use crate::slr::slr_closure::Production;
use crate::slr::slr_closure::ProductionView;

verus! {

pub struct SlrGoto {}

/// The symbols right of the cursors of `productions[i..]`, in order, with
/// finished productions passed over.
pub open spec fn spec_goto_symbols(productions: Seq<ProductionView>, i: int) -> Seq<
    GrammarSymbolView,
>
    decreases productions.len() - i,
{
    if i < 0 || i >= productions.len() {
        Seq::empty()
    } else {
        match spec_next_symbol(productions[i]) {
            Option::Some(symbol) => seq![symbol] + spec_goto_symbols(productions, i + 1),
            Option::None => spec_goto_symbols(productions, i + 1),
        }
    }
}

/// The symbol right of a production's cursor, if the cursor is not at the end.
pub open spec fn spec_next_symbol(production: ProductionView) -> Option<GrammarSymbolView> {
    if production.cursor < production.elements.len() {
        Option::Some(production.elements[production.cursor as int])
    } else {
        Option::None
    }
}

/// The productions of `productions[i..]` whose next symbol is `symbol`, each
/// with its cursor moved ahead.
pub open spec fn spec_goto(
    productions: Seq<ProductionView>,
    symbol: GrammarSymbolView,
    i: int,
) -> Seq<ProductionView>
    decreases productions.len() - i,
{
    if i < 0 || i >= productions.len() {
        Seq::empty()
    } else {
        let rest = spec_goto(productions, symbol, i + 1);
        if spec_next_symbol(productions[i]) == Option::Some(symbol) {
            seq![
                ProductionView {
                    cursor: (productions[i].cursor + 1) as usize,
                    ..productions[i]
                },
            ] + rest
        } else {
            rest
        }
    }
}

impl SlrGoto {
    /// The symbols that lead out of a state: every symbol standing right of a
    /// cursor.
    pub fn get_goto_symbols(productions: &Vec<Production>) -> (r: Vec<GrammarSymbol>)
        ensures
            crate::slr::grammar::symbol_views(r@) == spec_goto_symbols(
                production_views(productions@),
                0,
            ),
    {
        let ghost pv = production_views(productions@);
        let mut result: Vec<GrammarSymbol> = Vec::new();
        let mut i: usize = 0;
        while i < productions.len()
            invariant
                i <= productions@.len(),
                pv == production_views(productions@),
                spec_goto_symbols(pv, 0) == crate::slr::grammar::symbol_views(result@)
                    + spec_goto_symbols(pv, i as int),
            decreases productions@.len() - i,
        {
            let ghost pre = result@;
            match productions[i].get_next_grammar_symbol() {
                Some(symbol) => {
                    result.push(symbol.clone());
                    proof {
                        assert(crate::slr::grammar::symbol_views(result@) =~= crate::slr::grammar::symbol_views(
                            pre,
                        ).push(result@[result@.len() - 1]@));
                    }
                },
                None => {},
            }
            i = i + 1;
        }
        proof {
            assert(crate::slr::grammar::symbol_views(result@) + spec_goto_symbols(pv, i as int)
                =~= crate::slr::grammar::symbol_views(result@));
        }
        result
    }

    /// The productions whose next symbol is `symbol`, cursors moved ahead.
    pub fn get_goto(symbol: &GrammarSymbol, productions: &Vec<Production>) -> (r: Vec<Production>)
        ensures
            production_views(r@) == spec_goto(production_views(productions@), symbol@, 0),
    {
        let ghost pv = production_views(productions@);
        let mut result: Vec<Production> = Vec::new();
        let mut i: usize = 0;
        while i < productions.len()
            invariant
                i <= productions@.len(),
                pv == production_views(productions@),
                spec_goto(pv, symbol@, 0) == production_views(result@) + spec_goto(
                    pv,
                    symbol@,
                    i as int,
                ),
            decreases productions@.len() - i,
        {
            let ghost pre = result@;
            let next_matches = match productions[i].get_next_grammar_symbol() {
                Some(next_symbol) => next_symbol == symbol,
                None => false,
            };
            if next_matches {
                let mut production = productions[i].clone();
                proof {
                    assert(production@.cursor < production@.elements.len());
                }
                production.move_cursor_ahead();
                result.push(production);
                proof {
                    assert(production_views(result@) =~= production_views(pre).push(
                        result@[result@.len() - 1]@,
                    ));
                }
            }
            i = i + 1;
        }
        proof {
            assert(production_views(result@) + spec_goto(pv, symbol@, i as int) =~= production_views(
                result@,
            ));
        }
        result
    }
}

} // verus!
