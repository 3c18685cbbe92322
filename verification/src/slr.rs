//! An SLR parser exercise over a four-symbol arithmetic grammar: tokens,
//! parser reactions, reductions and the small arithmetic syntax tree that the
//! reductions build.

pub mod ast;
pub mod first;
pub mod first_calculator;
pub mod follow;
pub mod grammar;
pub mod slr_closure;
pub mod slr_goto;

use vstd::prelude::*;

use crate::slr::ast::Ast;

verus! {

/// A lexer token: its text, and whether it marks the end of the input.
#[derive(Debug)]
pub struct Token {
    pub value: String,
    pub is_end_symbol: bool,
}

/// The mathematical value of a token.
pub struct TokenView {
    pub value: Seq<char>,
    pub is_end_symbol: bool,
}

impl View for Token {
    type V = TokenView;

    open spec fn view(&self) -> TokenView {
        TokenView { value: self.value@, is_end_symbol: self.is_end_symbol }
    }
}

impl Token {
    /// An ordinary token with the given text.
    pub fn new(value: &str) -> (r: Token)
        ensures
            r@.value == value@,
            r@.is_end_symbol == false,
    {
        Token { value: value.to_owned(), is_end_symbol: false }
    }

    /// The token that closes a token stream. The flag is left unset, so it
    /// compares equal to an ordinary token with the same text.
    pub fn end_token(value: &str) -> (r: Token)
        ensures
            r@.value == value@,
            r@.is_end_symbol == false,
    {
        Token { value: value.to_owned(), is_end_symbol: false }
    }
}

impl Clone for Token {
    fn clone(&self) -> (r: Token)
        ensures
            r@ == self@,
    {
        Token { value: self.value.clone(), is_end_symbol: self.is_end_symbol }
    }
}

impl PartialEq for Token {
    fn eq(&self, other: &Token) -> (r: bool) {
        self.value.eq(&other.value) && self.is_end_symbol == other.is_end_symbol
    }
}

impl vstd::std_specs::cmp::PartialEqSpecImpl for Token {
    open spec fn obeys_eq_spec() -> bool {
        true
    }

    open spec fn eq_spec(&self, other: &Token) -> bool {
        self@.value == other@.value && self@.is_end_symbol == other@.is_end_symbol
    }
}

/// What the reduction does to the arithmetic tree stack.
#[derive(Clone, Copy, Debug, PartialEq, Eq, Structural)]
pub enum AstOperation {
    Nothing,
    CreateNumber,
    CreateAddition,
    CreateMultiplication,
    CreateCalculation,
}

/// A reduction: the non-terminal reduced to, how many states it pops, and
/// the tree operation it performs.
#[derive(Debug)]
pub struct Reduction {
    pub non_terminal: String,
    pub amount_of_elements_on_stack: usize,
    pub ast_function: AstOperation,
}

/// The mathematical value of a reduction.
pub struct ReductionView {
    pub non_terminal: Seq<char>,
    pub amount_of_elements_on_stack: usize,
    pub ast_function: AstOperation,
}

impl View for Reduction {
    type V = ReductionView;

    open spec fn view(&self) -> ReductionView {
        ReductionView {
            non_terminal: self.non_terminal@,
            amount_of_elements_on_stack: self.amount_of_elements_on_stack,
            ast_function: self.ast_function,
        }
    }
}

impl Reduction {
    /// A reduction that leaves the tree stack alone.
    pub fn new(non_terminal: &str, amount_of_elements_on_stack: usize) -> (r: Reduction)
        ensures
            r@.non_terminal == non_terminal@,
            r@.amount_of_elements_on_stack == amount_of_elements_on_stack,
            r@.ast_function == AstOperation::Nothing,
    {
        Self::with_function(non_terminal, amount_of_elements_on_stack, AstOperation::Nothing)
    }

    /// A reduction with a tree operation.
    pub fn with_function(
        non_terminal: &str,
        amount_of_elements_on_stack: usize,
        ast_function: AstOperation,
    ) -> (r: Reduction)
        ensures
            r@.non_terminal == non_terminal@,
            r@.amount_of_elements_on_stack == amount_of_elements_on_stack,
            r@.ast_function == ast_function,
    {
        Reduction {
            non_terminal: non_terminal.to_owned(),
            amount_of_elements_on_stack,
            ast_function,
        }
    }
}

impl Clone for Reduction {
    fn clone(&self) -> (r: Reduction)
        ensures
            r@ == self@,
    {
        Reduction {
            non_terminal: self.non_terminal.clone(),
            amount_of_elements_on_stack: self.amount_of_elements_on_stack,
            ast_function: self.ast_function,
        }
    }
}

impl PartialEq for Reduction {
    /// Two reductions are the same when they reduce to the same non-terminal
    /// and pop the same amount; the tree operation is not compared.
    fn eq(&self, other: &Reduction) -> (r: bool) {
        self.non_terminal.eq(&other.non_terminal) && self.amount_of_elements_on_stack
            == other.amount_of_elements_on_stack
    }
}

impl vstd::std_specs::cmp::PartialEqSpecImpl for Reduction {
    open spec fn obeys_eq_spec() -> bool {
        true
    }

    open spec fn eq_spec(&self, other: &Reduction) -> bool {
        self@.non_terminal == other@.non_terminal && self@.amount_of_elements_on_stack
            == other@.amount_of_elements_on_stack
    }
}

/// What the parser does on one token: shift, reduce, or accept.
#[derive(Debug)]
pub enum Reaction {
    ShiftTo(usize),
    Reduce(Reduction),
    Accept,
}

/// The mathematical value of a reaction.
pub enum ReactionView {
    ShiftTo(usize),
    Reduce(ReductionView),
    Accept,
}

impl View for Reaction {
    type V = ReactionView;

    open spec fn view(&self) -> ReactionView {
        match self {
            Reaction::ShiftTo(state) => ReactionView::ShiftTo(*state),
            Reaction::Reduce(reduction) => ReactionView::Reduce(reduction@),
            Reaction::Accept => ReactionView::Accept,
        }
    }
}

impl Clone for Reaction {
    fn clone(&self) -> (r: Reaction)
        ensures
            r@ == self@,
    {
        match self {
            Reaction::ShiftTo(state) => Reaction::ShiftTo(*state),
            Reaction::Reduce(reduction) => Reaction::Reduce(reduction.clone()),
            Reaction::Accept => Reaction::Accept,
        }
    }
}

impl PartialEq for Reaction {
    fn eq(&self, other: &Reaction) -> (r: bool) {
        match (self, other) {
            (Reaction::ShiftTo(a), Reaction::ShiftTo(b)) => a == b,
            (Reaction::Reduce(a), Reaction::Reduce(b)) => a == b,
            (Reaction::Accept, Reaction::Accept) => true,
            _ => false,
        }
    }
}

impl vstd::std_specs::cmp::PartialEqSpecImpl for Reaction {
    open spec fn obeys_eq_spec() -> bool {
        true
    }

    open spec fn eq_spec(&self, other: &Reaction) -> bool {
        match (self@, other@) {
            (ReactionView::ShiftTo(a), ReactionView::ShiftTo(b)) => a == b,
            (ReactionView::Reduce(a), ReactionView::Reduce(b)) => a.non_terminal == b.non_terminal
                && a.amount_of_elements_on_stack == b.amount_of_elements_on_stack,
            (ReactionView::Accept, ReactionView::Accept) => true,
            _ => false,
        }
    }
}

/// Applies a reduction's tree operation to the tree stack. Operations that
/// consume operands want them on the stack.
pub fn apply_ast_operation(operation: AstOperation, ast_stack: &mut Vec<Ast>)
    requires
        (operation == AstOperation::CreateAddition || operation
            == AstOperation::CreateMultiplication) ==> old(ast_stack)@.len() >= 2,
        operation == AstOperation::CreateCalculation ==> old(ast_stack)@.len() >= 1,
    ensures
        match operation {
            AstOperation::Nothing => final(ast_stack)@ == old(ast_stack)@,
            AstOperation::CreateNumber => final(ast_stack)@ == old(ast_stack)@.push(
                Ast::Number(0),
            ),
            AstOperation::CreateAddition => final(ast_stack)@ == old(ast_stack)@.subrange(
                0,
                old(ast_stack)@.len() - 2,
            ).push(
                Ast::Add(
                    Box::new(old(ast_stack)@[old(ast_stack)@.len() - 1]),
                    Box::new(old(ast_stack)@[old(ast_stack)@.len() - 2]),
                ),
            ),
            AstOperation::CreateMultiplication => final(ast_stack)@ == old(ast_stack)@.subrange(
                0,
                old(ast_stack)@.len() - 2,
            ).push(
                Ast::Multiply(
                    Box::new(old(ast_stack)@[old(ast_stack)@.len() - 1]),
                    Box::new(old(ast_stack)@[old(ast_stack)@.len() - 2]),
                ),
            ),
            AstOperation::CreateCalculation => final(ast_stack)@ == old(ast_stack)@.subrange(
                0,
                old(ast_stack)@.len() - 1,
            ).push(Ast::Calculation(Box::new(old(ast_stack)@[old(ast_stack)@.len() - 1]))),
        },
{
    match operation {
        AstOperation::Nothing => {},
        AstOperation::CreateNumber => crate::slr::ast::ast_create_number(ast_stack),
        AstOperation::CreateAddition => crate::slr::ast::ast_create_addition(ast_stack),
        AstOperation::CreateMultiplication => crate::slr::ast::ast_create_multiplication(ast_stack),
        AstOperation::CreateCalculation => crate::slr::ast::ast_create_calculation(ast_stack),
    }
}

} // verus!
