//! The arithmetic syntax tree that the parser's reductions build, with one
//! stack operation per reduction kind.

use vstd::pervasive::unreached;
use vstd::prelude::*;

verus! {

/// A node of the arithmetic tree.
#[derive(Debug, PartialEq)]
pub enum Ast {
    Add(Box<Ast>, Box<Ast>),
    Calculation(Box<Ast>),
    Multiply(Box<Ast>, Box<Ast>),
    Number(usize),
}

/// Pops two operands and pushes their sum node.
pub fn ast_create_addition(ast_stack: &mut Vec<Ast>)
    requires
        old(ast_stack)@.len() >= 2,
    ensures
        final(ast_stack)@ == old(ast_stack)@.subrange(0, old(ast_stack)@.len() - 2).push(
            Ast::Add(
                Box::new(old(ast_stack)@[old(ast_stack)@.len() - 1]),
                Box::new(old(ast_stack)@[old(ast_stack)@.len() - 2]),
            ),
        ),
{
    let left_summand = match ast_stack.pop() {
        Some(ast) => ast,
        None => unreached(),
    };
    let right_summand = match ast_stack.pop() {
        Some(ast) => ast,
        None => unreached(),
    };
    ast_stack.push(Ast::Add(Box::new(left_summand), Box::new(right_summand)));
    proof {
        assert(final(ast_stack)@ =~= old(ast_stack)@.subrange(0, old(ast_stack)@.len() - 2).push(
            Ast::Add(
                Box::new(old(ast_stack)@[old(ast_stack)@.len() - 1]),
                Box::new(old(ast_stack)@[old(ast_stack)@.len() - 2]),
            ),
        ));
    }
}

/// Pops the last tree and pushes it wrapped as a bracketed calculation.
pub fn ast_create_calculation(ast_stack: &mut Vec<Ast>)
    requires
        old(ast_stack)@.len() >= 1,
    ensures
        final(ast_stack)@ == old(ast_stack)@.subrange(0, old(ast_stack)@.len() - 1).push(
            Ast::Calculation(Box::new(old(ast_stack)@[old(ast_stack)@.len() - 1])),
        ),
{
    let last_element = match ast_stack.pop() {
        Some(ast) => ast,
        None => unreached(),
    };
    ast_stack.push(Ast::Calculation(Box::new(last_element)));
    proof {
        assert(final(ast_stack)@ =~= old(ast_stack)@.subrange(0, old(ast_stack)@.len() - 1).push(
            Ast::Calculation(Box::new(old(ast_stack)@[old(ast_stack)@.len() - 1])),
        ));
    }
}

/// Pops two operands and pushes their product node.
pub fn ast_create_multiplication(ast_stack: &mut Vec<Ast>)
    requires
        old(ast_stack)@.len() >= 2,
    ensures
        final(ast_stack)@ == old(ast_stack)@.subrange(0, old(ast_stack)@.len() - 2).push(
            Ast::Multiply(
                Box::new(old(ast_stack)@[old(ast_stack)@.len() - 1]),
                Box::new(old(ast_stack)@[old(ast_stack)@.len() - 2]),
            ),
        ),
{
    let left_multiplier = match ast_stack.pop() {
        Some(ast) => ast,
        None => unreached(),
    };
    let right_multiplier = match ast_stack.pop() {
        Some(ast) => ast,
        None => unreached(),
    };
    ast_stack.push(Ast::Multiply(Box::new(left_multiplier), Box::new(right_multiplier)));
    proof {
        assert(final(ast_stack)@ =~= old(ast_stack)@.subrange(0, old(ast_stack)@.len() - 2).push(
            Ast::Multiply(
                Box::new(old(ast_stack)@[old(ast_stack)@.len() - 1]),
                Box::new(old(ast_stack)@[old(ast_stack)@.len() - 2]),
            ),
        ));
    }
}

/// Pushes the placeholder number leaf.
pub fn ast_create_number(ast_stack: &mut Vec<Ast>)
    ensures
        final(ast_stack)@ == old(ast_stack)@.push(Ast::Number(0)),
{
    ast_stack.push(Ast::Number(0));
}

} // verus!
