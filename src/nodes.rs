use vstd::prelude::*;

verus! {

/// The four binary operators of an arithmetic block.
#[derive(PartialEq, Eq, Structural, Clone, Copy, Debug)]
pub enum Operator {
    Add,
    Sub,
    Mul,
    Div,
}

/// One element of a parsed template.
///
/// A float literal is kept as the literal's text: its binary value is
/// computed by whoever does the floating-point arithmetic.
#[derive(Debug)]
pub enum Node {
    Text(String),
    VariableBlock(Box<Node>),
    Identifier(String),
    Int(i64),
    Float(String),
    Math { operator: Operator, lhs: Box<Node>, rhs: Box<Node> },
}

/// The top of a parsed template: text spans and blocks in source order.
#[derive(Debug)]
pub struct Root {
    pub children: Vec<Node>,
}

impl Root {
    pub fn get_children(&self) -> (r: &Vec<Node>)
        ensures
            r@ == self.children@,
    {
        &self.children
    }
}

} // verus!
