use vstd::prelude::*;
use vstd::string::StringExecFns;
use crate::context::{lookup, rendered, Context, Value};
use crate::nodes::{Node, Operator, Root};
use crate::parser::{Parser, SyntaxError};

verus! {

/// An arithmetic block with every identifier resolved to a number: what is
/// left is floating-point evaluation. A number is given as decimal text.
#[derive(Debug)]
pub enum Arith {
    Int(i64),
    Number(String),
    Op { operator: Operator, lhs: Box<Arith>, rhs: Box<Arith> },
}

/// Why a template could not be rendered.
#[derive(Debug)]
pub enum RenderError {
    Syntax(SyntaxError),
    UndefinedVariable(String),
    NotNumeric(String),
    NotRenderable(String),
    InternalError,
}

/// The failures of rendering, over plain values.
pub enum Failure {
    UndefinedVariable(Seq<char>),
    NotNumeric(Seq<char>),
    NotRenderable(Seq<char>),
    Internal,
}

impl RenderError {
    pub open spec fn is_failure(self, f: Failure) -> bool {
        match f {
            Failure::UndefinedVariable(n) => self is UndefinedVariable
                && self->UndefinedVariable_0@ == n,
            Failure::NotNumeric(n) => self is NotNumeric && self->NotNumeric_0@ == n,
            Failure::NotRenderable(n) => self is NotRenderable && self->NotRenderable_0@ == n,
            Failure::Internal => self is InternalError,
        }
    }
}

/// The first failure met while evaluating an arithmetic operand, left to
/// right.
pub open spec fn arith_failure(n: Node, ctx: Value) -> Option<Failure>
    decreases n,
{
    match n {
        Node::Identifier(name) => match lookup(ctx, name@) {
            None => Some(Failure::UndefinedVariable(name@)),
            Some(v) => if v is Number {
                None
            } else {
                Some(Failure::NotNumeric(name@))
            },
        },
        Node::Int(_) => None,
        Node::Float(_) => None,
        Node::Math { operator, lhs, rhs } => match arith_failure(*lhs, ctx) {
            Some(f) => Some(f),
            None => arith_failure(*rhs, ctx),
        },
        _ => Some(Failure::Internal),
    }
}

/// `a` is the operand `n` with its identifiers replaced by their numbers.
pub open spec fn resolves_to(n: Node, ctx: Value, a: Arith) -> bool
    decreases n,
{
    match n {
        Node::Identifier(name) => a is Number && lookup(ctx, name@) is Some && lookup(
            ctx,
            name@,
        )->0 is Number && a->Number_0@ == lookup(ctx, name@)->0->Number_0@,
        Node::Int(v) => a == Arith::Int(v),
        Node::Float(s) => a is Number && a->Number_0@ == s@,
        Node::Math { operator, lhs, rhs } => match a {
            Arith::Op { operator: o, lhs: l, rhs: r } => o == operator && resolves_to(
                *lhs,
                ctx,
                *l,
            ) && resolves_to(*rhs, ctx, *r),
            _ => false,
        },
        _ => false,
    }
}

/// A block whose content is computed rather than looked up.
pub open spec fn is_arith_block(c: Node) -> bool {
    match c {
        Node::VariableBlock(e) => !(*e is Identifier),
        _ => false,
    }
}

/// The failure of a block whose content is `e`, if any.
pub open spec fn block_failure(e: Node, ctx: Value) -> Option<Failure> {
    match e {
        Node::Identifier(name) => match lookup(ctx, name@) {
            None => Some(Failure::UndefinedVariable(name@)),
            Some(v) => if rendered(v) is Some {
                None
            } else {
                Some(Failure::NotRenderable(name@))
            },
        },
        _ => arith_failure(e, ctx),
    }
}

/// The failure of one child of the root, if any.
pub open spec fn child_failure(c: Node, ctx: Value) -> Option<Failure> {
    match c {
        Node::Text(_) => None,
        Node::VariableBlock(e) => block_failure(*e, ctx),
        _ => Some(Failure::Internal),
    }
}

/// The first failure among the first `i` children.
pub open spec fn failure_before(children: Seq<Node>, ctx: Value, i: int) -> Option<Failure>
    decreases i,
{
    if i <= 0 {
        None
    } else {
        match failure_before(children, ctx, i - 1) {
            Some(f) => Some(f),
            None => child_failure(children[i - 1], ctx),
        }
    }
}

pub open spec fn first_failure(children: Seq<Node>, ctx: Value) -> Option<Failure> {
    failure_before(children, ctx, children.len() as int)
}

/// The text one child contributes; `value` is the decimal text of the
/// block's arithmetic result, where it has one.
pub open spec fn piece(c: Node, ctx: Value, value: Seq<char>) -> Seq<char> {
    match c {
        Node::Text(s) => s@,
        Node::VariableBlock(e) => block_piece(*e, ctx, value),
        _ => Seq::empty(),
    }
}

/// The text a block whose content is `e` contributes.
pub open spec fn block_piece(e: Node, ctx: Value, value: Seq<char>) -> Seq<char> {
    match e {
        Node::Identifier(name) => rendered(lookup(ctx, name@)->0)->0,
        _ => value,
    }
}

/// The output of the first `i` children.
pub open spec fn output_before(
    children: Seq<Node>,
    ctx: Value,
    values: Seq<String>,
    i: int,
) -> Seq<char>
    decreases i,
{
    if i <= 0 {
        Seq::empty()
    } else {
        output_before(children, ctx, values, i - 1) + piece(children[i - 1], ctx, values[i - 1]@)
    }
}

pub open spec fn output(children: Seq<Node>, ctx: Value, values: Seq<String>) -> Seq<char> {
    output_before(children, ctx, values, children.len() as int)
}

/// The arithmetic that a render needs: one entry per child, set for each
/// computed block.
pub open spec fn plans(children: Seq<Node>, ctx: Value, plan: Seq<Option<Arith>>) -> bool {
    &&& plan.len() == children.len()
    &&& forall|i: int|
        0 <= i < children.len() ==> (#[trigger] plan[i] is Some <==> is_arith_block(children[i]))
    &&& forall|i: int|
        0 <= i < children.len() && is_arith_block(children[i]) ==> resolves_to(
            *children[i]->VariableBlock_0,
            ctx,
            #[trigger] plan[i]->0,
        )
}

proof fn lemma_failure_persists(children: Seq<Node>, ctx: Value, i: int, j: int)
    requires
        0 <= i <= j,
        failure_before(children, ctx, i) is Some,
    ensures
        failure_before(children, ctx, j) == failure_before(children, ctx, i),
    decreases j - i,
{
    if j > i {
        lemma_failure_persists(children, ctx, i, j - 1);
    }
}

/// Walks a parsed template against a context and accumulates its output.
#[derive(Debug)]
pub struct Renderer {
    pub output: String,
    pub context: Context,
    pub parser: Parser,
}

impl Renderer {
    pub fn new(parser: Parser, context: Context) -> (r: Renderer)
        ensures
            r.output@ == Seq::<char>::empty(),
            r.parser == parser,
            r.context == context,
    {
        Renderer { output: String::new(), parser, context }
    }

    /// Resolves an arithmetic operand against the context.
    pub fn eval_math(&self, node: &Node) -> (r: Result<Arith, RenderError>)
        ensures
            match arith_failure(*node, self.context.data) {
                Some(f) => r is Err && r->Err_0.is_failure(f),
                None => r is Ok && resolves_to(*node, self.context.data, r->Ok_0),
            },
        decreases node,
    {
        match node {
            Node::Identifier(name) => match self.context.get(name.as_str()) {
                None => Err(RenderError::UndefinedVariable(name.clone())),
                Some(v) => match v.to_number() {
                    None => Err(RenderError::NotNumeric(name.clone())),
                    Some(s) => Ok(Arith::Number(s)),
                },
            },
            Node::Int(v) => Ok(Arith::Int(*v)),
            Node::Float(s) => Ok(Arith::Number(s.clone())),
            Node::Math { operator, lhs, rhs } => {
                let l = match self.eval_math(lhs) {
                    Ok(l) => l,
                    Err(e) => return Err(e),
                };
                let r = match self.eval_math(rhs) {
                    Ok(r) => r,
                    Err(e) => return Err(e),
                };
                Ok(Arith::Op { operator: *operator, lhs: Box::new(l), rhs: Box::new(r) })
            },
            _ => Err(RenderError::InternalError),
        }
    }

    /// The text of the block whose content is `node`; `value` is the text of
    /// its arithmetic result where it has one.
    pub fn render_variable_block(&self, node: &Node, value: &String) -> (r: Result<
        String,
        RenderError,
    >)
        ensures
            match block_failure(*node, self.context.data) {
                Some(f) => r is Err && r->Err_0.is_failure(f),
                None => r is Ok && r->Ok_0@ == block_piece(*node, self.context.data, value@),
            },
    {
        match node {
            Node::Identifier(name) => match self.context.get(name.as_str()) {
                None => Err(RenderError::UndefinedVariable(name.clone())),
                Some(v) => match v.render() {
                    None => Err(RenderError::NotRenderable(name.clone())),
                    Some(s) => Ok(s),
                },
            },
            _ => match self.eval_math(node) {
                Err(e) => Err(e),
                Ok(_) => Ok(value.clone()),
            },
        }
    }

    /// Resolves the arithmetic of every computed block, in source order;
    /// fails with the first failure of the template.
    pub fn arithmetic(&self) -> (r: Result<Vec<Option<Arith>>, RenderError>)
        ensures
            match first_failure(self.parser.root.children@, self.context.data) {
                Some(f) => r is Err && r->Err_0.is_failure(f),
                None => r is Ok && plans(self.parser.root.children@, self.context.data, r->Ok_0@),
            },
    {
        let children = &self.parser.root.children;
        let ghost ctx = self.context.data;
        let mut plan: Vec<Option<Arith>> = Vec::new();
        let mut i: usize = 0;
        while i < children.len()
            invariant
                children == &self.parser.root.children,
                ctx == self.context.data,
                i <= children.len(),
                plan.len() == i,
                failure_before(children@, ctx, i as int) is None,
                forall|j: int|
                    0 <= j < i ==> (#[trigger] plan@[j] is Some <==> is_arith_block(children@[j])),
                forall|j: int|
                    0 <= j < i && is_arith_block(children@[j]) ==> resolves_to(
                        *children@[j]->VariableBlock_0,
                        ctx,
                        #[trigger] plan@[j]->0,
                    ),
            decreases children.len() - i,
        {
            let step: Result<Option<Arith>, RenderError> = match &children[i] {
                Node::Text(_) => Ok(None),
                Node::VariableBlock(e) => match &**e {
                    Node::Identifier(name) => match self.context.get(name.as_str()) {
                        None => Err(RenderError::UndefinedVariable(name.clone())),
                        Some(v) => match v.render() {
                            None => Err(RenderError::NotRenderable(name.clone())),
                            Some(_) => Ok(None),
                        },
                    },
                    _ => match self.eval_math(e) {
                        Err(err) => Err(err),
                        Ok(a) => Ok(Some(a)),
                    },
                },
                _ => Err(RenderError::InternalError),
            };
            match step {
                Err(err) => {
                    proof {
                        lemma_failure_persists(
                            children@,
                            ctx,
                            i as int + 1,
                            children.len() as int,
                        );
                    }
                    return Err(err);
                },
                Ok(x) => {
                    plan.push(x);
                },
            }
            i = i + 1;
        }
        Ok(plan)
    }

    /// Appends the output of the template to `output`. `values` holds, at
    /// the index of each computed block, the decimal text of its result.
    pub fn render(&mut self, values: &Vec<String>) -> (r: Result<(), RenderError>)
        requires
            values.len() == old(self).parser.root.children.len(),
        ensures
            final(self).parser == old(self).parser,
            final(self).context == old(self).context,
            match first_failure(old(self).parser.root.children@, old(self).context.data) {
                Some(f) => r is Err && r->Err_0.is_failure(f),
                None => r is Ok && final(self).output@ == old(self).output@ + output(
                    old(self).parser.root.children@,
                    old(self).context.data,
                    values@,
                ),
            },
    {
        let ghost start = self.output@;
        let ghost children = self.parser.root.children@;
        let ghost ctx = self.context.data;
        let n = self.parser.root.children.len();
        let mut i: usize = 0;
        while i < n
            invariant
                children == self.parser.root.children@,
                ctx == self.context.data,
                self.parser == old(self).parser,
                self.context == old(self).context,
                n == children.len(),
                values.len() == n,
                i <= n,
                failure_before(children, ctx, i as int) is None,
                self.output@ == start + output_before(children, ctx, values@, i as int),
            decreases n - i,
        {
            let step: Result<String, RenderError> = match &self.parser.root.children[i] {
                Node::Text(s) => Ok(s.clone()),
                Node::VariableBlock(e) => self.render_variable_block(e, &values[i]),
                _ => Err(RenderError::InternalError),
            };
            let text = match step {
                Err(err) => {
                    proof {
                        lemma_failure_persists(children, ctx, i as int + 1, n as int);
                    }
                    return Err(err);
                },
                Ok(t) => t,
            };
            self.output.append(text.as_str());
            proof {
                assert(start + output_before(children, ctx, values@, i as int + 1) =~= start
                    + output_before(children, ctx, values@, i as int) + piece(
                    children[i as int],
                    ctx,
                    values@[i as int]@,
                ));
            }
            i = i + 1;
        }
        Ok(())
    }
}

} // verus!
