//! The syntax-tree data model: literal values, expression nodes and
//! statements, together with the ghost mirrors that contracts speak of.
//!
//! Every executable type here has a deep view: `Litteral` is seen as
//! `LitV`, `Node` as `NodeV`, `Statement` as `StatementV`, with strings
//! abstracted to `Seq<char>`. The evaluator's and parser's specifications
//! are stated entirely over the mirrors.

use vstd::prelude::*;

verus! {

use crate::position::Position;
use crate::value::Num;
use vstd::string::StringExecFns;

/// The operand of a unary operator: logical not or numeric negation.
#[derive(Clone, Copy, PartialEq, Eq, Structural, Debug)]
pub enum UnaryOperator {
    Not,
    Neg,
}

/// A binary operator of the expression grammar.
#[derive(Clone, Copy, PartialEq, Eq, Structural, Debug)]
pub enum BinaryOperator {
    Add,
    Sub,
    Mul,
    Div,
    Pow,
    Eq,
    LEq,
    GEq,
    NEq,
    L,
    G,
    Or,
    And,
}

/// A value of the language: number, boolean, string or nil. The same type
/// is both the literal syntax in the tree and the runtime representation,
/// so evaluation rewrites every expression into a `Litteral`.
#[derive(Clone, Debug)]
pub enum Litteral {
    Number(Num),
    Boolean(bool),
    String(String),
    Nil,
}

/// The ghost mirror of `Litteral`: strings are sequences of characters.
pub enum LitV {
    Number(Num),
    Boolean(bool),
    Str(Seq<char>),
    Nil,
}

impl View for Litteral {
    type V = LitV;

    open spec fn view(&self) -> LitV {
        match self {
            Litteral::Number(n) => LitV::Number(*n),
            Litteral::Boolean(b) => LitV::Boolean(*b),
            Litteral::String(s) => LitV::Str(s@),
            Litteral::Nil => LitV::Nil,
        }
    }
}

/// Numbers inside a value carry a positive denominator.
pub open spec fn lit_wf(v: LitV) -> bool {
    match v {
        LitV::Number(n) => n.wf(),
        _ => true,
    }
}

/// The truthiness rule: `false` and `nil` are falsy; everything else —
/// `true`, every number, every string — is truthy.
pub open spec fn lit_truthy(v: LitV) -> bool {
    match v {
        LitV::Boolean(b) => b,
        LitV::Nil => false,
        _ => true,
    }
}

/// The printed form of a value, as the `print` statement writes it.
pub open spec fn lit_display(v: LitV) -> Seq<char> {
    match v {
        LitV::Number(n) => n.display_seq(),
        LitV::Boolean(b) => if b {
            "true"@
        } else {
            "false"@
        },
        LitV::Str(s) => s,
        LitV::Nil => "nil"@,
    }
}

impl Litteral {
    /// Whether this value behaves as true in a boolean context.
    pub fn is_truthy(&self) -> (r: bool)
        ensures
            r == lit_truthy(self@),
    {
        match self {
            Litteral::Boolean(b) => *b,
            Litteral::Nil => false,
            Litteral::String(_) => true,
            Litteral::Number(_) => true,
        }
    }

    /// An owned copy with the same view.
    pub fn duplicate(&self) -> (r: Litteral)
        ensures
            r@ == self@,
    {
        match self {
            Litteral::Number(n) => Litteral::Number(*n),
            Litteral::Boolean(b) => Litteral::Boolean(*b),
            Litteral::String(s) => Litteral::String(s.clone()),
            Litteral::Nil => Litteral::Nil,
        }
    }

    /// The printed form of this value.
    pub fn display_string(&self) -> (s: String)
        requires
            lit_wf(self@),
        ensures
            s@ == lit_display(self@),
    {
        match self {
            Litteral::Number(n) => n.display_string(),
            Litteral::Boolean(b) => if *b {
                String::from_str("true")
            } else {
                String::from_str("false")
            },
            Litteral::String(s) => s.clone(),
            Litteral::Nil => String::from_str("nil"),
        }
    }
}

/// An expression node. Every variant carries the source span it covers.
#[derive(Debug)]
pub enum Node {
    Binary { left: Box<Node>, right: Box<Node>, operator: BinaryOperator, position: Position },
    Parenthesis(Box<Node>),
    Unary(UnaryOperator, Box<Node>, Position),
    Litteral(Litteral, Position),
    Identifier(String, Position),
    Assignment(String, Box<Node>, Position),
}

/// The ghost mirror of `Node`.
pub enum NodeV {
    Binary { left: Box<NodeV>, right: Box<NodeV>, operator: BinaryOperator, position: Position },
    Parenthesis(Box<NodeV>),
    Unary(UnaryOperator, Box<NodeV>, Position),
    Litteral(LitV, Position),
    Identifier(Seq<char>, Position),
    Assignment(Seq<char>, Box<NodeV>, Position),
}

/// The deep view of an expression node.
pub open spec fn view_node(n: Node) -> NodeV
    decreases n,
{
    match n {
        Node::Binary { left, right, operator, position } => NodeV::Binary {
            left: Box::new(view_node(*left)),
            right: Box::new(view_node(*right)),
            operator,
            position,
        },
        Node::Parenthesis(inner) => NodeV::Parenthesis(Box::new(view_node(*inner))),
        Node::Unary(op, inner, position) => NodeV::Unary(op, Box::new(view_node(*inner)), position),
        Node::Litteral(l, position) => NodeV::Litteral(l@, position),
        Node::Identifier(name, position) => NodeV::Identifier(name@, position),
        Node::Assignment(name, inner, position) => NodeV::Assignment(
            name@,
            Box::new(view_node(*inner)),
            position,
        ),
    }
}

impl View for Node {
    type V = NodeV;

    open spec fn view(&self) -> NodeV {
        view_node(*self)
    }
}

/// Every number literal in the expression carries a positive denominator.
pub open spec fn node_wf(n: NodeV) -> bool
    decreases n,
{
    match n {
        NodeV::Binary { left, right, operator, position } => node_wf(*left) && node_wf(*right),
        NodeV::Parenthesis(inner) => node_wf(*inner),
        NodeV::Unary(op, inner, position) => node_wf(*inner),
        NodeV::Litteral(l, position) => lit_wf(l),
        NodeV::Identifier(name, position) => true,
        NodeV::Assignment(name, inner, position) => node_wf(*inner),
    }
}

/// The span an expression covers: the stored span, looked up through
/// grouping parentheses.
pub open spec fn node_pos(n: NodeV) -> Position
    decreases n,
{
    match n {
        NodeV::Binary { left, right, operator, position } => position,
        NodeV::Parenthesis(inner) => node_pos(*inner),
        NodeV::Unary(op, inner, position) => position,
        NodeV::Litteral(l, position) => position,
        NodeV::Identifier(name, position) => position,
        NodeV::Assignment(name, inner, position) => position,
    }
}

impl Node {
    /// The span this expression covers.
    pub fn position(&self) -> (p: Position)
        ensures
            p == node_pos(self@),
        decreases *self,
    {
        match self {
            Node::Binary { left, right, operator, position } => *position,
            Node::Parenthesis(inner) => inner.position(),
            Node::Unary(op, inner, position) => *position,
            Node::Litteral(l, position) => *position,
            Node::Identifier(name, position) => *position,
            Node::Assignment(name, inner, position) => *position,
        }
    }
}

/// A statement: the executable unit the parser produces.
#[derive(Debug)]
pub enum Statement {
    Expression(Node),
    Print(Node),
    VarDecl(String, Node),
    Block(Vec<Statement>),
    If(Node, Box<Statement>, Option<Box<Statement>>),
}

/// The ghost mirror of `Statement`.
pub enum StatementV {
    Expression(NodeV),
    Print(NodeV),
    VarDecl(Seq<char>, NodeV),
    Block(Seq<StatementV>),
    If(NodeV, Box<StatementV>, Option<Box<StatementV>>),
}

/// The deep view of a statement.
pub open spec fn view_stmt(s: Statement) -> StatementV
    decreases s,
{
    match s {
        Statement::Expression(e) => StatementV::Expression(view_node(e)),
        Statement::Print(e) => StatementV::Print(view_node(e)),
        Statement::VarDecl(name, e) => StatementV::VarDecl(name@, view_node(e)),
        Statement::Block(ss) => StatementV::Block(view_stmt_seq(ss@)),
        Statement::If(c, t, e) => StatementV::If(
            view_node(c),
            Box::new(view_stmt(*t)),
            match e {
                Some(s2) => Some(Box::new(view_stmt(*s2))),
                None => None,
            },
        ),
    }
}

/// The deep view of a statement sequence.
pub open spec fn view_stmt_seq(ss: Seq<Statement>) -> Seq<StatementV>
    decreases ss,
{
    if ss.len() == 0 {
        Seq::empty()
    } else {
        view_stmt_seq(ss.drop_last()).push(view_stmt(ss.last()))
    }
}

pub proof fn lemma_view_stmt_seq_len(ss: Seq<Statement>)
    ensures
        view_stmt_seq(ss).len() == ss.len(),
        forall|i: int| 0 <= i < ss.len() ==> #[trigger] view_stmt_seq(ss)[i] == view_stmt(ss[i]),
    decreases ss,
{
    if ss.len() > 0 {
        lemma_view_stmt_seq_len(ss.drop_last());
    }
}

impl View for Statement {
    type V = StatementV;

    open spec fn view(&self) -> StatementV {
        view_stmt(*self)
    }
}

/// Every number literal under the statement carries a positive denominator.
pub open spec fn stmt_wf(s: StatementV) -> bool
    decreases s, 1nat,
{
    match s {
        StatementV::Expression(e) => node_wf(e),
        StatementV::Print(e) => node_wf(e),
        StatementV::VarDecl(name, e) => node_wf(e),
        StatementV::Block(ss) => stmts_wf(ss),
        StatementV::If(c, t, e) => node_wf(c) && stmt_wf(*t) && match e {
            Some(s2) => stmt_wf(*s2),
            None => true,
        },
    }
}

/// Every statement of the sequence is well formed.
pub open spec fn stmts_wf(ss: Seq<StatementV>) -> bool
    decreases ss, 0nat,
{
    if ss.len() == 0 {
        true
    } else {
        stmts_wf(ss.drop_last()) && stmt_wf(ss.last())
    }
}

/// A sequence is well formed exactly when each of its statements is.
pub proof fn lemma_stmts_wf_index(ss: Seq<StatementV>)
    requires
        stmts_wf(ss),
    ensures
        forall|j: int| 0 <= j < ss.len() ==> stmt_wf(#[trigger] ss[j]),
    decreases ss.len(),
{
    if ss.len() > 0 {
        lemma_stmts_wf_index(ss.drop_last());
        assert forall|j: int| 0 <= j < ss.len() implies stmt_wf(#[trigger] ss[j]) by {
            if j < ss.len() - 1 {
                assert(ss.drop_last()[j] == ss[j]);
            } else {
                assert(ss[j] == ss.last());
            }
        }
    }
}

/// Conversely, a sequence of well-formed statements is well formed.
pub proof fn lemma_stmts_wf_build(ss: Seq<StatementV>)
    requires
        forall|j: int| 0 <= j < ss.len() ==> stmt_wf(#[trigger] ss[j]),
    ensures
        stmts_wf(ss),
    decreases ss.len(),
{
    if ss.len() > 0 {
        assert forall|j: int| 0 <= j < ss.drop_last().len() implies stmt_wf(
            #[trigger] ss.drop_last()[j],
        ) by {
            assert(ss.drop_last()[j] == ss[j]);
        }
        lemma_stmts_wf_build(ss.drop_last());
    }
}

} // verus!
