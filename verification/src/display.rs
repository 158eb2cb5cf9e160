//! Canonical textual forms of expressions and statements, as the
//! driver's debug listing and the parse mode print them.
//!
//! An application is rendered prefix, in parentheses: `1 + 2` becomes
//! `(+ 1 2)`; explicit grouping is kept as `(group ...)`; an identifier
//! is marked with a leading underscore; number literals carry their
//! annotated form with a trailing `.0` when whole.

use vstd::prelude::*;

verus! {

use crate::ast::{
    BinaryOperator, LitV, Litteral, Node, NodeV, Statement, StatementV, UnaryOperator,
    lemma_stmts_wf_index, node_wf, stmt_wf,
};
use vstd::string::StringExecFns;

/// The symbol of a binary operator in the canonical form.
pub open spec fn binop_symbol(op: BinaryOperator) -> Seq<char> {
    match op {
        BinaryOperator::Add => "+"@,
        BinaryOperator::Sub => "-"@,
        BinaryOperator::Mul => "*"@,
        BinaryOperator::Div => "/"@,
        BinaryOperator::Pow => "^"@,
        BinaryOperator::Eq => "=="@,
        BinaryOperator::LEq => "<="@,
        BinaryOperator::GEq => ">="@,
        BinaryOperator::NEq => "!="@,
        BinaryOperator::L => "<"@,
        BinaryOperator::G => ">"@,
        BinaryOperator::Or => "||"@,
        BinaryOperator::And => "&&"@,
    }
}

/// The symbol of a unary operator.
pub open spec fn unop_symbol(op: UnaryOperator) -> Seq<char> {
    match op {
        UnaryOperator::Not => "!"@,
        UnaryOperator::Neg => "-"@,
    }
}

/// The annotated form of a literal: numbers carry a trailing `.0` when
/// whole, the other kinds read as they print.
pub open spec fn lit_text(v: LitV) -> Seq<char> {
    match v {
        LitV::Number(n) => n.debug_seq(),
        LitV::Boolean(b) => if b {
            "true"@
        } else {
            "false"@
        },
        LitV::Str(s) => s,
        LitV::Nil => "nil"@,
    }
}

/// The canonical textual form of an expression.
pub open spec fn node_text(n: NodeV) -> Seq<char>
    decreases n,
{
    match n {
        NodeV::Unary(op, e, p) => "("@ + unop_symbol(op) + " "@ + node_text(*e) + ")"@,
        NodeV::Litteral(l, p) => lit_text(l),
        NodeV::Binary { left, right, operator, position } => "("@ + binop_symbol(operator) + " "@
            + node_text(*left) + " "@ + node_text(*right) + ")"@,
        NodeV::Parenthesis(e) => "(group "@ + node_text(*e) + ")"@,
        NodeV::Identifier(i, p) => "_"@ + i,
        NodeV::Assignment(i, v, p) => i + " = "@ + node_text(*v),
    }
}

/// The canonical textual form of a statement: `expr:`, `print:` or
/// `decl:` followed by the expression, a block as its statements
/// indented between braces, and `if` with its branches on their own
/// lines.
pub open spec fn stmt_text(s: StatementV) -> Seq<char>
    decreases s, 1nat,
{
    match s {
        StatementV::Print(e) => "print: "@ + node_text(e),
        StatementV::Expression(e) => "expr: "@ + node_text(e),
        StatementV::VarDecl(i, e) => "decl: "@ + i + " = "@ + node_text(e),
        StatementV::Block(ss) => "block: {\n"@ + stmts_text(ss, 0) + "}\n"@,
        StatementV::If(c, t, e) => {
            let head = "if "@ + node_text(c) + "\nthen "@ + stmt_text(*t);
            match e {
                Some(e2) => head + "\nelse "@ + stmt_text(*e2),
                None => head,
            }
        },
    }
}

/// The statements of a block from index `i` on, each indented on its own
/// line.
pub open spec fn stmts_text(ss: Seq<StatementV>, i: int) -> Seq<char>
    decreases ss, (if 0 <= i <= ss.len() { (ss.len() - i) as nat } else { 0nat }),
{
    if 0 <= i < ss.len() {
        "\t"@ + stmt_text(ss[i]) + "\n"@ + stmts_text(ss, i + 1)
    } else {
        Seq::empty()
    }
}

impl Node {
    /// The canonical textual form of this expression.
    pub fn text(&self) -> (s: String)
        requires
            node_wf(self@),
        ensures
            s@ == node_text(self@),
        decreases *self,
    {
        match self {
            Node::Unary(op, e, p) => {
                let mut s = String::from_str("(");
                match op {
                    UnaryOperator::Not => s.append("!"),
                    UnaryOperator::Neg => s.append("-"),
                }
                s.append(" ");
                let inner = e.text();
                s.append(inner.as_str());
                s.append(")");
                proof {
                    assert(s@ =~= node_text(self@));
                }
                s
            },
            Node::Litteral(l, p) => {
                let s = match l {
                    Litteral::Number(n) => n.debug_string(),
                    Litteral::Boolean(b) => if *b {
                        String::from_str("true")
                    } else {
                        String::from_str("false")
                    },
                    Litteral::String(v) => v.clone(),
                    Litteral::Nil => String::from_str("nil"),
                };
                proof {
                    assert(s@ =~= node_text(self@));
                }
                s
            },
            Node::Binary { left, right, operator, position } => {
                let mut s = String::from_str("(");
                let sym = binop_symbol_string(*operator);
                s.append(sym.as_str());
                s.append(" ");
                let lt = left.text();
                s.append(lt.as_str());
                s.append(" ");
                let rt = right.text();
                s.append(rt.as_str());
                s.append(")");
                proof {
                    assert(s@ =~= node_text(self@));
                }
                s
            },
            Node::Parenthesis(e) => {
                let mut s = String::from_str("(group ");
                let inner = e.text();
                s.append(inner.as_str());
                s.append(")");
                proof {
                    assert(s@ =~= node_text(self@));
                }
                s
            },
            Node::Identifier(i, p) => {
                let mut s = String::from_str("_");
                s.append(i.as_str());
                proof {
                    assert(s@ =~= node_text(self@));
                }
                s
            },
            Node::Assignment(i, v, p) => {
                let mut s = i.clone();
                s.append(" = ");
                let inner = v.text();
                s.append(inner.as_str());
                proof {
                    assert(s@ =~= node_text(self@));
                }
                s
            },
        }
    }
}

/// The symbol of a binary operator.
fn binop_symbol_string(op: BinaryOperator) -> (s: String)
    ensures
        s@ == binop_symbol(op),
{
    match op {
        BinaryOperator::Add => String::from_str("+"),
        BinaryOperator::Sub => String::from_str("-"),
        BinaryOperator::Mul => String::from_str("*"),
        BinaryOperator::Div => String::from_str("/"),
        BinaryOperator::Pow => String::from_str("^"),
        BinaryOperator::Eq => String::from_str("=="),
        BinaryOperator::LEq => String::from_str("<="),
        BinaryOperator::GEq => String::from_str(">="),
        BinaryOperator::NEq => String::from_str("!="),
        BinaryOperator::L => String::from_str("<"),
        BinaryOperator::G => String::from_str(">"),
        BinaryOperator::Or => String::from_str("||"),
        BinaryOperator::And => String::from_str("&&"),
    }
}

impl Statement {
    /// The canonical textual form of this statement.
    pub fn text(&self) -> (s: String)
        requires
            stmt_wf(self@),
        ensures
            s@ == stmt_text(self@),
        decreases *self, 1nat,
    {
        match self {
            Statement::Print(e) => {
                let mut s = String::from_str("print: ");
                let inner = e.text();
                s.append(inner.as_str());
                proof {
                    assert(s@ =~= stmt_text(self@));
                }
                s
            },
            Statement::Expression(e) => {
                let mut s = String::from_str("expr: ");
                let inner = e.text();
                s.append(inner.as_str());
                proof {
                    assert(s@ =~= stmt_text(self@));
                }
                s
            },
            Statement::VarDecl(i, e) => {
                let mut s = String::from_str("decl: ");
                s.append(i.as_str());
                s.append(" = ");
                let inner = e.text();
                s.append(inner.as_str());
                proof {
                    assert(s@ =~= stmt_text(self@));
                }
                s
            },
            Statement::Block(ss) => {
                let mut s = String::from_str("block: {\n");
                let body = block_items_text(ss, 0);
                s.append(body.as_str());
                s.append("}\n");
                proof {
                    assert(s@ =~= stmt_text(self@));
                }
                s
            },
            Statement::If(c, t, e) => {
                let mut s = String::from_str("if ");
                let ct = c.text();
                s.append(ct.as_str());
                s.append("\nthen ");
                let tt = t.text();
                s.append(tt.as_str());
                match e {
                    Some(e2) => {
                        s.append("\nelse ");
                        let et = e2.text();
                        s.append(et.as_str());
                    },
                    None => {},
                }
                proof {
                    assert(s@ =~= stmt_text(self@));
                }
                s
            },
        }
    }
}

/// The indented lines of a block's statements from `i` on.
fn block_items_text(ss: &Vec<Statement>, i: usize) -> (s: String)
    requires
        i <= ss@.len(),
        stmt_wf(StatementV::Block(crate::ast::view_stmt_seq(ss@))),
    ensures
        s@ == stmts_text(crate::ast::view_stmt_seq(ss@), i as int),
    decreases ss@, ss@.len() - i,
{
    proof {
        crate::ast::lemma_view_stmt_seq_len(ss@);
        lemma_stmts_wf_index(crate::ast::view_stmt_seq(ss@));
    }
    if i >= ss.len() {
        let s = String::new();
        proof {
            assert(s@ =~= stmts_text(crate::ast::view_stmt_seq(ss@), i as int));
        }
        s
    } else {
        let mut s = String::from_str("\t");
        proof {
            assert(crate::ast::view_stmt_seq(ss@)[i as int] == crate::ast::view_stmt(
                ss@[i as int],
            ));
            assert(stmt_wf(ss@[i as int]@));
        }
        let line = ss[i].text();
        s.append(line.as_str());
        s.append("\n");
        let rest = block_items_text(ss, i + 1);
        s.append(rest.as_str());
        proof {
            assert(s@ =~= stmts_text(crate::ast::view_stmt_seq(ss@), i as int));
        }
        s
    }
}

} // verus!
