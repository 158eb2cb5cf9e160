//! The evaluator: operator semantics, expression evaluation and statement
//! execution against the chain of scopes.
//!
//! The meaning of every construct is given by the spec functions
//! `binop_eval`, `unop_eval`, `eval_expr_s`, `exec_stmt_s` and
//! `exec_stmts_s`; the executable `Interpreter` is proved to follow them
//! exactly, printed line for printed line.

use vstd::prelude::*;

verus! {

use crate::ast::{
    BinaryOperator, LitV, Litteral, Node, NodeV, Statement, StatementV, UnaryOperator,
    lemma_stmts_wf_index, lemma_view_stmt_seq_len, lit_display, lit_truthy, lit_wf, node_wf,
    stmt_wf, view_stmt, view_stmt_seq,
};
use crate::environment::{Environment, env_assign, env_define, env_get, env_vals_wf};
use crate::position::Position;
use crate::value::{num_add, num_div, num_eq, num_le, num_lt, num_mul, num_neg, num_pow, num_sub};
use vstd::string::StringExecFns;

/// A runtime failure: an undefined variable, or operands of the wrong
/// kinds for an operator.
#[derive(Debug)]
pub enum RuntimeError {
    UndefinedVariable(String),
    OperandsMustBeNumbers,
    OperandsMustBeNumbersOrStrings,
    OperandMustBeNumber,
}

/// The ghost mirror of `RuntimeError`.
pub enum RtErrV {
    UndefinedVariable(Seq<char>),
    OperandsMustBeNumbers,
    OperandsMustBeNumbersOrStrings,
    OperandMustBeNumber,
}

impl View for RuntimeError {
    type V = RtErrV;

    open spec fn view(&self) -> RtErrV {
        match self {
            RuntimeError::UndefinedVariable(n) => RtErrV::UndefinedVariable(n@),
            RuntimeError::OperandsMustBeNumbers => RtErrV::OperandsMustBeNumbers,
            RuntimeError::OperandsMustBeNumbersOrStrings => RtErrV::OperandsMustBeNumbersOrStrings,
            RuntimeError::OperandMustBeNumber => RtErrV::OperandMustBeNumber,
        }
    }
}

/// The message a runtime failure is reported with.
pub open spec fn rt_err_msg(e: RtErrV) -> Seq<char> {
    match e {
        RtErrV::UndefinedVariable(n) => "Undefined variable '"@ + n + "'."@,
        RtErrV::OperandsMustBeNumbers => "Operands must be numbers"@,
        RtErrV::OperandsMustBeNumbersOrStrings => "Operands must be two numbers or two strings"@,
        RtErrV::OperandMustBeNumber => "Operand must be a number"@,
    }
}

impl RuntimeError {
    /// The message this failure is reported with.
    pub fn message(&self) -> (s: String)
        ensures
            s@ == rt_err_msg(self@),
    {
        match self {
            RuntimeError::UndefinedVariable(n) => {
                let mut s = String::new();
                s.append("Undefined variable '");
                s.append(n.as_str());
                s.append("'.");
                proof {
                    assert(s@ =~= rt_err_msg(self@));
                }
                s
            },
            RuntimeError::OperandsMustBeNumbers => String::from_str("Operands must be numbers"),
            RuntimeError::OperandsMustBeNumbersOrStrings => String::from_str(
                "Operands must be two numbers or two strings",
            ),
            RuntimeError::OperandMustBeNumber => String::from_str("Operand must be a number"),
        }
    }
}

/// The result of a binary operator on two evaluated operands, by their
/// kinds. Numbers admit arithmetic and every comparison; strings admit
/// `+` (concatenation), `==` and `!=`; booleans admit `==` and `!=`; a
/// string and a number compare unequal under `==` but support nothing
/// else. `Or` and `And` are listed for completeness with their
/// value-level meaning, though evaluation short-circuits before reaching
/// this table.
pub open spec fn binop_eval(op: BinaryOperator, l: LitV, r: LitV) -> Result<LitV, RtErrV> {
    match op {
        BinaryOperator::Or => if lit_truthy(l) {
            Ok(l)
        } else {
            Ok(r)
        },
        BinaryOperator::And => if lit_truthy(l) {
            Ok(r)
        } else {
            Ok(l)
        },
        BinaryOperator::Add => match (l, r) {
            (LitV::Number(a), LitV::Number(b)) => Ok(LitV::Number(num_add(a, b))),
            (LitV::Str(a), LitV::Str(b)) => Ok(LitV::Str(a + b)),
            (LitV::Str(a), LitV::Number(b)) => Err(RtErrV::OperandsMustBeNumbersOrStrings),
            (LitV::Number(a), LitV::Str(b)) => Err(RtErrV::OperandsMustBeNumbersOrStrings),
            _ => Err(RtErrV::OperandsMustBeNumbers),
        },
        BinaryOperator::Sub => match (l, r) {
            (LitV::Number(a), LitV::Number(b)) => Ok(LitV::Number(num_sub(a, b))),
            _ => Err(RtErrV::OperandsMustBeNumbers),
        },
        BinaryOperator::Mul => match (l, r) {
            (LitV::Number(a), LitV::Number(b)) => Ok(LitV::Number(num_mul(a, b))),
            _ => Err(RtErrV::OperandsMustBeNumbers),
        },
        BinaryOperator::Div => match (l, r) {
            (LitV::Number(a), LitV::Number(b)) => Ok(LitV::Number(num_div(a, b))),
            _ => Err(RtErrV::OperandsMustBeNumbers),
        },
        BinaryOperator::Pow => match (l, r) {
            (LitV::Number(a), LitV::Number(b)) => Ok(LitV::Number(num_pow(a, b))),
            _ => Err(RtErrV::OperandsMustBeNumbers),
        },
        BinaryOperator::Eq => match (l, r) {
            (LitV::Number(a), LitV::Number(b)) => Ok(LitV::Boolean(num_eq(a, b))),
            (LitV::Str(a), LitV::Str(b)) => Ok(LitV::Boolean(a == b)),
            (LitV::Boolean(a), LitV::Boolean(b)) => Ok(LitV::Boolean(a == b)),
            (LitV::Str(a), LitV::Number(b)) => Ok(LitV::Boolean(false)),
            (LitV::Number(a), LitV::Str(b)) => Ok(LitV::Boolean(false)),
            _ => Err(RtErrV::OperandsMustBeNumbers),
        },
        BinaryOperator::NEq => match (l, r) {
            (LitV::Number(a), LitV::Number(b)) => Ok(LitV::Boolean(!num_eq(a, b))),
            (LitV::Str(a), LitV::Str(b)) => Ok(LitV::Boolean(a != b)),
            (LitV::Boolean(a), LitV::Boolean(b)) => Ok(LitV::Boolean(a != b)),
            _ => Err(RtErrV::OperandsMustBeNumbers),
        },
        BinaryOperator::LEq => match (l, r) {
            (LitV::Number(a), LitV::Number(b)) => Ok(LitV::Boolean(num_le(a, b))),
            _ => Err(RtErrV::OperandsMustBeNumbers),
        },
        BinaryOperator::GEq => match (l, r) {
            (LitV::Number(a), LitV::Number(b)) => Ok(LitV::Boolean(num_le(b, a))),
            _ => Err(RtErrV::OperandsMustBeNumbers),
        },
        BinaryOperator::L => match (l, r) {
            (LitV::Number(a), LitV::Number(b)) => Ok(LitV::Boolean(num_lt(a, b))),
            _ => Err(RtErrV::OperandsMustBeNumbers),
        },
        BinaryOperator::G => match (l, r) {
            (LitV::Number(a), LitV::Number(b)) => Ok(LitV::Boolean(num_lt(b, a))),
            _ => Err(RtErrV::OperandsMustBeNumbers),
        },
    }
}

/// The result of a unary operator: `!` is "not truthy" and never fails;
/// `-` negates a number and rejects anything else.
pub open spec fn unop_eval(op: UnaryOperator, v: LitV) -> Result<LitV, RtErrV> {
    match op {
        UnaryOperator::Not => Ok(LitV::Boolean(!lit_truthy(v))),
        UnaryOperator::Neg => match v {
            LitV::Number(n) => Ok(LitV::Number(num_neg(n))),
            _ => Err(RtErrV::OperandMustBeNumber),
        },
    }
}

/// Evaluation of an expression against a chain of scopes: the chain after
/// evaluation, and the value (with the span the result carries) or the
/// first runtime failure. `or` and `and` evaluate their right operand only
/// when the left one does not decide; assignment stores into the
/// innermost scope that already binds the name and yields the assigned
/// value.
pub open spec fn eval_expr_s(e: NodeV, env: Seq<Map<Seq<char>, LitV>>) -> (
    Seq<Map<Seq<char>, LitV>>,
    Result<(LitV, Position), RtErrV>,
)
    decreases e,
{
    match e {
        NodeV::Litteral(l, p) => (env, Ok((l, p))),
        NodeV::Identifier(name, p) => match env_get(env, name) {
            Some(v) => (env, Ok((v, p))),
            None => (env, Err(RtErrV::UndefinedVariable(name))),
        },
        NodeV::Parenthesis(inner) => eval_expr_s(*inner, env),
        NodeV::Unary(op, inner, p) => {
            let (env1, r1) = eval_expr_s(*inner, env);
            match r1 {
                Ok(vp) => match unop_eval(op, vp.0) {
                    Ok(v2) => (env1, Ok((v2, p))),
                    Err(er) => (env1, Err(er)),
                },
                Err(er) => (env1, Err(er)),
            }
        },
        NodeV::Binary { left, right, operator, position } => {
            let (env1, r1) = eval_expr_s(*left, env);
            match r1 {
                Ok(lvp) => {
                    if operator is Or && lit_truthy(lvp.0) {
                        (env1, Ok(lvp))
                    } else if operator is And && !lit_truthy(lvp.0) {
                        (env1, Ok(lvp))
                    } else {
                        let (env2, r2) = eval_expr_s(*right, env1);
                        match r2 {
                            Ok(rvp) => match binop_eval(operator, lvp.0, rvp.0) {
                                Ok(v) => (env2, Ok((v, position))),
                                Err(er) => (env2, Err(er)),
                            },
                            Err(er) => (env2, Err(er)),
                        }
                    }
                },
                Err(er) => (env1, Err(er)),
            }
        },
        NodeV::Assignment(name, inner, p) => {
            let (env1, r1) = eval_expr_s(*inner, env);
            match r1 {
                Ok(vp) => match env_assign(env1, name, vp.0) {
                    Some(env2) => (env2, Ok(vp)),
                    None => (env1, Err(RtErrV::UndefinedVariable(name))),
                },
                Err(er) => (env1, Err(er)),
            }
        },
    }
}

/// Execution of one statement: the chain afterwards, the lines it
/// printed before finishing or failing, and the first runtime failure if
/// any. A block runs in a fresh innermost scope that is discarded
/// afterwards, also when a failure comes out of it; `if` branches by
/// truthiness of the condition's value.
pub open spec fn exec_stmt_s(s: StatementV, env: Seq<Map<Seq<char>, LitV>>) -> (
    Seq<Map<Seq<char>, LitV>>,
    Seq<Seq<char>>,
    Option<RtErrV>,
)
    decreases s,
{
    match s {
        StatementV::Expression(e) => {
            let (env1, r1) = eval_expr_s(e, env);
            match r1 {
                Ok(vp) => (env1, Seq::empty(), None),
                Err(er) => (env1, Seq::empty(), Some(er)),
            }
        },
        StatementV::Print(e) => {
            let (env1, r1) = eval_expr_s(e, env);
            match r1 {
                Ok(vp) => (env1, seq![lit_display(vp.0)], None),
                Err(er) => (env1, Seq::empty(), Some(er)),
            }
        },
        StatementV::VarDecl(name, e) => {
            let (env1, r1) = eval_expr_s(e, env);
            match r1 {
                Ok(vp) => (env_define(env1, name, vp.0), Seq::empty(), None),
                Err(er) => (env1, Seq::empty(), Some(er)),
            }
        },
        StatementV::Block(ss) => {
            let (env1, out, err) = exec_stmts_s(ss, env.push(Map::empty()));
            (env1.drop_last(), out, err)
        },
        StatementV::If(c, t, els) => {
            let (env1, r1) = eval_expr_s(c, env);
            match r1 {
                Ok(vp) => if lit_truthy(vp.0) {
                    exec_stmt_s(*t, env1)
                } else {
                    match els {
                        Some(s2) => exec_stmt_s(*s2, env1),
                        None => (env1, Seq::empty(), None),
                    }
                },
                Err(er) => (env1, Seq::empty(), Some(er)),
            }
        },
    }
}

/// Execution of a statement sequence, in order, stopping at the first
/// failure; the printed lines of all statements that ran are kept.
pub open spec fn exec_stmts_s(ss: Seq<StatementV>, env: Seq<Map<Seq<char>, LitV>>) -> (
    Seq<Map<Seq<char>, LitV>>,
    Seq<Seq<char>>,
    Option<RtErrV>,
)
    decreases ss,
{
    if ss.len() == 0 {
        (env, Seq::empty(), None)
    } else {
        let (env1, out1, err1) = exec_stmt_s(ss[0], env);
        if err1 is Some {
            (env1, out1, err1)
        } else {
            let (env2, out2, err2) = exec_stmts_s(ss.drop_first(), env1);
            (env2, out1 + out2, err2)
        }
    }
}

/// The printed lines a list of owned strings stands for.
pub open spec fn out_v(v: Seq<String>) -> Seq<Seq<char>> {
    v.map_values(|s: String| s@)
}

/// The tree-walking interpreter: one live chain of scopes, and the lines
/// printed so far.
pub struct Interpreter {
    environment: Environment,
    output: Vec<String>,
}

impl Interpreter {
    /// The scope chain is well formed.
    pub closed spec fn inv(&self) -> bool {
        self.environment.inv()
    }

    /// The chain of scopes, innermost frame last.
    pub closed spec fn env_v(&self) -> Seq<Map<Seq<char>, LitV>> {
        self.environment@
    }

    /// The lines printed so far.
    pub closed spec fn out_view(&self) -> Seq<Seq<char>> {
        out_v(self.output@)
    }

    /// A fresh interpreter: one empty global scope, nothing printed.
    pub fn new() -> (r: Interpreter)
        ensures
            r.inv(),
            r.env_v() =~= seq![Map::<Seq<char>, LitV>::empty()],
            r.out_view() =~= Seq::<Seq<char>>::empty(),
    {
        let i = Interpreter { environment: Environment::new(), output: Vec::new() };
        proof {
            assert(i.out_view() =~= Seq::<Seq<char>>::empty());
        }
        i
    }

    /// The lines printed so far, in order.
    pub fn printed(&self) -> (r: &Vec<String>)
        ensures
            out_v(r@) == self.out_view(),
    {
        &self.output
    }

    /// Evaluates an expression to a literal node carrying the resulting
    /// value, or fails with the first runtime error; follows
    /// `eval_expr_s`.
    pub fn evaluate_expr(&mut self, expr: &Node) -> (r: Result<Node, RuntimeError>)
        requires
            old(self).inv(),
            node_wf(expr@),
        ensures
            final(self).inv(),
            final(self).out_view() == old(self).out_view(),
            ({
                let (env2, rs) = eval_expr_s(expr@, old(self).env_v());
                final(self).env_v() == env2 && match (r, rs) {
                    (Ok(n), Ok(vp)) => n@ == NodeV::Litteral(vp.0, vp.1) && lit_wf(vp.0),
                    (Err(e), Err(ev)) => e@ == ev,
                    _ => false,
                }
            }),
    {
        match self.eval_inner(expr) {
            Ok((v, p)) => Ok(Node::Litteral(v, p)),
            Err(e) => Err(e),
        }
    }

    /// Evaluates an expression to its value and the span the result
    /// carries; follows `eval_expr_s`.
    fn eval_inner(&mut self, expr: &Node) -> (r: Result<(Litteral, Position), RuntimeError>)
        requires
            old(self).inv(),
            node_wf(expr@),
        ensures
            final(self).inv(),
            final(self).out_view() == old(self).out_view(),
            ({
                let (env2, rs) = eval_expr_s(expr@, old(self).env_v());
                final(self).env_v() == env2 && match (r, rs) {
                    (Ok(vp), Ok(vps)) => vp.0@ == vps.0 && vp.1 == vps.1 && lit_wf(vps.0),
                    (Err(e), Err(ev)) => e@ == ev,
                    _ => false,
                }
            }),
        decreases *expr,
    {
        match expr {
            Node::Litteral(l, p) => Ok((l.duplicate(), *p)),
            Node::Identifier(name, p) => match self.environment.get(name) {
                Some(v) => {
                    proof {
                        self.environment.lemma_inv_len();
                        lemma_env_get_wf(self.environment@, name@);
                    }
                    Ok((v, *p))
                },
                None => Err(RuntimeError::UndefinedVariable(name.clone())),
            },
            Node::Parenthesis(inner) => self.eval_inner(inner),
            Node::Unary(op, inner, p) => match self.eval_inner(inner) {
                Ok((v, _)) => match apply_unop(*op, v) {
                    Ok(v2) => Ok((v2, *p)),
                    Err(er) => Err(er),
                },
                Err(er) => Err(er),
            },
            Node::Binary { left, right, operator, position } => {
                match self.eval_inner(left) {
                    Ok((lv, lp)) => {
                        let ltruthy = lv.is_truthy();
                        if matches!(operator, BinaryOperator::Or) && ltruthy {
                            Ok((lv, lp))
                        } else if matches!(operator, BinaryOperator::And) && !ltruthy {
                            Ok((lv, lp))
                        } else {
                            match self.eval_inner(right) {
                                Ok((rv, _)) => match apply_binop(*operator, lv, rv) {
                                    Ok(v) => Ok((v, *position)),
                                    Err(er) => Err(er),
                                },
                                Err(er) => Err(er),
                            }
                        }
                    },
                    Err(er) => Err(er),
                }
            },
            Node::Assignment(name, inner, p) => match self.eval_inner(inner) {
                Ok((v, vp)) => {
                    let stored = v.duplicate();
                    if self.environment.assign(name, stored) {
                        Ok((v, vp))
                    } else {
                        Err(RuntimeError::UndefinedVariable(name.clone()))
                    }
                },
                Err(er) => Err(er),
            },
        }
    }

    /// Executes one statement, printing and mutating the chain of scopes;
    /// follows `exec_stmt_s`. A failure aborts the statement but the
    /// lines printed before it stand, and a block's scope is discarded
    /// also on failure.
    #[verifier::rlimit(100)]
    #[verifier::spinoff_prover]
    #[verifier::loop_isolation(false)]
    pub fn execute(&mut self, statement: &Statement) -> (r: Result<(), RuntimeError>)
        requires
            old(self).inv(),
            stmt_wf(statement@),
        ensures
            final(self).inv(),
            ({
                let (env2, out, err) = exec_stmt_s(statement@, old(self).env_v());
                final(self).env_v() == env2 && final(self).out_view() == old(self).out_view()
                    + out && match (r, err) {
                    (Ok(u), None) => true,
                    (Err(e), Some(ev)) => e@ == ev,
                    _ => false,
                }
            }),
        decreases *statement,
    {
        match statement {
            Statement::Expression(e) => match self.eval_inner(e) {
                Ok(_) => {
                    proof {
                        assert(self.out_view() =~= old(self).out_view()
                            + Seq::<Seq<char>>::empty());
                    }
                    Ok(())
                },
                Err(er) => {
                    proof {
                        assert(self.out_view() =~= old(self).out_view()
                            + Seq::<Seq<char>>::empty());
                    }
                    Err(er)
                },
            },
            Statement::Print(e) => match self.eval_inner(e) {
                Ok((v, _)) => {
                    let line = v.display_string();
                    self.output.push(line);
                    proof {
                        assert(self.out_view() =~= old(self).out_view() + seq![lit_display(v@)]);
                    }
                    Ok(())
                },
                Err(er) => {
                    proof {
                        assert(self.out_view() =~= old(self).out_view()
                            + Seq::<Seq<char>>::empty());
                    }
                    Err(er)
                },
            },
            Statement::VarDecl(name, e) => match self.eval_inner(e) {
                Ok((v, _)) => {
                    self.environment.define(name.clone(), v);
                    proof {
                        assert(self.out_view() =~= old(self).out_view()
                            + Seq::<Seq<char>>::empty());
                    }
                    Ok(())
                },
                Err(er) => {
                    proof {
                        assert(self.out_view() =~= old(self).out_view()
                            + Seq::<Seq<char>>::empty());
                    }
                    Err(er)
                },
            },
            Statement::If(c, t, els) => match self.eval_inner(c) {
                Ok((v, _)) => {
                    if v.is_truthy() {
                        self.execute(t)
                    } else {
                        match els {
                            Some(s2) => self.execute(s2),
                            None => {
                                proof {
                                    assert(self.out_view() =~= old(self).out_view()
                                        + Seq::<Seq<char>>::empty());
                                }
                                Ok(())
                            },
                        }
                    }
                },
                Err(er) => {
                    proof {
                        assert(self.out_view() =~= old(self).out_view()
                            + Seq::<Seq<char>>::empty());
                    }
                    Err(er)
                },
            },
            Statement::Block(statements) => self.exec_block(statements),
        }
    }

    /// Executes the statements of a block in a fresh innermost scope,
    /// which is discarded afterwards, also on failure; follows the
    /// block case of `exec_stmt_s`.
    #[verifier::rlimit(100)]
    #[verifier::spinoff_prover]
    #[verifier::loop_isolation(false)]
    fn exec_block(&mut self, statements: &Vec<Statement>) -> (r: Result<(), RuntimeError>)
        requires
            old(self).inv(),
            stmt_wf(StatementV::Block(view_stmt_seq(statements@))),
        ensures
            final(self).inv(),
            ({
                let (env2, out, err) = exec_stmt_s(
                    StatementV::Block(view_stmt_seq(statements@)),
                    old(self).env_v(),
                );
                final(self).env_v() == env2 && final(self).out_view() == old(self).out_view()
                    + out && match (r, err) {
                    (Ok(u), None) => true,
                    (Err(e), Some(ev)) => e@ == ev,
                    _ => false,
                }
            }),
        decreases statements@,
    {

                proof {
                    self.environment.lemma_inv_len();
                    lemma_view_stmt_seq_len(statements@);
                }
                self.environment.enter_block();
                let ghost ss = view_stmt_seq(statements@);
                let ghost env0 = self.env_v();
                let ghost base_out = self.out_view();
                let ghost mut done: Seq<Seq<char>> = Seq::empty();
                proof {
                    assert(ss.skip(0) =~= ss);
                    assert(base_out + done =~= base_out);
                    assert(stmt_wf(StatementV::Block(ss)));
                    lemma_stmts_wf_index(ss);
                }
                let mut i: usize = 0;
                while i < statements.len()
                    invariant
                        self.inv(),
                        i <= statements@.len(),
                        ss == view_stmt_seq(statements@),
                        ss.len() == statements@.len(),
                        forall|j: int| 0 <= j < ss.len() ==> #[trigger] ss[j] == view_stmt(
                            statements@[j],
                        ),
                        forall|j: int| 0 <= j < ss.len() ==> #[trigger] stmt_wf(ss[j]),
                        self.out_view() == base_out + done,
                        self.env_v().len() == env0.len(),
                        ({
                            let (fe, fo, fer) = exec_stmts_s(ss, env0);
                            let (e2, o2, er2) = exec_stmts_s(ss.skip(i as int), self.env_v());
                            fe == e2 && fo == done + o2 && fer == er2
                        }),
                    decreases statements@.len() - i,
                {
                    let ghost envb = self.env_v();
                    proof {
                        assert(ss.skip(i as int)[0] == ss[i as int]);
                        assert(ss.skip(i as int).drop_first() =~= ss.skip(i as int + 1));
                    }
                    match self.execute(&statements[i]) {
                        Ok(_) => {
                            proof {
                                let (e1, o1, er1) = exec_stmt_s(ss[i as int], envb);
                                lemma_exec_stmt_len(ss[i as int], envb);
                                done = done + o1;
                                assert(base_out + done =~= (base_out + done.subrange(
                                    0,
                                    done.len() - o1.len(),
                                )) + o1) by {
                                    assert(done.subrange(0, done.len() - o1.len()) + o1 =~= done);
                                }
                                assert(self.out_view() == base_out + done);
                            }
                            i = i + 1;
                        },
                        Err(er) => {
                            proof {
                                self.environment.lemma_inv_len();
                                lemma_exec_stmts_len(ss, env0);
                                let (e1, o1, er1) = exec_stmt_s(ss[i as int], envb);
                                lemma_exec_stmt_len(ss[i as int], envb);
                                assert(exec_stmts_s(ss.skip(i as int), envb) == (
                                    e1,
                                    o1,
                                    er1,
                                ));
                            }
                            self.environment.exit_block();
                            proof {
                                assert(self.out_view() =~= old(self).out_view() + (done
                                    + exec_stmt_s(view_stmt(statements@[i as int]), envb).1));
                            }
                            return Err(er);
                        },
                    }
                }
                proof {
                    assert(ss.skip(ss.len() as int) =~= Seq::<StatementV>::empty());
                    self.environment.lemma_inv_len();
                    lemma_exec_stmts_len(ss, env0);
                    let (fe, fo, fer) = exec_stmts_s(ss, env0);
                    assert(fo =~= done + Seq::<Seq<char>>::empty());
                }
                self.environment.exit_block();
                Ok(())
                }

    /// Executes the statements of a program in order, stopping at the
    /// first runtime failure; follows `exec_stmts_s`.
    #[verifier::loop_isolation(false)]
    pub fn interpret(&mut self, statements: &Vec<Statement>) -> (r: Result<(), RuntimeError>)
        requires
            old(self).inv(),
            forall|j: int| 0 <= j < statements@.len() ==> stmt_wf(#[trigger] statements@[j]@),
        ensures
            final(self).inv(),
            ({
                let (env2, out, err) = exec_stmts_s(
                    view_stmt_seq(statements@),
                    old(self).env_v(),
                );
                final(self).env_v() == env2 && final(self).out_view() == old(self).out_view()
                    + out && match (r, err) {
                    (Ok(u), None) => true,
                    (Err(e), Some(ev)) => e@ == ev,
                    _ => false,
                }
            }),
    {
        proof {
            lemma_view_stmt_seq_len(statements@);
        }
        let ghost ss = view_stmt_seq(statements@);
        let ghost env0 = self.env_v();
        let ghost base_out = self.out_view();
        let ghost mut done: Seq<Seq<char>> = Seq::empty();
        proof {
            assert(ss.skip(0) =~= ss);
            assert(base_out + done =~= base_out);
        }
        let mut i: usize = 0;
        while i < statements.len()
            invariant
                self.inv(),
                i <= statements@.len(),
                ss == view_stmt_seq(statements@),
                ss.len() == statements@.len(),
                forall|j: int| 0 <= j < ss.len() ==> #[trigger] ss[j] == view_stmt(statements@[j]),
                forall|j: int| 0 <= j < statements@.len() ==> stmt_wf(#[trigger] statements@[j]@),
                self.out_view() == base_out + done,
                ({
                    let (fe, fo, fer) = exec_stmts_s(ss, env0);
                    let (e2, o2, er2) = exec_stmts_s(ss.skip(i as int), self.env_v());
                    fe == e2 && fo == done + o2 && fer == er2
                }),
            decreases statements@.len() - i,
        {
            let ghost envb = self.env_v();
            proof {
                assert(ss.skip(i as int)[0] == ss[i as int]);
                assert(ss.skip(i as int).drop_first() =~= ss.skip(i as int + 1));
                assert(stmt_wf(statements@[i as int]@));
            }
            match self.execute(&statements[i]) {
                Ok(_) => {
                    proof {
                        let (e1, o1, er1) = exec_stmt_s(ss[i as int], envb);
                        done = done + o1;
                        assert(self.out_view() == base_out + done);
                    }
                    i = i + 1;
                },
                Err(er) => {
                    proof {
                        let (e1, o1, er1) = exec_stmt_s(ss[i as int], envb);
                        assert(exec_stmts_s(ss.skip(i as int), envb) == (e1, o1, er1));
                        assert(self.out_view() =~= old(self).out_view() + (done + o1));
                    }
                    return Err(er);
                },
            }
        }
        proof {
            assert(ss.skip(ss.len() as int) =~= Seq::<StatementV>::empty());
            let (fe, fo, fer) = exec_stmts_s(ss, env0);
            assert(fo =~= done + Seq::<Seq<char>>::empty());
        }
        Ok(())
    }
}

/// Evaluation keeps the number of scope frames.
pub proof fn lemma_eval_len(e: NodeV, env: Seq<Map<Seq<char>, LitV>>)
    ensures
        eval_expr_s(e, env).0.len() == env.len(),
    decreases e,
{
    match e {
        NodeV::Litteral(l, p) => {},
        NodeV::Identifier(name, p) => {},
        NodeV::Parenthesis(inner) => {
            lemma_eval_len(*inner, env);
        },
        NodeV::Unary(op, inner, p) => {
            lemma_eval_len(*inner, env);
        },
        NodeV::Binary { left, right, operator, position } => {
            lemma_eval_len(*left, env);
            let (env1, r1) = eval_expr_s(*left, env);
            if r1 is Ok {
                lemma_eval_len(*right, env1);
            }
        },
        NodeV::Assignment(name, inner, p) => {
            lemma_eval_len(*inner, env);
            let (env1, r1) = eval_expr_s(*inner, env);
            match r1 {
                Ok(vp) => {
                    lemma_env_assign_len(env1, name, vp.0);
                },
                Err(er) => {},
            }
        },
    }
}

/// A successful assignment keeps the number of scope frames.
pub proof fn lemma_env_assign_len(e: Seq<Map<Seq<char>, LitV>>, k: Seq<char>, v: LitV)
    ensures
        env_assign(e, k, v) matches Some(t) ==> t.len() == e.len(),
    decreases e.len(),
{
    if e.len() > 0 && !e.last().contains_key(k) {
        lemma_env_assign_len(e.drop_last(), k, v);
    }
}

/// Statement execution keeps the number of scope frames.
pub proof fn lemma_exec_stmt_len(s: StatementV, env: Seq<Map<Seq<char>, LitV>>)
    requires
        env.len() >= 1,
    ensures
        exec_stmt_s(s, env).0.len() == env.len(),
    decreases s,
{
    match s {
        StatementV::Expression(e) => {
            lemma_eval_len(e, env);
        },
        StatementV::Print(e) => {
            lemma_eval_len(e, env);
        },
        StatementV::VarDecl(name, e) => {
            lemma_eval_len(e, env);
        },
        StatementV::Block(ss) => {
            lemma_exec_stmts_len(ss, env.push(Map::empty()));
        },
        StatementV::If(c, t, els) => {
            lemma_eval_len(c, env);
            let (env1, r1) = eval_expr_s(c, env);
            match r1 {
                Ok(vp) => {
                    if lit_truthy(vp.0) {
                        lemma_exec_stmt_len(*t, env1);
                    } else {
                        match els {
                            Some(s2) => {
                                lemma_exec_stmt_len(*s2, env1);
                            },
                            None => {},
                        }
                    }
                },
                Err(er) => {},
            }
        },
    }
}

/// Sequence execution keeps the number of scope frames.
pub proof fn lemma_exec_stmts_len(ss: Seq<StatementV>, env: Seq<Map<Seq<char>, LitV>>)
    requires
        env.len() >= 1,
    ensures
        exec_stmts_s(ss, env).0.len() == env.len(),
    decreases ss,
{
    if ss.len() > 0 {
        lemma_exec_stmt_len(ss[0], env);
        let (env1, out1, err1) = exec_stmt_s(ss[0], env);
        if !(err1 is Some) {
            lemma_exec_stmts_len(ss.drop_first(), env1);
        }
    }
}

/// A value read out of a well-formed chain is well formed.
pub proof fn lemma_env_get_wf(e: Seq<Map<Seq<char>, LitV>>, k: Seq<char>)
    requires
        env_vals_wf(e),
        env_get(e, k) is Some,
    ensures
        lit_wf(env_get(e, k).unwrap()),
    decreases e.len(),
{
    if e.len() > 0 {
        if e.last().contains_key(k) {
            assert(e[e.len() - 1].contains_key(k));
        } else {
            assert(forall|i: int, kk: Seq<char>|
                0 <= i < e.drop_last().len() && #[trigger] e.drop_last()[i].contains_key(kk)
                    ==> lit_wf(e.drop_last()[i][kk])) by {
                assert(forall|i: int| 0 <= i < e.drop_last().len() ==> e.drop_last()[i] == e[i]);
            }
            lemma_env_get_wf(e.drop_last(), k);
        }
    }
}

/// Applies a unary operator to an evaluated operand; follows `unop_eval`.
fn apply_unop(op: UnaryOperator, v: Litteral) -> (r: Result<Litteral, RuntimeError>)
    requires
        lit_wf(v@),
    ensures
        match (r, unop_eval(op, v@)) {
            (Ok(a), Ok(b)) => a@ == b && lit_wf(a@),
            (Err(a), Err(b)) => a@ == b,
            _ => false,
        },
{
    match op {
        UnaryOperator::Not => {
            let t = v.is_truthy();
            Ok(Litteral::Boolean(!t))
        },
        UnaryOperator::Neg => match v {
            Litteral::Number(n) => Ok(Litteral::Number(n.neg())),
            _ => Err(RuntimeError::OperandMustBeNumber),
        },
    }
}

/// Applies a binary operator to two evaluated operands; follows
/// `binop_eval`.
fn apply_binop(op: BinaryOperator, l: Litteral, r: Litteral) -> (res: Result<
    Litteral,
    RuntimeError,
>)
    requires
        lit_wf(l@),
        lit_wf(r@),
    ensures
        match (res, binop_eval(op, l@, r@)) {
            (Ok(a), Ok(b)) => a@ == b && lit_wf(a@),
            (Err(a), Err(b)) => a@ == b,
            _ => false,
        },
{
    match op {
        BinaryOperator::Or => {
            if l.is_truthy() {
                Ok(l)
            } else {
                Ok(r)
            }
        },
        BinaryOperator::And => {
            if l.is_truthy() {
                Ok(r)
            } else {
                Ok(l)
            }
        },
        BinaryOperator::Add => match (l, r) {
            (Litteral::Number(a), Litteral::Number(b)) => Ok(Litteral::Number(a.add_num(b))),
            (Litteral::String(a), Litteral::String(b)) => {
                let mut t = a;
                t.append(b.as_str());
                Ok(Litteral::String(t))
            },
            (Litteral::String(a), Litteral::Number(b)) => Err(
                RuntimeError::OperandsMustBeNumbersOrStrings,
            ),
            (Litteral::Number(a), Litteral::String(b)) => Err(
                RuntimeError::OperandsMustBeNumbersOrStrings,
            ),
            _ => Err(RuntimeError::OperandsMustBeNumbers),
        },
        BinaryOperator::Sub => match (l, r) {
            (Litteral::Number(a), Litteral::Number(b)) => Ok(Litteral::Number(a.sub_num(b))),
            _ => Err(RuntimeError::OperandsMustBeNumbers),
        },
        BinaryOperator::Mul => match (l, r) {
            (Litteral::Number(a), Litteral::Number(b)) => Ok(Litteral::Number(a.mul_num(b))),
            _ => Err(RuntimeError::OperandsMustBeNumbers),
        },
        BinaryOperator::Div => match (l, r) {
            (Litteral::Number(a), Litteral::Number(b)) => Ok(Litteral::Number(a.div_num(b))),
            _ => Err(RuntimeError::OperandsMustBeNumbers),
        },
        BinaryOperator::Pow => match (l, r) {
            (Litteral::Number(a), Litteral::Number(b)) => Ok(Litteral::Number(a.pow_num(b))),
            _ => Err(RuntimeError::OperandsMustBeNumbers),
        },
        BinaryOperator::Eq => match (l, r) {
            (Litteral::Number(a), Litteral::Number(b)) => Ok(Litteral::Boolean(a.eq_num(b))),
            (Litteral::String(a), Litteral::String(b)) => Ok(Litteral::Boolean(a.eq(&b))),
            (Litteral::Boolean(a), Litteral::Boolean(b)) => Ok(Litteral::Boolean(a == b)),
            (Litteral::String(a), Litteral::Number(b)) => Ok(Litteral::Boolean(false)),
            (Litteral::Number(a), Litteral::String(b)) => Ok(Litteral::Boolean(false)),
            _ => Err(RuntimeError::OperandsMustBeNumbers),
        },
        BinaryOperator::NEq => match (l, r) {
            (Litteral::Number(a), Litteral::Number(b)) => Ok(Litteral::Boolean(!a.eq_num(b))),
            (Litteral::String(a), Litteral::String(b)) => Ok(Litteral::Boolean(!a.eq(&b))),
            (Litteral::Boolean(a), Litteral::Boolean(b)) => Ok(Litteral::Boolean(a != b)),
            _ => Err(RuntimeError::OperandsMustBeNumbers),
        },
        BinaryOperator::LEq => match (l, r) {
            (Litteral::Number(a), Litteral::Number(b)) => Ok(Litteral::Boolean(a.le_num(b))),
            _ => Err(RuntimeError::OperandsMustBeNumbers),
        },
        BinaryOperator::GEq => match (l, r) {
            (Litteral::Number(a), Litteral::Number(b)) => Ok(Litteral::Boolean(b.le_num(a))),
            _ => Err(RuntimeError::OperandsMustBeNumbers),
        },
        BinaryOperator::L => match (l, r) {
            (Litteral::Number(a), Litteral::Number(b)) => Ok(Litteral::Boolean(a.lt_num(b))),
            _ => Err(RuntimeError::OperandsMustBeNumbers),
        },
        BinaryOperator::G => match (l, r) {
            (Litteral::Number(a), Litteral::Number(b)) => Ok(Litteral::Boolean(b.lt_num(a))),
            _ => Err(RuntimeError::OperandsMustBeNumbers),
        },
    }
}

} // verus!
