//! General properties of the evaluator, stated and proved once for all
//! inputs.

use vstd::prelude::*;

verus! {

use crate::ast::{BinaryOperator, LitV, NodeV, lit_truthy};
use crate::environment::lemma_env_assign_none;
use crate::interpreter::{RtErrV, binop_eval, eval_expr_s};
use crate::position::Position;

/// Literals are fixed points of evaluation: a literal expression
/// evaluates, in every environment, to exactly its value, without
/// touching the environment and without failing.
pub proof fn lemma_literal_fixed_point(v: LitV, p: Position, env: Seq<Map<Seq<char>, LitV>>)
    ensures
        eval_expr_s(NodeV::Litteral(v, p), env) == (
            env,
            Ok::<(LitV, Position), RtErrV>((v, p)),
        ),
{
}

/// `and` short-circuits: whenever the left operand evaluates to a falsy
/// value, the whole conjunction is that left result and the right
/// operand is never evaluated — whatever it is, it can neither fail nor
/// change the environment.
pub proof fn lemma_and_short_circuit(
    left: NodeV,
    right: NodeV,
    p: Position,
    env: Seq<Map<Seq<char>, LitV>>,
)
    requires
        ({
            let (env1, r1) = eval_expr_s(left, env);
            r1 matches Ok(vp) && !lit_truthy(vp.0)
        }),
    ensures
        eval_expr_s(
            NodeV::Binary {
                left: Box::new(left),
                right: Box::new(right),
                operator: BinaryOperator::And,
                position: p,
            },
            env,
        ) == eval_expr_s(left, env),
{
}

/// `or` short-circuits: whenever the left operand evaluates to a truthy
/// value, the whole disjunction is that left result and the right
/// operand is never evaluated.
pub proof fn lemma_or_short_circuit(
    left: NodeV,
    right: NodeV,
    p: Position,
    env: Seq<Map<Seq<char>, LitV>>,
)
    requires
        ({
            let (env1, r1) = eval_expr_s(left, env);
            r1 matches Ok(vp) && lit_truthy(vp.0)
        }),
    ensures
        eval_expr_s(
            NodeV::Binary {
                left: Box::new(left),
                right: Box::new(right),
                operator: BinaryOperator::Or,
                position: p,
            },
            env,
        ) == eval_expr_s(left, env),
{
}

/// `+` on two strings concatenates them, for all strings, and never
/// fails.
pub proof fn lemma_string_concat(a: Seq<char>, b: Seq<char>)
    ensures
        binop_eval(BinaryOperator::Add, LitV::Str(a), LitV::Str(b)) == Ok::<LitV, RtErrV>(
            LitV::Str(a + b),
        ),
{
}

/// `==` between a string and a number, in either order, is `false` for
/// all values — cross-kind equality never fails.
pub proof fn lemma_cross_kind_equality(s: Seq<char>, n: crate::value::Num)
    ensures
        binop_eval(BinaryOperator::Eq, LitV::Str(s), LitV::Number(n)) == Ok::<LitV, RtErrV>(
            LitV::Boolean(false),
        ),
        binop_eval(BinaryOperator::Eq, LitV::Number(n), LitV::Str(s)) == Ok::<LitV, RtErrV>(
            LitV::Boolean(false),
        ),
{
}

/// Assigning to a name that no scope in the chain binds is a runtime
/// error, not a silent definition: the chain comes back unchanged and
/// the failure names the variable.
pub proof fn lemma_assign_undefined_is_error(
    name: Seq<char>,
    inner: NodeV,
    p: Position,
    env: Seq<Map<Seq<char>, LitV>>,
)
    requires
        eval_expr_s(inner, env).1 is Ok,
        ({
            let (env1, r1) = eval_expr_s(inner, env);
            forall|fi: int| 0 <= fi < env1.len() ==> !(#[trigger] env1[fi]).contains_key(name)
        }),
    ensures
        eval_expr_s(NodeV::Assignment(name, Box::new(inner), p), env) == (
            eval_expr_s(inner, env).0,
            Err::<(LitV, Position), RtErrV>(RtErrV::UndefinedVariable(name)),
        ),
{
    let (env1, r1) = eval_expr_s(inner, env);
    match r1 {
        Ok(vp) => {
            lemma_env_assign_none(env1, name, vp.0);
        },
        Err(e) => {},
    }
}

} // verus!
