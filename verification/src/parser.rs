//! The recursive-descent parser: tokens to statements.
//!
//! The grammar, from loosest to tightest binding: assignment
//! (right-associative, identifier targets only), `or`, `and`, the
//! comparison operators, `+`/`-`, `*`/`/`, `^` (left-associative), then
//! unary operators, parenthesized groups and atoms. Statements are
//! `print`, `var`, blocks in braces, `if`/`else`, and bare expressions;
//! one trailing `;` after any statement is consumed when present.
//!
//! The spec functions `p_*` define the parse exactly: each takes the
//! token sequence and a cursor and yields the parse result together with
//! the cursor after it. The executable `AstFactory` methods are proved to
//! follow them. Parsing stops at the first structurally invalid
//! construct, with the offending line.

use vstd::prelude::*;

verus! {

use crate::ast::{
    BinaryOperator, LitV, Litteral, Node, NodeV, Statement, StatementV, UnaryOperator,
    lemma_stmts_wf_build, lemma_view_stmt_seq_len, node_pos, node_wf, stmt_wf, view_stmt,
    view_stmt_seq,
};
use crate::position::Position;
use crate::scanner::{Token, TokenType, TokenTypeV, TokenV, token_wf};
use vstd::string::StringExecFns;

/// A grammatical failure: the offending line and a message.
#[derive(Debug)]
pub struct ParseError {
    pub line: usize,
    pub message: String,
}

/// The ghost mirror of `ParseError`.
pub struct PErrV {
    pub line: int,
    pub message: Seq<char>,
}

impl View for ParseError {
    type V = PErrV;

    open spec fn view(&self) -> PErrV {
        PErrV { line: self.line as int, message: self.message@ }
    }
}

/// The line to report an error at: the line of the token at `i`, or of
/// the last token when the cursor is past the end, or zero on empty
/// input.
pub open spec fn line_at(toks: Seq<TokenV>, i: int) -> int {
    if 0 <= i < toks.len() {
        toks[i].position.to.0 as int
    } else if toks.len() > 0 {
        toks[toks.len() - 1].position.to.0 as int
    } else {
        0
    }
}

/// The cursor after consuming one optional `;`.
pub open spec fn eat_semi(toks: Seq<TokenV>, j: int) -> int {
    if 0 <= j < toks.len() && toks[j].token_type is SemiColon {
        j + 1
    } else {
        j
    }
}

/// Clamps a callee's resulting cursor into `(j, len]` so the parse
/// always advances; with the executable parser's cursors the clamp never
/// fires.
pub open spec fn next_pos(j: int, k: int, len: int) -> int {
    if j < k <= len {
        k
    } else {
        len
    }
}

/// The index of the `)` matching one already-open parenthesis, scanning
/// from `j` with `depth` groups open; the length when none matches.
pub open spec fn paren_close(toks: Seq<TokenV>, j: int, depth: int) -> int
    decreases toks.len() - j
        when 0 <= j <= toks.len() && depth >= 1
{
    if j >= toks.len() {
        toks.len() as int
    } else if toks[j].token_type is LeftParen {
        paren_close(toks, j + 1, depth + 1)
    } else if toks[j].token_type is RightParen {
        if depth == 1 {
            j
        } else {
            paren_close(toks, j + 1, depth - 1)
        }
    } else {
        paren_close(toks, j + 1, depth)
    }
}

pub proof fn lemma_paren_close_bounds(toks: Seq<TokenV>, j: int, depth: int)
    requires
        0 <= j <= toks.len(),
        depth >= 1,
    ensures
        j <= paren_close(toks, j, depth) <= toks.len(),
    decreases toks.len() - j,
{
    if j < toks.len() {
        if toks[j].token_type is LeftParen {
            lemma_paren_close_bounds(toks, j + 1, depth + 1);
        } else if toks[j].token_type is RightParen {
            if depth != 1 {
                lemma_paren_close_bounds(toks, j + 1, depth - 1);
            }
        } else {
            lemma_paren_close_bounds(toks, j + 1, depth);
        }
    }
}

/// An atom: a literal, an identifier, `true`, `false` or `nil`;
/// anything else is "Expect expression.".
pub open spec fn p_atom(toks: Seq<TokenV>, i: int) -> (Result<NodeV, PErrV>, int)
    decreases toks.len() - i, 0nat
        when 0 <= i <= toks.len()
{
    if i >= toks.len() {
        (Err(PErrV { line: line_at(toks, i), message: "Expect expression."@ }), i)
    } else {
        let t = toks[i];
        match t.token_type {
            TokenTypeV::Number(n) => (Ok(NodeV::Litteral(LitV::Number(n), t.position)), i + 1),
            TokenTypeV::True => (Ok(NodeV::Litteral(LitV::Boolean(true), t.position)), i + 1),
            TokenTypeV::False => (Ok(NodeV::Litteral(LitV::Boolean(false), t.position)), i + 1),
            TokenTypeV::Nil => (Ok(NodeV::Litteral(LitV::Nil, t.position)), i + 1),
            TokenTypeV::StringLitteral(s) => (
                Ok(NodeV::Litteral(LitV::Str(s), t.position)),
                i + 1,
            ),
            TokenTypeV::Identifier(name) => (Ok(NodeV::Identifier(name, t.position)), i + 1),
            _ => (Err(PErrV { line: line_at(toks, i), message: "Expect expression."@ }), i),
        }
    }
}

/// A parenthesized group: the tokens up to the matching `)` are parsed
/// as an assignment-level expression; an unmatched `(` is "Unescaped
/// parenthesis".
pub open spec fn p_paren(toks: Seq<TokenV>, i: int) -> (Result<NodeV, PErrV>, int)
    decreases toks.len() - i, 1nat
        when 0 <= i <= toks.len()
{
    if i < toks.len() && toks[i].token_type is LeftParen {
        let close0 = paren_close(toks, i + 1, 1);
        let close = if i + 1 <= close0 <= toks.len() {
            close0
        } else {
            toks.len() as int
        };
        if close >= toks.len() {
            (
                Err(PErrV { line: line_at(toks, i), message: "Unescaped parenthesis"@ }),
                toks.len() as int,
            )
        } else {
            let sub = toks.subrange(i + 1, close);
            let (r, j) = p_assign(sub, 0);
            match r {
                Ok(n) => (Ok(NodeV::Parenthesis(Box::new(n))), close + 1),
                Err(e) => (Err(e), close + 1),
            }
        }
    } else {
        p_atom(toks, i)
    }
}

/// A unary `!` or `-` applied to a primary.
pub open spec fn p_unary(toks: Seq<TokenV>, i: int) -> (Result<NodeV, PErrV>, int)
    decreases toks.len() - i, 1nat
        when 0 <= i <= toks.len()
{
    if i < toks.len() && (toks[i].token_type is Bang || toks[i].token_type is Minus) {
        let op = if toks[i].token_type is Bang {
            UnaryOperator::Not
        } else {
            UnaryOperator::Neg
        };
        let (r, j) = p_primary(toks, i + 1);
        match r {
            Ok(n) => (
                Ok(
                    NodeV::Unary(
                        op,
                        Box::new(n),
                        Position { from: toks[i].position.from, to: node_pos(n).to },
                    ),
                ),
                j,
            ),
            Err(e) => (Err(e), j),
        }
    } else {
        p_atom(toks, i)
    }
}

/// A primary: a group, a unary application, or an atom.
pub open spec fn p_primary(toks: Seq<TokenV>, i: int) -> (Result<NodeV, PErrV>, int)
    decreases toks.len() - i, 2nat
        when 0 <= i <= toks.len()
{
    if i >= toks.len() {
        (Err(PErrV { line: line_at(toks, i), message: "Expect expression."@ }), i)
    } else if toks[i].token_type is LeftParen {
        p_paren(toks, i)
    } else if toks[i].token_type is Bang || toks[i].token_type is Minus {
        p_unary(toks, i)
    } else {
        p_atom(toks, i)
    }
}

/// The span of a binary application: from the left operand's start to
/// the right operand's end.
pub open spec fn binary_node(left: NodeV, right: NodeV, op: BinaryOperator) -> NodeV {
    NodeV::Binary {
        left: Box::new(left),
        right: Box::new(right),
        operator: op,
        position: Position { from: node_pos(left).from, to: node_pos(right).to },
    }
}

/// Further `^` applications onto `left`, left-associatively.
pub open spec fn p_exp_rest(toks: Seq<TokenV>, j: int, left: NodeV) -> (
    Result<NodeV, PErrV>,
    int,
)
    decreases toks.len() - j, 3nat
        when 0 <= j <= toks.len()
{
    if j < toks.len() && toks[j].token_type is Carrot {
        let (r, k) = p_primary(toks, j + 1);
        match r {
            Ok(right) => p_exp_rest(
                toks,
                next_pos(j, k, toks.len() as int),
                binary_node(left, right, BinaryOperator::Pow),
            ),
            Err(e) => (Err(e), k),
        }
    } else {
        (Ok(left), j)
    }
}

/// An exponentiation chain.
pub open spec fn p_exponent(toks: Seq<TokenV>, i: int) -> (Result<NodeV, PErrV>, int)
    decreases toks.len() - i, 4nat
        when 0 <= i <= toks.len()
{
    let (r, j) = p_primary(toks, i);
    match r {
        Ok(n) => p_exp_rest(toks, next_pos(i - 1, j, toks.len() as int), n),
        Err(e) => (Err(e), j),
    }
}

/// Further `*` or `/` applications onto `left`.
pub open spec fn p_factor_rest(toks: Seq<TokenV>, j: int, left: NodeV) -> (
    Result<NodeV, PErrV>,
    int,
)
    decreases toks.len() - j, 5nat
        when 0 <= j <= toks.len()
{
    if j < toks.len() && (toks[j].token_type is Star || toks[j].token_type is Slash) {
        let op = if toks[j].token_type is Star {
            BinaryOperator::Mul
        } else {
            BinaryOperator::Div
        };
        let (r, k) = p_exponent(toks, j + 1);
        match r {
            Ok(right) => p_factor_rest(
                toks,
                next_pos(j, k, toks.len() as int),
                binary_node(left, right, op),
            ),
            Err(e) => (Err(e), k),
        }
    } else {
        (Ok(left), j)
    }
}

/// A multiplication chain.
pub open spec fn p_factor(toks: Seq<TokenV>, i: int) -> (Result<NodeV, PErrV>, int)
    decreases toks.len() - i, 6nat
        when 0 <= i <= toks.len()
{
    let (r, j) = p_exponent(toks, i);
    match r {
        Ok(n) => p_factor_rest(toks, next_pos(i - 1, j, toks.len() as int), n),
        Err(e) => (Err(e), j),
    }
}

/// Further `+` or `-` applications onto `left`.
pub open spec fn p_term_rest(toks: Seq<TokenV>, j: int, left: NodeV) -> (Result<NodeV, PErrV>, int)
    decreases toks.len() - j, 7nat
        when 0 <= j <= toks.len()
{
    if j < toks.len() && (toks[j].token_type is Plus || toks[j].token_type is Minus) {
        let op = if toks[j].token_type is Plus {
            BinaryOperator::Add
        } else {
            BinaryOperator::Sub
        };
        let (r, k) = p_factor(toks, j + 1);
        match r {
            Ok(right) => p_term_rest(
                toks,
                next_pos(j, k, toks.len() as int),
                binary_node(left, right, op),
            ),
            Err(e) => (Err(e), k),
        }
    } else {
        (Ok(left), j)
    }
}

/// An additive chain.
pub open spec fn p_term(toks: Seq<TokenV>, i: int) -> (Result<NodeV, PErrV>, int)
    decreases toks.len() - i, 8nat
        when 0 <= i <= toks.len()
{
    let (r, j) = p_factor(toks, i);
    match r {
        Ok(n) => p_term_rest(toks, next_pos(i - 1, j, toks.len() as int), n),
        Err(e) => (Err(e), j),
    }
}

/// Whether the token is one of the six comparison operators.
pub open spec fn is_cmp(t: TokenTypeV) -> bool {
    t is EqualEqual || t is GreaterEqual || t is LessEqual || t is BangEqual || t is Greater
        || t is Less
}

/// The comparison operator a token stands for.
pub open spec fn cmp_op(t: TokenTypeV) -> BinaryOperator {
    if t is EqualEqual {
        BinaryOperator::Eq
    } else if t is GreaterEqual {
        BinaryOperator::GEq
    } else if t is LessEqual {
        BinaryOperator::LEq
    } else if t is BangEqual {
        BinaryOperator::NEq
    } else if t is Greater {
        BinaryOperator::G
    } else {
        BinaryOperator::L
    }
}

/// Further comparison applications onto `left`.
pub open spec fn p_eq_rest(toks: Seq<TokenV>, j: int, left: NodeV) -> (Result<NodeV, PErrV>, int)
    decreases toks.len() - j, 9nat
        when 0 <= j <= toks.len()
{
    if j < toks.len() && is_cmp(toks[j].token_type) {
        let op = cmp_op(toks[j].token_type);
        let (r, k) = p_term(toks, j + 1);
        match r {
            Ok(right) => p_eq_rest(
                toks,
                next_pos(j, k, toks.len() as int),
                binary_node(left, right, op),
            ),
            Err(e) => (Err(e), k),
        }
    } else {
        (Ok(left), j)
    }
}

/// A comparison chain.
pub open spec fn p_equality(toks: Seq<TokenV>, i: int) -> (Result<NodeV, PErrV>, int)
    decreases toks.len() - i, 10nat
        when 0 <= i <= toks.len()
{
    let (r, j) = p_term(toks, i);
    match r {
        Ok(n) => p_eq_rest(toks, next_pos(i - 1, j, toks.len() as int), n),
        Err(e) => (Err(e), j),
    }
}

/// Further `and` applications onto `left`.
pub open spec fn p_and_rest(toks: Seq<TokenV>, j: int, left: NodeV) -> (Result<NodeV, PErrV>, int)
    decreases toks.len() - j, 11nat
        when 0 <= j <= toks.len()
{
    if j < toks.len() && toks[j].token_type is And {
        let (r, k) = p_equality(toks, j + 1);
        match r {
            Ok(right) => p_and_rest(
                toks,
                next_pos(j, k, toks.len() as int),
                binary_node(left, right, BinaryOperator::And),
            ),
            Err(e) => (Err(e), k),
        }
    } else {
        (Ok(left), j)
    }
}

/// An `and` chain.
pub open spec fn p_and(toks: Seq<TokenV>, i: int) -> (Result<NodeV, PErrV>, int)
    decreases toks.len() - i, 12nat
        when 0 <= i <= toks.len()
{
    let (r, j) = p_equality(toks, i);
    match r {
        Ok(n) => p_and_rest(toks, next_pos(i - 1, j, toks.len() as int), n),
        Err(e) => (Err(e), j),
    }
}

/// Further `or` applications onto `left`.
pub open spec fn p_or_rest(toks: Seq<TokenV>, j: int, left: NodeV) -> (Result<NodeV, PErrV>, int)
    decreases toks.len() - j, 13nat
        when 0 <= j <= toks.len()
{
    if j < toks.len() && toks[j].token_type is Or {
        let (r, k) = p_and(toks, j + 1);
        match r {
            Ok(right) => p_or_rest(
                toks,
                next_pos(j, k, toks.len() as int),
                binary_node(left, right, BinaryOperator::Or),
            ),
            Err(e) => (Err(e), k),
        }
    } else {
        (Ok(left), j)
    }
}

/// An `or` chain.
pub open spec fn p_or(toks: Seq<TokenV>, i: int) -> (Result<NodeV, PErrV>, int)
    decreases toks.len() - i, 14nat
        when 0 <= i <= toks.len()
{
    let (r, j) = p_and(toks, i);
    match r {
        Ok(n) => p_or_rest(toks, next_pos(i - 1, j, toks.len() as int), n),
        Err(e) => (Err(e), j),
    }
}

/// An assignment: right-associative, and only onto an identifier; any
/// other target followed by `=` is "Invalid assignment target.".
pub open spec fn p_assign(toks: Seq<TokenV>, i: int) -> (Result<NodeV, PErrV>, int)
    decreases toks.len() - i, 15nat
        when 0 <= i <= toks.len()
{
    let (r, j) = p_or(toks, i);
    match r {
        Ok(n) => {
            if i < toks.len() && 0 <= j < toks.len() && toks[j].token_type is Equal {
                match n {
                    NodeV::Identifier(name, pos) => {
                        let jj = if i <= j {
                            j
                        } else {
                            i
                        };
                        let (rv, k) = p_assign(toks, next_pos(jj, jj + 1, toks.len() as int));
                        match rv {
                            Ok(v) => (
                                Ok(
                                    NodeV::Assignment(
                                        name,
                                        Box::new(v),
                                        Position { from: pos.from, to: node_pos(v).to },
                                    ),
                                ),
                                k,
                            ),
                            Err(e) => (Err(e), k),
                        }
                    },
                    _ => (
                        Err(
                            PErrV {
                                line: line_at(toks, j),
                                message: "Invalid assignment target."@,
                            },
                        ),
                        j,
                    ),
                }
            } else {
                (Ok(n), j)
            }
        },
        Err(e) => (Err(e), j),
    }
}

/// The `var` statement, with the cursor on `var`.
pub open spec fn p_var_stmt(toks: Seq<TokenV>, i: int) -> (Result<StatementV, PErrV>, int)
    decreases toks.len() - i, 15nat
        when 0 <= i < toks.len()
{

        let (r, j) = p_atom(toks, next_pos(i, i + 1, toks.len() as int));
        match r {
            Ok(n) => match n {
                NodeV::Identifier(name, pos) => {
                    if j < toks.len() && toks[j].token_type is Equal {
                        let jj = if i <= j {
                            j
                        } else {
                            i
                        };
                        let nx = if jj + 1 <= toks.len() {
                            jj + 1
                        } else {
                            toks.len() as int
                        };
                        let (rv, k) = p_assign(toks, nx);
                        match rv {
                            Ok(v) => (Ok(StatementV::VarDecl(name, v)), eat_semi(toks, k)),
                            Err(e) => (Err(e), k),
                        }
                    } else if j < toks.len() && toks[j].token_type is SemiColon {
                        (
                            Ok(
                                StatementV::VarDecl(
                                    name,
                                    NodeV::Litteral(LitV::Nil, toks[j].position),
                                ),
                            ),
                            eat_semi(toks, j + 1),
                        )
                    } else if j >= toks.len() {
                        (Ok(StatementV::VarDecl(name, NodeV::Litteral(LitV::Nil, pos))), j)
                    } else {
                        (
                            Err(
                                PErrV {
                                    line: line_at(toks, j),
                                    message: "Expect '=' or ';' after variable declaration."@,
                                },
                            ),
                            j,
                        )
                    }
                },
                _ => (
                    Err(PErrV { line: node_pos(n).to.0 as int, message: "Expect identifier."@ }),
                    j,
                ),
            },
            Err(e) => (Err(e), j),
        }
}

/// The block statement, with the cursor on `{`.
pub open spec fn p_block_stmt(toks: Seq<TokenV>, i: int) -> (Result<StatementV, PErrV>, int)
    decreases toks.len() - i, 15nat
        when 0 <= i < toks.len()
{

        let (r, j) = p_block_items(toks, next_pos(i, i + 1, toks.len() as int));
        match r {
            Ok(ss) => (Ok(StatementV::Block(ss)), eat_semi(toks, j)),
            Err(e) => (Err(e), j),
        }
}

/// The `if` statement, with the cursor on `if`.
pub open spec fn p_if_stmt(toks: Seq<TokenV>, i: int) -> (Result<StatementV, PErrV>, int)
    decreases toks.len() - i, 15nat
        when 0 <= i < toks.len()
{

        if i + 1 >= toks.len() || !(toks[i + 1].token_type is LeftParen) {
            (
                Err(PErrV { line: line_at(toks, i), message: "Expect '(' after 'if'."@ }),
                i,
            )
        } else {
            let (rc, j) = p_assign(toks, next_pos(i + 1, i + 2, toks.len() as int));
            match rc {
                Ok(c) => {
                    if j < toks.len() && toks[j].token_type is RightParen {
                        let jj = if i + 1 <= j {
                            j
                        } else {
                            i + 1
                        };
                        let (rt, k) = p_statement(toks, next_pos(jj, jj + 1, toks.len() as int));
                        match rt {
                            Ok(t) => {
                                if k < toks.len() && toks[k].token_type is Else {
                                    let kk = if jj < k {
                                        k
                                    } else {
                                        jj + 1
                                    };
                                    let (re, m) = p_statement(
                                        toks,
                                        next_pos(kk, kk + 1, toks.len() as int),
                                    );
                                    match re {
                                        Ok(e2) => (
                                            Ok(
                                                StatementV::If(
                                                    c,
                                                    Box::new(t),
                                                    Some(Box::new(e2)),
                                                ),
                                            ),
                                            eat_semi(toks, m),
                                        ),
                                        Err(e) => (Err(e), m),
                                    }
                                } else {
                                    (
                                        Ok(StatementV::If(c, Box::new(t), None)),
                                        eat_semi(toks, k),
                                    )
                                }
                            },
                            Err(e) => (Err(e), k),
                        }
                    } else {
                        (
                            Err(
                                PErrV {
                                    line: line_at(toks, j),
                                    message: "Expect ')' after if condition."@,
                                },
                            ),
                            j,
                        )
                    }
                },
                Err(e) => (Err(e), j),
            }
        }
}

/// One statement: `print`, `var`, a block, `if`/`else`, or a bare
/// expression, with one optional trailing `;` consumed.
pub open spec fn p_statement(toks: Seq<TokenV>, i: int) -> (Result<StatementV, PErrV>, int)
    decreases toks.len() - i, 16nat
        when 0 <= i <= toks.len()
{
    if i >= toks.len() {
        (Err(PErrV { line: line_at(toks, i), message: "Expect expression."@ }), i)
    } else if toks[i].token_type is Print {
        let (r, j) = p_assign(toks, next_pos(i, i + 1, toks.len() as int));
        match r {
            Ok(v) => (Ok(StatementV::Print(v)), eat_semi(toks, j)),
            Err(e) => (Err(e), j),
        }
    } else if toks[i].token_type is Var {
        p_var_stmt(toks, i)
    } else if toks[i].token_type is LeftBrace {
        p_block_stmt(toks, i)
    } else if toks[i].token_type is If {
        p_if_stmt(toks, i)
    } else {
        let (r, j) = p_assign(toks, i);
        match r {
            Ok(v) => (Ok(StatementV::Expression(v)), eat_semi(toks, j)),
            Err(e) => (Err(e), j),
        }
    }
}

/// The statements of a block, up to and including the closing `}`; stray
/// `;` tokens between statements are skipped; a missing `}` is
/// "Expect '}'.".
pub open spec fn p_block_items(toks: Seq<TokenV>, j: int) -> (Result<Seq<StatementV>, PErrV>, int)
    decreases toks.len() - j, 17nat
        when 0 <= j <= toks.len()
{
    if j >= toks.len() {
        (Err(PErrV { line: line_at(toks, j), message: "Expect '}'."@ }), j)
    } else if toks[j].token_type is RightBrace {
        (Ok(Seq::empty()), j + 1)
    } else if toks[j].token_type is SemiColon {
        p_block_items(toks, j + 1)
    } else {
        let (r, k) = p_statement(toks, j);
        match r {
            Ok(s) => {
                let (rs, m) = p_block_items(toks, next_pos(j, k, toks.len() as int));
                match rs {
                    Ok(ss) => (Ok(seq![s] + ss), m),
                    Err(e) => (Err(e), m),
                }
            },
            Err(e) => (Err(e), k),
        }
    }
}

/// The statements of a whole program, to the end of the tokens.
pub open spec fn p_statements(toks: Seq<TokenV>, i: int) -> (
    Result<Seq<StatementV>, PErrV>,
    int,
)
    decreases toks.len() - i, 18nat
        when 0 <= i <= toks.len()
{
    if i >= toks.len() {
        (Ok(Seq::empty()), i)
    } else {
        let (r, j) = p_statement(toks, i);
        match r {
            Ok(s) => {
                let (rs, k) = p_statements(toks, next_pos(i, j, toks.len() as int));
                match rs {
                    Ok(ss) => (Ok(seq![s] + ss), k),
                    Err(e) => (Err(e), k),
                }
            },
            Err(e) => (Err(e), j),
        }
    }
}

/// The recursive-descent parser: a token sequence and a cursor that only
/// moves forward.
pub struct AstFactory {
    tokens: Vec<Token>,
    current: usize,
}

impl AstFactory {
    /// The scanned tokens, as the specification sees them.
    pub closed spec fn toks(&self) -> Seq<TokenV> {
        self.tokens@.map_values(|t: Token| t@)
    }

    /// The read cursor.
    pub closed spec fn cur(&self) -> int {
        self.current as int
    }

    /// The cursor never passes the end.
    pub closed spec fn inv(&self) -> bool {
        self.current <= self.tokens@.len()
    }

    /// Every number token carries a positive denominator.
    pub open spec fn toks_wf(&self) -> bool {
        forall|k: int| 0 <= k < self.toks().len() ==> token_wf(#[trigger] self.toks()[k])
    }

    /// A parser over `input`, with the cursor at the start.
    pub fn new(input: Vec<Token>) -> (r: AstFactory)
        ensures
            r.inv(),
            r.cur() == 0,
            r.toks() == input@.map_values(|t: Token| t@),
    {
        AstFactory { tokens: input, current: 0 }
    }

    /// Consumes one `;` if the cursor stands on one.
    fn take_semi(&mut self)
        requires
            old(self).inv(),
        ensures
            final(self).inv(),
            final(self).toks() == old(self).toks(),
            final(self).cur() == eat_semi(old(self).toks(), old(self).cur()),
    {
        if self.current < self.tokens.len() {
            let semi = match self.tokens[self.current].token_type {
                TokenType::SemiColon => true,
                _ => false,
            };
            if semi {
                self.current = self.current + 1;
            }
        }
    }

    /// The line for an error at the cursor; see `line_at`.
    fn line_here(&self, at: usize) -> (l: usize)
        requires
            self.inv(),
        ensures
            l as int == line_at(self.toks(), at as int),
    {
        if at < self.tokens.len() {
            self.tokens[at].position.line()
        } else if self.tokens.len() > 0 {
            let last = self.tokens.len() - 1;
            self.tokens[last].position.line()
        } else {
            0
        }
    }

    /// An atom; follows `p_atom`. This is also where `var` looks for its
    /// identifier.
    fn parse_number(&mut self) -> (res: Result<Node, ParseError>)
        requires
            old(self).inv(),
            old(self).toks_wf(),
        ensures
            final(self).inv(),
            final(self).toks() == old(self).toks(),
            ({
                let (r, j) = p_atom(old(self).toks(), old(self).cur());
                final(self).cur() == j && match (res, r) {
                    (Ok(n), Ok(nv)) => n@ == nv && node_wf(nv) && old(self).cur() < j,
                    (Err(e), Err(ev)) => e@ == ev,
                    _ => false,
                }
            }),
    {
        proof {
            assert(self.toks().len() == self.tokens@.len());
        }
        let i = self.current;
        if i >= self.tokens.len() {
            return Err(
                ParseError {
                    line: self.line_here(i),
                    message: String::from_str("Expect expression."),
                },
            );
        }
        let position = self.tokens[i].position;
        match &self.tokens[i].token_type {
            TokenType::Number(x) => {
                let n = *x;
                self.current = i + 1;
                Ok(Node::Litteral(Litteral::Number(n), position))
            },
            TokenType::True => {
                self.current = i + 1;
                Ok(Node::Litteral(Litteral::Boolean(true), position))
            },
            TokenType::False => {
                self.current = i + 1;
                Ok(Node::Litteral(Litteral::Boolean(false), position))
            },
            TokenType::Nil => {
                self.current = i + 1;
                Ok(Node::Litteral(Litteral::Nil, position))
            },
            TokenType::StringLitteral(s) => {
                let v = s.clone();
                self.current = i + 1;
                Ok(Node::Litteral(Litteral::String(v), position))
            },
            TokenType::Identifier(name) => {
                let v = name.clone();
                self.current = i + 1;
                Ok(Node::Identifier(v, position))
            },
            _ => Err(
                ParseError {
                    line: self.line_here(i),
                    message: String::from_str("Expect expression."),
                },
            ),
        }
    }

    /// A parenthesized group; follows `p_paren`. The tokens between the
    /// matched parentheses are parsed by a fresh sub-parser.
    fn parse_paren(&mut self) -> (res: Result<Node, ParseError>)
        requires
            old(self).inv(),
            old(self).toks_wf(),
        ensures
            final(self).inv(),
            final(self).toks() == old(self).toks(),
            ({
                let (r, j) = p_paren(old(self).toks(), old(self).cur());
                final(self).cur() == j && match (res, r) {
                    (Ok(n), Ok(nv)) => n@ == nv && node_wf(nv) && old(self).cur() < j,
                    (Err(e), Err(ev)) => e@ == ev,
                    _ => false,
                }
            }),
        decreases old(self).toks().len() - old(self).cur(), 1nat,
    {
        proof {
            assert(self.toks().len() == self.tokens@.len());
        }
        let i = self.current;
        let open = i < self.tokens.len() && match self.tokens[i].token_type {
            TokenType::LeftParen => true,
            _ => false,
        };
        if !open {
            return self.parse_number();
        }
        // find the matching `)`
        let mut j = i + 1;
        let mut depth: usize = 1;
        while j < self.tokens.len() && depth >= 1
            invariant
                self.inv(),
                i + 1 <= j <= self.tokens@.len(),
                depth >= 0,
                depth >= 1 ==> paren_close(self.toks(), i + 1, 1) == paren_close(
                    self.toks(),
                    j as int,
                    depth as int,
                ),
                depth == 0 ==> j >= 1 && paren_close(self.toks(), i + 1, 1) == j - 1,
                depth <= j,
            decreases self.tokens@.len() - j,
        {
            match self.tokens[j].token_type {
                TokenType::LeftParen => {
                    depth = depth + 1;
                },
                TokenType::RightParen => {
                    depth = depth - 1;
                },
                _ => {},
            }
            j = j + 1;
        }
        if depth >= 1 {
            proof {
                assert(paren_close(self.toks(), j as int, depth as int) == self.toks().len());
            }
            self.current = self.tokens.len();
            return Err(
                ParseError {
                    line: self.line_here(i),
                    message: String::from_str("Unescaped parenthesis"),
                },
            );
        }
        let close = j - 1;
        proof {
            lemma_paren_close_bounds(self.toks(), i + 1, 1);
        }
        // the inner tokens become a fresh sub-parser
        let mut sub: Vec<Token> = Vec::new();
        let mut k = i + 1;
        while k < close
            invariant
                self.inv(),
                i + 1 <= k <= close <= self.tokens@.len(),
                sub@.map_values(|t: Token| t@) =~= self.toks().subrange(i + 1, k as int),
            decreases close - k,
        {
            let ghost pre = sub@.map_values(|t: Token| t@);
            sub.push(self.tokens[k].duplicate());
            proof {
                assert(sub@.map_values(|t: Token| t@) =~= pre.push(self.toks()[k as int]));
                assert(pre.push(self.toks()[k as int]) =~= self.toks().subrange(i + 1, k + 1));
            }
            k = k + 1;
        }
        let mut parser = AstFactory { tokens: sub, current: 0 };
        proof {
            assert(parser.toks() =~= old(self).toks().subrange(i + 1, close as int));
        }
        let inner = parser.parse_assignment();
        self.current = close + 1;
        match inner {
            Ok(n) => Ok(Node::Parenthesis(Box::new(n))),
            Err(e) => Err(e),
        }
    }

    /// A unary `!` or `-`; follows `p_unary`.
    fn parse_unary(&mut self) -> (res: Result<Node, ParseError>)
        requires
            old(self).inv(),
            old(self).toks_wf(),
        ensures
            final(self).inv(),
            final(self).toks() == old(self).toks(),
            ({
                let (r, j) = p_unary(old(self).toks(), old(self).cur());
                final(self).cur() == j && match (res, r) {
                    (Ok(n), Ok(nv)) => n@ == nv && node_wf(nv) && old(self).cur() < j,
                    (Err(e), Err(ev)) => e@ == ev,
                    _ => false,
                }
            }),
        decreases old(self).toks().len() - old(self).cur(), 1nat,
    {
        proof {
            assert(self.toks().len() == self.tokens@.len());
        }
        let i = self.current;
        let op = if i < self.tokens.len() {
            match self.tokens[i].token_type {
                TokenType::Bang => Some(UnaryOperator::Not),
                TokenType::Minus => Some(UnaryOperator::Neg),
                _ => None,
            }
        } else {
            None
        };
        match op {
            Some(o) => {
                let op_pos = self.tokens[i].position;
                self.current = i + 1;
                match self.parse_primary() {
                    Ok(n) => {
                        let position = Position::range(op_pos, n.position());
                        Ok(Node::Unary(o, Box::new(n), position))
                    },
                    Err(e) => Err(e),
                }
            },
            None => self.parse_number(),
        }
    }

    /// A primary; follows `p_primary`.
    fn parse_primary(&mut self) -> (res: Result<Node, ParseError>)
        requires
            old(self).inv(),
            old(self).toks_wf(),
        ensures
            final(self).inv(),
            final(self).toks() == old(self).toks(),
            ({
                let (r, j) = p_primary(old(self).toks(), old(self).cur());
                final(self).cur() == j && match (res, r) {
                    (Ok(n), Ok(nv)) => n@ == nv && node_wf(nv) && old(self).cur() < j,
                    (Err(e), Err(ev)) => e@ == ev,
                    _ => false,
                }
            }),
        decreases old(self).toks().len() - old(self).cur(), 2nat,
    {
        proof {
            assert(self.toks().len() == self.tokens@.len());
        }
        let i = self.current;
        if i >= self.tokens.len() {
            return Err(
                ParseError {
                    line: self.line_here(i),
                    message: String::from_str("Expect expression."),
                },
            );
        }
        match self.tokens[i].token_type {
            TokenType::LeftParen => self.parse_paren(),
            TokenType::Bang => self.parse_unary(),
            TokenType::Minus => self.parse_unary(),
            _ => self.parse_number(),
        }
    }

    /// Further `^` applications; follows `p_exp_rest`.
    fn exp_rest(&mut self, left: Node) -> (res: Result<Node, ParseError>)
        requires
            old(self).inv(),
            old(self).toks_wf(),
        ensures
            final(self).inv(),
            final(self).toks() == old(self).toks(),
            ({
                let (r, j) = p_exp_rest(old(self).toks(), old(self).cur(), left@);
                final(self).cur() == j && match (res, r) {
                    (Ok(n), Ok(nv)) => n@ == nv && (node_wf(left@) ==> node_wf(nv)) && old(
                        self,
                    ).cur() <= j,
                    (Err(e), Err(ev)) => e@ == ev,
                    _ => false,
                }
            }),
        decreases old(self).toks().len() - old(self).cur(), 3nat,
    {
        proof {
            assert(self.toks().len() == self.tokens@.len());
        }
        let i = self.current;
        let hit = i < self.tokens.len() && match self.tokens[i].token_type {
            TokenType::Carrot => true,
            _ => false,
        };
        if !hit {
            return Ok(left);
        }
        self.current = i + 1;
        match self.parse_primary() {
            Ok(right) => {
                let position = Position::range(left.position(), right.position());
                let node = Node::Binary {
                    left: Box::new(left),
                    right: Box::new(right),
                    operator: BinaryOperator::Pow,
                    position,
                };
                self.exp_rest(node)
            },
            Err(e) => Err(e),
        }
    }

    /// An exponentiation chain; follows `p_exponent`.
    fn parse_exponent(&mut self) -> (res: Result<Node, ParseError>)
        requires
            old(self).inv(),
            old(self).toks_wf(),
        ensures
            final(self).inv(),
            final(self).toks() == old(self).toks(),
            ({
                let (r, j) = p_exponent(old(self).toks(), old(self).cur());
                final(self).cur() == j && match (res, r) {
                    (Ok(n), Ok(nv)) => n@ == nv && node_wf(nv) && old(self).cur() < j,
                    (Err(e), Err(ev)) => e@ == ev,
                    _ => false,
                }
            }),
        decreases old(self).toks().len() - old(self).cur(), 4nat,
    {
        match self.parse_primary() {
            Ok(n) => self.exp_rest(n),
            Err(e) => Err(e),
        }
    }

    /// Further `*` or `/` applications; follows `p_factor_rest`.
    #[verifier::rlimit(80)]
    fn factor_rest(&mut self, left: Node) -> (res: Result<Node, ParseError>)
        requires
            old(self).inv(),
            old(self).toks_wf(),
        ensures
            final(self).inv(),
            final(self).toks() == old(self).toks(),
            ({
                let (r, j) = p_factor_rest(old(self).toks(), old(self).cur(), left@);
                final(self).cur() == j && match (res, r) {
                    (Ok(n), Ok(nv)) => n@ == nv && (node_wf(left@) ==> node_wf(nv)) && old(
                        self,
                    ).cur() <= j,
                    (Err(e), Err(ev)) => e@ == ev,
                    _ => false,
                }
            }),
        decreases old(self).toks().len() - old(self).cur(), 5nat,
    {
        proof {
            assert(self.toks().len() == self.tokens@.len());
        }
        let i = self.current;
        let op = if i < self.tokens.len() {
            match self.tokens[i].token_type {
                TokenType::Star => Some(BinaryOperator::Mul),
                TokenType::Slash => Some(BinaryOperator::Div),
                _ => None,
            }
        } else {
            None
        };
        match op {
            Some(o) => {
                self.current = i + 1;
                match self.parse_exponent() {
                    Ok(right) => {
                        let position = Position::range(left.position(), right.position());
                        let node = Node::Binary {
                            left: Box::new(left),
                            right: Box::new(right),
                            operator: o,
                            position,
                        };
                        self.factor_rest(node)
                    },
                    Err(e) => Err(e),
                }
            },
            None => Ok(left),
        }
    }

    /// A multiplication chain; follows `p_factor`.
    fn parse_factor(&mut self) -> (res: Result<Node, ParseError>)
        requires
            old(self).inv(),
            old(self).toks_wf(),
        ensures
            final(self).inv(),
            final(self).toks() == old(self).toks(),
            ({
                let (r, j) = p_factor(old(self).toks(), old(self).cur());
                final(self).cur() == j && match (res, r) {
                    (Ok(n), Ok(nv)) => n@ == nv && node_wf(nv) && old(self).cur() < j,
                    (Err(e), Err(ev)) => e@ == ev,
                    _ => false,
                }
            }),
        decreases old(self).toks().len() - old(self).cur(), 6nat,
    {
        match self.parse_exponent() {
            Ok(n) => self.factor_rest(n),
            Err(e) => Err(e),
        }
    }

    /// Further `+` or `-` applications; follows `p_term_rest`.
    #[verifier::rlimit(80)]
    fn term_rest(&mut self, left: Node) -> (res: Result<Node, ParseError>)
        requires
            old(self).inv(),
            old(self).toks_wf(),
        ensures
            final(self).inv(),
            final(self).toks() == old(self).toks(),
            ({
                let (r, j) = p_term_rest(old(self).toks(), old(self).cur(), left@);
                final(self).cur() == j && match (res, r) {
                    (Ok(n), Ok(nv)) => n@ == nv && (node_wf(left@) ==> node_wf(nv)) && old(
                        self,
                    ).cur() <= j,
                    (Err(e), Err(ev)) => e@ == ev,
                    _ => false,
                }
            }),
        decreases old(self).toks().len() - old(self).cur(), 7nat,
    {
        proof {
            assert(self.toks().len() == self.tokens@.len());
        }
        let i = self.current;
        let op = if i < self.tokens.len() {
            match self.tokens[i].token_type {
                TokenType::Plus => Some(BinaryOperator::Add),
                TokenType::Minus => Some(BinaryOperator::Sub),
                _ => None,
            }
        } else {
            None
        };
        match op {
            Some(o) => {
                self.current = i + 1;
                match self.parse_factor() {
                    Ok(right) => {
                        let position = Position::range(left.position(), right.position());
                        let node = Node::Binary {
                            left: Box::new(left),
                            right: Box::new(right),
                            operator: o,
                            position,
                        };
                        self.term_rest(node)
                    },
                    Err(e) => Err(e),
                }
            },
            None => Ok(left),
        }
    }

    /// An additive chain; follows `p_term`.
    fn parse_term(&mut self) -> (res: Result<Node, ParseError>)
        requires
            old(self).inv(),
            old(self).toks_wf(),
        ensures
            final(self).inv(),
            final(self).toks() == old(self).toks(),
            ({
                let (r, j) = p_term(old(self).toks(), old(self).cur());
                final(self).cur() == j && match (res, r) {
                    (Ok(n), Ok(nv)) => n@ == nv && node_wf(nv) && old(self).cur() < j,
                    (Err(e), Err(ev)) => e@ == ev,
                    _ => false,
                }
            }),
        decreases old(self).toks().len() - old(self).cur(), 8nat,
    {
        match self.parse_factor() {
            Ok(n) => self.term_rest(n),
            Err(e) => Err(e),
        }
    }

    /// Further comparison applications; follows `p_eq_rest`.
    #[verifier::rlimit(80)]
    fn eq_rest(&mut self, left: Node) -> (res: Result<Node, ParseError>)
        requires
            old(self).inv(),
            old(self).toks_wf(),
        ensures
            final(self).inv(),
            final(self).toks() == old(self).toks(),
            ({
                let (r, j) = p_eq_rest(old(self).toks(), old(self).cur(), left@);
                final(self).cur() == j && match (res, r) {
                    (Ok(n), Ok(nv)) => n@ == nv && (node_wf(left@) ==> node_wf(nv)) && old(
                        self,
                    ).cur() <= j,
                    (Err(e), Err(ev)) => e@ == ev,
                    _ => false,
                }
            }),
        decreases old(self).toks().len() - old(self).cur(), 9nat,
    {
        proof {
            assert(self.toks().len() == self.tokens@.len());
        }
        let i = self.current;
        let op = if i < self.tokens.len() {
            match self.tokens[i].token_type {
                TokenType::EqualEqual => Some(BinaryOperator::Eq),
                TokenType::GreaterEqual => Some(BinaryOperator::GEq),
                TokenType::LessEqual => Some(BinaryOperator::LEq),
                TokenType::BangEqual => Some(BinaryOperator::NEq),
                TokenType::Greater => Some(BinaryOperator::G),
                TokenType::Less => Some(BinaryOperator::L),
                _ => None,
            }
        } else {
            None
        };
        match op {
            Some(o) => {
                self.current = i + 1;
                match self.parse_term() {
                    Ok(right) => {
                        let position = Position::range(left.position(), right.position());
                        let node = Node::Binary {
                            left: Box::new(left),
                            right: Box::new(right),
                            operator: o,
                            position,
                        };
                        self.eq_rest(node)
                    },
                    Err(e) => Err(e),
                }
            },
            None => Ok(left),
        }
    }

    /// A comparison chain; follows `p_equality`.
    pub fn parse_equality(&mut self) -> (res: Result<Node, ParseError>)
        requires
            old(self).inv(),
            old(self).toks_wf(),
        ensures
            final(self).inv(),
            final(self).toks() == old(self).toks(),
            ({
                let (r, j) = p_equality(old(self).toks(), old(self).cur());
                final(self).cur() == j && match (res, r) {
                    (Ok(n), Ok(nv)) => n@ == nv && node_wf(nv) && old(self).cur() < j,
                    (Err(e), Err(ev)) => e@ == ev,
                    _ => false,
                }
            }),
        decreases old(self).toks().len() - old(self).cur(), 10nat,
    {
        match self.parse_term() {
            Ok(n) => self.eq_rest(n),
            Err(e) => Err(e),
        }
    }

    /// Further `and` applications; follows `p_and_rest`.
    #[verifier::rlimit(80)]
    fn and_rest(&mut self, left: Node) -> (res: Result<Node, ParseError>)
        requires
            old(self).inv(),
            old(self).toks_wf(),
        ensures
            final(self).inv(),
            final(self).toks() == old(self).toks(),
            ({
                let (r, j) = p_and_rest(old(self).toks(), old(self).cur(), left@);
                final(self).cur() == j && match (res, r) {
                    (Ok(n), Ok(nv)) => n@ == nv && (node_wf(left@) ==> node_wf(nv)) && old(
                        self,
                    ).cur() <= j,
                    (Err(e), Err(ev)) => e@ == ev,
                    _ => false,
                }
            }),
        decreases old(self).toks().len() - old(self).cur(), 11nat,
    {
        proof {
            assert(self.toks().len() == self.tokens@.len());
        }
        let i = self.current;
        let hit = i < self.tokens.len() && match self.tokens[i].token_type {
            TokenType::And => true,
            _ => false,
        };
        if !hit {
            return Ok(left);
        }
        self.current = i + 1;
        match self.parse_equality() {
            Ok(right) => {
                let position = Position::range(left.position(), right.position());
                let node = Node::Binary {
                    left: Box::new(left),
                    right: Box::new(right),
                    operator: BinaryOperator::And,
                    position,
                };
                self.and_rest(node)
            },
            Err(e) => Err(e),
        }
    }

    /// An `and` chain; follows `p_and`.
    pub fn parse_and(&mut self) -> (res: Result<Node, ParseError>)
        requires
            old(self).inv(),
            old(self).toks_wf(),
        ensures
            final(self).inv(),
            final(self).toks() == old(self).toks(),
            ({
                let (r, j) = p_and(old(self).toks(), old(self).cur());
                final(self).cur() == j && match (res, r) {
                    (Ok(n), Ok(nv)) => n@ == nv && node_wf(nv) && old(self).cur() < j,
                    (Err(e), Err(ev)) => e@ == ev,
                    _ => false,
                }
            }),
        decreases old(self).toks().len() - old(self).cur(), 12nat,
    {
        match self.parse_equality() {
            Ok(n) => self.and_rest(n),
            Err(e) => Err(e),
        }
    }

    /// Further `or` applications; follows `p_or_rest`.
    #[verifier::rlimit(80)]
    fn or_rest(&mut self, left: Node) -> (res: Result<Node, ParseError>)
        requires
            old(self).inv(),
            old(self).toks_wf(),
        ensures
            final(self).inv(),
            final(self).toks() == old(self).toks(),
            ({
                let (r, j) = p_or_rest(old(self).toks(), old(self).cur(), left@);
                final(self).cur() == j && match (res, r) {
                    (Ok(n), Ok(nv)) => n@ == nv && (node_wf(left@) ==> node_wf(nv)) && old(
                        self,
                    ).cur() <= j,
                    (Err(e), Err(ev)) => e@ == ev,
                    _ => false,
                }
            }),
        decreases old(self).toks().len() - old(self).cur(), 13nat,
    {
        proof {
            assert(self.toks().len() == self.tokens@.len());
        }
        let i = self.current;
        let hit = i < self.tokens.len() && match self.tokens[i].token_type {
            TokenType::Or => true,
            _ => false,
        };
        if !hit {
            return Ok(left);
        }
        self.current = i + 1;
        match self.parse_and() {
            Ok(right) => {
                let position = Position::range(left.position(), right.position());
                let node = Node::Binary {
                    left: Box::new(left),
                    right: Box::new(right),
                    operator: BinaryOperator::Or,
                    position,
                };
                self.or_rest(node)
            },
            Err(e) => Err(e),
        }
    }

    /// An `or` chain; follows `p_or`.
    pub fn parse_or(&mut self) -> (res: Result<Node, ParseError>)
        requires
            old(self).inv(),
            old(self).toks_wf(),
        ensures
            final(self).inv(),
            final(self).toks() == old(self).toks(),
            ({
                let (r, j) = p_or(old(self).toks(), old(self).cur());
                final(self).cur() == j && match (res, r) {
                    (Ok(n), Ok(nv)) => n@ == nv && node_wf(nv) && old(self).cur() < j,
                    (Err(e), Err(ev)) => e@ == ev,
                    _ => false,
                }
            }),
        decreases old(self).toks().len() - old(self).cur(), 14nat,
    {
        match self.parse_and() {
            Ok(n) => self.or_rest(n),
            Err(e) => Err(e),
        }
    }

    /// An assignment; follows `p_assign`.
    #[verifier::rlimit(100)]
    #[verifier::spinoff_prover]
    fn parse_assignment(&mut self) -> (res: Result<Node, ParseError>)
        requires
            old(self).inv(),
            old(self).toks_wf(),
        ensures
            final(self).inv(),
            final(self).toks() == old(self).toks(),
            ({
                let (r, j) = p_assign(old(self).toks(), old(self).cur());
                final(self).cur() == j && match (res, r) {
                    (Ok(n), Ok(nv)) => n@ == nv && node_wf(nv) && old(self).cur() < j,
                    (Err(e), Err(ev)) => e@ == ev,
                    _ => false,
                }
            }),
        decreases old(self).toks().len() - old(self).cur(), 15nat,
    {
        let n = match self.parse_or() {
            Ok(n) => n,
            Err(e) => {
                return Err(e);
            },
        };
        let j = self.current;
        let eq = j < self.tokens.len() && match self.tokens[j].token_type {
            TokenType::Equal => true,
            _ => false,
        };
        if !eq {
            return Ok(n);
        }
        match n {
            Node::Identifier(name, pos) => {
                self.current = j + 1;
                match self.parse_assignment() {
                    Ok(v) => {
                        let position = Position::range(pos, v.position());
                        Ok(Node::Assignment(name, Box::new(v), position))
                    },
                    Err(e) => Err(e),
                }
            },
            _ => Err(
                ParseError {
                    line: self.line_here(j),
                    message: String::from_str("Invalid assignment target."),
                },
            ),
        }
    }

    /// One statement; follows `p_statement`.
    #[verifier::rlimit(100)]
    #[verifier::spinoff_prover]
    #[verifier::loop_isolation(false)]
    pub fn parse_statement(&mut self) -> (res: Result<Statement, ParseError>)
        requires
            old(self).inv(),
            old(self).toks_wf(),
        ensures
            final(self).inv(),
            final(self).toks() == old(self).toks(),
            ({
                let (r, j) = p_statement(old(self).toks(), old(self).cur());
                final(self).cur() == j && match (res, r) {
                    (Ok(st), Ok(sv)) => st@ == sv && stmt_wf(sv) && old(self).cur() < j,
                    (Err(e), Err(ev)) => e@ == ev,
                    _ => false,
                }
            }),
        decreases old(self).toks().len() - old(self).cur(), 16nat,
    {
        proof {
            assert(self.toks().len() == self.tokens@.len());
        }
        let i = self.current;
        if i >= self.tokens.len() {
            return Err(
                ParseError {
                    line: self.line_here(i),
                    message: String::from_str("Expect expression."),
                },
            );
        }
        let is_print = matches!(self.tokens[i].token_type, TokenType::Print);
        let is_var = matches!(self.tokens[i].token_type, TokenType::Var);
        let is_brace = matches!(self.tokens[i].token_type, TokenType::LeftBrace);
        let is_if = matches!(self.tokens[i].token_type, TokenType::If);
        if is_print {
                self.current = i + 1;
                match self.parse_assignment() {
                    Ok(v) => {
                        self.take_semi();
                        Ok(Statement::Print(v))
                    },
                    Err(e) => Err(e),
                }
        } else if is_var {
            self.stmt_var()
        } else if is_brace {
            self.stmt_block()
        } else if is_if {
            self.stmt_if()
        } else {
            match self.parse_assignment() {
                Ok(v) => {
                    self.take_semi();
                    Ok(Statement::Expression(v))
                },
                Err(e) => Err(e),
            }
        }
    }

    /// The `var` statement; follows `p_var_stmt`.
    #[verifier::rlimit(100)]
    #[verifier::spinoff_prover]
    fn stmt_var(&mut self) -> (res: Result<Statement, ParseError>)
        requires
            old(self).inv(),
            old(self).toks_wf(),
            old(self).cur() < old(self).toks().len(),
            old(self).toks()[old(self).cur()].token_type is Var,
        ensures
            final(self).inv(),
            final(self).toks() == old(self).toks(),
            ({
                let (r, j) = p_var_stmt(old(self).toks(), old(self).cur());
                final(self).cur() == j && match (res, r) {
                    (Ok(st), Ok(sv)) => st@ == sv && stmt_wf(sv) && old(self).cur() < j,
                    (Err(e), Err(ev)) => e@ == ev,
                    _ => false,
                }
            }),
        decreases old(self).toks().len() - old(self).cur(), 15nat,
    {
        proof {
            assert(self.toks().len() == self.tokens@.len());
        }
        let i = self.current;
        let _n_toks = self.tokens.len();

            {
                self.current = i + 1;
                match self.parse_number() {
                    Ok(n) => match n {
                        Node::Identifier(name, pos) => {
                            let j = self.current;
                            let eq_next = j < self.tokens.len() && match self
                                .tokens[j]
                                .token_type {
                                TokenType::Equal => true,
                                _ => false,
                            };
                            let semi_next = j < self.tokens.len() && match self
                                .tokens[j]
                                .token_type {
                                TokenType::SemiColon => true,
                                _ => false,
                            };
                            if eq_next {
                                self.current = j + 1;
                                match self.parse_assignment() {
                                    Ok(v) => {
                                        self.take_semi();
                                        Ok(Statement::VarDecl(name, v))
                                    },
                                    Err(e) => Err(e),
                                }
                            } else if semi_next {
                                let semi_pos = self.tokens[j].position;
                                self.current = j + 1;
                                self.take_semi();
                                Ok(
                                    Statement::VarDecl(
                                        name,
                                        Node::Litteral(Litteral::Nil, semi_pos),
                                    ),
                                )
                            } else if j >= self.tokens.len() {
                                Ok(Statement::VarDecl(name, Node::Litteral(Litteral::Nil, pos)))
                            } else {
                                Err(
                                    ParseError {
                                        line: self.line_here(j),
                                        message: String::from_str(
                                            "Expect '=' or ';' after variable declaration.",
                                        ),
                                    },
                                )
                            }
                        },
                        other => {
                            let line = other.position().line();
                            Err(
                                ParseError {
                                    line,
                                    message: String::from_str("Expect identifier."),
                                },
                            )
                        },
                    },
                    Err(e) => Err(e),
                }
            }
    }

    /// The block statement; follows `p_block_stmt`.
    #[verifier::rlimit(100)]
    #[verifier::spinoff_prover]
    #[verifier::loop_isolation(false)]
    fn stmt_block(&mut self) -> (res: Result<Statement, ParseError>)
        requires
            old(self).inv(),
            old(self).toks_wf(),
            old(self).cur() < old(self).toks().len(),
            old(self).toks()[old(self).cur()].token_type is LeftBrace,
        ensures
            final(self).inv(),
            final(self).toks() == old(self).toks(),
            ({
                let (r, j) = p_block_stmt(old(self).toks(), old(self).cur());
                final(self).cur() == j && match (res, r) {
                    (Ok(st), Ok(sv)) => st@ == sv && stmt_wf(sv) && old(self).cur() < j,
                    (Err(e), Err(ev)) => e@ == ev,
                    _ => false,
                }
            }),
        decreases old(self).toks().len() - old(self).cur(), 15nat,
    {
        proof {
            assert(self.toks().len() == self.tokens@.len());
        }
        let i = self.current;
        let _n_toks = self.tokens.len();

            {
                self.current = i + 1;
                let ghost c1 = self.cur();
                let mut items: Vec<Statement> = Vec::new();
                proof {
                    assert(view_stmt_seq(items@) =~= Seq::<StatementV>::empty());
                }
                loop
                    invariant
                        self.inv(),
                        self.toks_wf(),
                        self.toks() == old(self).toks(),
                        c1 <= self.cur() <= self.toks().len(),
                        forall|q: int|
                            0 <= q < items@.len() ==> stmt_wf(#[trigger] items@[q]@),
                        ({
                            let (fr, fk) = p_block_items(self.toks(), c1);
                            let (rr, rk) = p_block_items(self.toks(), self.cur());
                            fk == rk && fr == (match rr {
                                Ok(rss) => Ok(view_stmt_seq(items@) + rss),
                                Err(e) => Err::<Seq<StatementV>, PErrV>(e),
                            })
                        }),
                    decreases self.toks().len() - self.cur(),
                {
                    let j = self.current;
                    if j >= self.tokens.len() {
                        return Err(
                            ParseError {
                                line: self.line_here(j),
                                message: String::from_str("Expect '}'."),
                            },
                        );
                    }
                    let brace = match self.tokens[j].token_type {
                        TokenType::RightBrace => true,
                        _ => false,
                    };
                    let semi = match self.tokens[j].token_type {
                        TokenType::SemiColon => true,
                        _ => false,
                    };
                    if brace {
                        self.current = j + 1;
                        proof {
                            let (rr, rk) = p_block_items(self.toks(), j as int);
                            assert(rr == Ok::<Seq<StatementV>, PErrV>(Seq::<StatementV>::empty()));
                            assert(view_stmt_seq(items@) + Seq::<StatementV>::empty()
                                =~= view_stmt_seq(items@));
                            lemma_view_stmt_seq_len(items@);
                            assert forall|q: int|
                                0 <= q < view_stmt_seq(items@).len() implies stmt_wf(
                                #[trigger] view_stmt_seq(items@)[q],
                            ) by {
                                assert(view_stmt_seq(items@)[q] == view_stmt(items@[q]));
                                assert(stmt_wf(items@[q]@));
                            }
                            lemma_stmts_wf_build(view_stmt_seq(items@));
                        }
                        self.take_semi();
                        return Ok(Statement::Block(items));
                    }
                    if semi {
                        self.current = j + 1;
                        continue ;
                    }
                    let ghost pre_items = view_stmt_seq(items@);
                    let ghost pre_vec = items@;
                    match self.parse_statement() {
                        Ok(st) => {
                            items.push(st);
                            proof {
                                assert(items@.drop_last() =~= pre_vec);
                                assert(view_stmt_seq(items@) =~= pre_items.push(st@));
                                let (rr2, rk2) = p_block_items(self.toks(), self.cur());
                                match rr2 {
                                    Ok(rss2) => {
                                        assert(pre_items + (seq![st@] + rss2) =~= pre_items.push(
                                            st@,
                                        ) + rss2);
                                    },
                                    Err(e) => {},
                                }
                            }
                        },
                        Err(e) => {
                            return Err(e);
                        },
                    }
                }
            }
    }

    /// The `if` statement; follows `p_if_stmt`.
    #[verifier::rlimit(100)]
    #[verifier::spinoff_prover]
    fn stmt_if(&mut self) -> (res: Result<Statement, ParseError>)
        requires
            old(self).inv(),
            old(self).toks_wf(),
            old(self).cur() < old(self).toks().len(),
            old(self).toks()[old(self).cur()].token_type is If,
        ensures
            final(self).inv(),
            final(self).toks() == old(self).toks(),
            ({
                let (r, j) = p_if_stmt(old(self).toks(), old(self).cur());
                final(self).cur() == j && match (res, r) {
                    (Ok(st), Ok(sv)) => st@ == sv && stmt_wf(sv) && old(self).cur() < j,
                    (Err(e), Err(ev)) => e@ == ev,
                    _ => false,
                }
            }),
        decreases old(self).toks().len() - old(self).cur(), 15nat,
    {
        proof {
            assert(self.toks().len() == self.tokens@.len());
        }
        let i = self.current;
        let _n_toks = self.tokens.len();

            {
                let open = i + 1 < self.tokens.len() && match self.tokens[i + 1].token_type {
                    TokenType::LeftParen => true,
                    _ => false,
                };
                if !open {
                    return Err(
                        ParseError {
                            line: self.line_here(i),
                            message: String::from_str("Expect '(' after 'if'."),
                        },
                    );
                }
                self.current = i + 2;
                match self.parse_assignment() {
                    Ok(c) => {
                        let j = self.current;
                        let closed = j < self.tokens.len() && match self.tokens[j].token_type {
                            TokenType::RightParen => true,
                            _ => false,
                        };
                        if !closed {
                            return Err(
                                ParseError {
                                    line: self.line_here(j),
                                    message: String::from_str("Expect ')' after if condition."),
                                },
                            );
                        }
                        self.current = j + 1;
                        match self.parse_statement() {
                            Ok(t) => {
                                let k = self.current;
                                let has_else = k < self.tokens.len() && match self
                                    .tokens[k]
                                    .token_type {
                                    TokenType::Else => true,
                                    _ => false,
                                };
                                if has_else {
                                    self.current = k + 1;
                                    match self.parse_statement() {
                                        Ok(e2) => {
                                            self.take_semi();
                                            Ok(
                                                Statement::If(
                                                    c,
                                                    Box::new(t),
                                                    Some(Box::new(e2)),
                                                ),
                                            )
                                        },
                                        Err(e) => Err(e),
                                    }
                                } else {
                                    self.take_semi();
                                    Ok(Statement::If(c, Box::new(t), None))
                                }
                            },
                            Err(e) => Err(e),
                        }
                    },
                    Err(e) => Err(e),
                }
            }
    }

    /// The statements of a whole program; follows `p_statements`. Stops
    /// at the first grammatical failure.
    #[verifier::rlimit(80)]
    #[verifier::loop_isolation(false)]
    pub fn parse_statements(&mut self) -> (res: Result<Vec<Statement>, ParseError>)
        requires
            old(self).inv(),
            old(self).toks_wf(),
        ensures
            final(self).inv(),
            final(self).toks() == old(self).toks(),
            ({
                let (r, j) = p_statements(old(self).toks(), old(self).cur());
                final(self).cur() == j && match (res, r) {
                    (Ok(out), Ok(ss)) => view_stmt_seq(out@) == ss && (forall|q: int|
                        0 <= q < out@.len() ==> stmt_wf(#[trigger] out@[q]@)),
                    (Err(e), Err(ev)) => e@ == ev,
                    _ => false,
                }
            }),
    {
        let ghost c0 = self.cur();
        let mut out: Vec<Statement> = Vec::new();
        proof {
            assert(view_stmt_seq(out@) =~= Seq::<StatementV>::empty());
        }
        loop
            invariant
                self.inv(),
                self.toks_wf(),
                self.toks() == old(self).toks(),
                c0 <= self.cur() <= self.toks().len(),
                forall|q: int| 0 <= q < out@.len() ==> stmt_wf(#[trigger] out@[q]@),
                ({
                    let (fr, fk) = p_statements(self.toks(), c0);
                    let (rr, rk) = p_statements(self.toks(), self.cur());
                    fk == rk && fr == (match rr {
                        Ok(rss) => Ok(view_stmt_seq(out@) + rss),
                        Err(e) => Err::<Seq<StatementV>, PErrV>(e),
                    })
                }),
            decreases self.toks().len() - self.cur(),
        {
            let i = self.current;
            if i >= self.tokens.len() {
                proof {
                    assert(view_stmt_seq(out@) + Seq::<StatementV>::empty() =~= view_stmt_seq(
                        out@,
                    ));
                }
                return Ok(out);
            }
            let ghost pre_items = view_stmt_seq(out@);
            let ghost pre_vec = out@;
            match self.parse_statement() {
                Ok(st) => {
                    out.push(st);
                    proof {
                        assert(out@.drop_last() =~= pre_vec);
                        assert(view_stmt_seq(out@) =~= pre_items.push(st@));
                        let (rr2, rk2) = p_statements(self.toks(), self.cur());
                        match rr2 {
                            Ok(rss2) => {
                                assert(pre_items + (seq![st@] + rss2) =~= pre_items.push(st@)
                                    + rss2);
                            },
                            Err(e) => {},
                        }
                    }
                },
                Err(e) => {
                    return Err(e);
                },
            }
        }
    }
}

} // verus!
