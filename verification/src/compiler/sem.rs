use vstd::prelude::*;

use crate::compiler::ast::{ExprV, FunctionV, Op, StmtV};

verus! {

/// The inferred classification of a value: a native double or a pointer to
/// a heap matrix record.
#[derive(Debug, Clone, Copy, PartialEq, Eq, Structural)]
pub enum Kind {
    Scalar,
    Matrix,
}

/// A symbolic scalar: a numeric literal's text, or an arithmetic operation
/// over two symbolic scalars. The compiler never computes with doubles; the
/// backend evaluates these symbols in IEEE-754 arithmetic.
#[verifier::ext_equal]
pub enum Sym {
    Lit(Seq<char>),
    Bin(Op, Box<Sym>, Box<Sym>),
}

/// A source-level value: a scalar, or a matrix of `rows x cols` symbolic
/// scalars in row-major order.
#[verifier::ext_equal]
pub enum ValueV {
    Scalar(Sym),
    Matrix { rows: nat, cols: nat, data: Seq<Sym> },
}

pub open spec fn kind_of(v: ValueV) -> Kind {
    match v {
        ValueV::Scalar(_) => Kind::Scalar,
        ValueV::Matrix { .. } => Kind::Matrix,
    }
}

/// A well-formed matrix value carries exactly `rows x cols` entries, none
/// of them degenerate.
pub open spec fn value_wf(v: ValueV) -> bool {
    match v {
        ValueV::Scalar(_) => true,
        ValueV::Matrix { rows, cols, data } => rows >= 1 && cols >= 1 && data.len() == rows * cols,
    }
}

/// Whether every row of a literal has the length of the first.
pub open spec fn rectangular(rows: Seq<Seq<ExprV>>) -> bool {
    forall|i: int| 0 <= i < rows.len() ==> #[trigger] rows[i].len() == rows[0].len()
}

/// Evaluates the expressions of one row to symbolic scalars; a value of any
/// other kind, or an evaluation failure, fails the row.
pub open spec fn eval_row(row: Seq<ExprV>, env: Map<Seq<char>, ValueV>) -> Option<Seq<Sym>>
    decreases row,
{
    if row.len() == 0 {
        Some(Seq::empty())
    } else {
        match eval_expr(row[0], env) {
            Some(ValueV::Scalar(s)) => match eval_row(row.drop_first(), env) {
                Some(rest) => Some(seq![s] + rest),
                None => None,
            },
            _ => None,
        }
    }
}

/// Evaluates all rows of a literal into one row-major buffer.
pub open spec fn eval_rows(rows: Seq<Seq<ExprV>>, env: Map<Seq<char>, ValueV>) -> Option<
    Seq<Sym>,
>
    decreases rows,
{
    if rows.len() == 0 {
        Some(Seq::empty())
    } else {
        match eval_row(rows[0], env) {
            Some(first) => match eval_rows(rows.drop_first(), env) {
                Some(rest) => Some(first + rest),
                None => None,
            },
            None => None,
        }
    }
}

/// The meaning of an expression under an environment of bound values.
///
/// A binary operation on two scalars is the symbolic operation; addition of
/// two matrices reads the left operand's shape and adds pointwise, which is
/// defined as long as the right buffer covers it; any other combination has
/// no defined value. A matrix literal must be non-empty and rectangular,
/// with every element a scalar. An unbound identifier has no value.
pub open spec fn eval_expr(e: ExprV, env: Map<Seq<char>, ValueV>) -> Option<ValueV>
    decreases e,
{
    match e {
        ExprV::Number(s) => Some(ValueV::Scalar(Sym::Lit(s))),
        ExprV::Identifier(n) => if env.dom().contains(n) {
            Some(env[n])
        } else {
            None
        },
        ExprV::BinaryOp(l, op, r) => match (eval_expr(*l, env), eval_expr(*r, env)) {
            (Some(ValueV::Scalar(a)), Some(ValueV::Scalar(b))) => Some(
                ValueV::Scalar(Sym::Bin(op, Box::new(a), Box::new(b))),
            ),
            (
                Some(ValueV::Matrix { rows, cols, data: d1 }),
                Some(ValueV::Matrix { rows: r2, cols: c2, data: d2 }),
            ) => {
                if op == Op::Add && d1.len() <= d2.len() {
                    Some(
                        ValueV::Matrix {
                            rows,
                            cols,
                            data: Seq::new(
                                d1.len(),
                                |k: int| Sym::Bin(Op::Add, Box::new(d1[k]), Box::new(d2[k])),
                            ),
                        },
                    )
                } else {
                    None
                }
            },
            (Some(_), Some(_)) => None,
            _ => None,
        },
        ExprV::MatrixLiteral(rows) => {
            if rows.len() >= 1 && rows[0].len() >= 1 && rectangular(rows) {
                match eval_rows(rows, env) {
                    Some(data) => Some(
                        ValueV::Matrix { rows: rows.len(), cols: rows[0].len(), data },
                    ),
                    None => None,
                }
            } else {
                None
            }
        },
    }
}

/// What running a function body does: return a value, or fall off the end.
#[verifier::ext_equal]
pub enum FnOut {
    Returns(ValueV),
    Falls,
}

/// The meaning of a straight-line body: bindings accumulate into the
/// environment, and the first `return` decides the outcome.
pub open spec fn eval_body(body: Seq<StmtV>, env: Map<Seq<char>, ValueV>) -> Option<FnOut>
    decreases body.len(),
{
    if body.len() == 0 {
        Some(FnOut::Falls)
    } else {
        match body[0] {
            StmtV::Let(n, e) => match eval_expr(e, env) {
                Some(v) => eval_body(body.drop_first(), env.insert(n, v)),
                None => None,
            },
            StmtV::Return(e) => match eval_expr(e, env) {
                Some(v) => Some(FnOut::Returns(v)),
                None => None,
            },
        }
    }
}

/// The meaning of a zero-argument function: its body run on the empty
/// environment.
pub open spec fn eval_function(f: FunctionV) -> Option<FnOut> {
    eval_body(f.body, Map::empty())
}

/// The statically inferred kind of an expression. An identifier that is not
/// bound is read as a scalar; a binary operation is a matrix as soon as one
/// side is.
pub open spec fn infer_expr_v(e: ExprV, kenv: Map<Seq<char>, Kind>) -> Kind
    decreases e,
{
    match e {
        ExprV::Number(_) => Kind::Scalar,
        ExprV::MatrixLiteral(_) => Kind::Matrix,
        ExprV::Identifier(n) => if kenv.dom().contains(n) {
            kenv[n]
        } else {
            Kind::Scalar
        },
        ExprV::BinaryOp(l, _, r) => {
            if infer_expr_v(*l, kenv) is Matrix || infer_expr_v(*r, kenv) is Matrix {
                Kind::Matrix
            } else {
                Kind::Scalar
            }
        },
    }
}

/// The inferred return kind of a body: one forward pass, stopping at the
/// first `return`; a body without one is a scalar.
pub open spec fn infer_ret_v(body: Seq<StmtV>, kenv: Map<Seq<char>, Kind>) -> Kind
    decreases body.len(),
{
    if body.len() == 0 {
        Kind::Scalar
    } else {
        match body[0] {
            StmtV::Let(n, e) => infer_ret_v(
                body.drop_first(),
                kenv.insert(n, infer_expr_v(e, kenv)),
            ),
            StmtV::Return(e) => infer_expr_v(e, kenv),
        }
    }
}

/// The inferred return kind of a function.
pub open spec fn spec_infer_function(f: FunctionV) -> Kind {
    infer_ret_v(f.body, Map::empty())
}

/// The kind environment that a value environment induces.
pub open spec fn kinds_agree(env: Map<Seq<char>, ValueV>, kenv: Map<Seq<char>, Kind>) -> bool {
    &&& env.dom() == kenv.dom()
    &&& forall|n: Seq<char>|
        env.dom().contains(n) ==> #[trigger] kenv[n] == kind_of(env[n])
}

/// Inference is sound for expressions: a value computed under an agreeing
/// environment has exactly the inferred kind.
pub proof fn lemma_infer_expr_sound(e: ExprV, env: Map<Seq<char>, ValueV>, kenv: Map<
    Seq<char>,
    Kind,
>)
    requires
        kinds_agree(env, kenv),
    ensures
        match eval_expr(e, env) {
            Some(v) => kind_of(v) == infer_expr_v(e, kenv),
            None => true,
        },
    decreases e,
{
    match e {
        ExprV::BinaryOp(l, op, r) => {
            lemma_infer_expr_sound(*l, env, kenv);
            lemma_infer_expr_sound(*r, env, kenv);
        },
        _ => {},
    }
}

/// Inference is sound for bodies: if a body returns a value, the inferred
/// return kind is that value's kind.
pub proof fn lemma_infer_body_sound(
    body: Seq<StmtV>,
    env: Map<Seq<char>, ValueV>,
    kenv: Map<Seq<char>, Kind>,
)
    requires
        kinds_agree(env, kenv),
    ensures
        match eval_body(body, env) {
            Some(FnOut::Returns(v)) => kind_of(v) == infer_ret_v(body, kenv),
            _ => true,
        },
    decreases body.len(),
{
    if body.len() > 0 {
        match body[0] {
            StmtV::Let(n, e) => {
                lemma_infer_expr_sound(e, env, kenv);
                match eval_expr(e, env) {
                    Some(v) => {
                        let env2 = env.insert(n, v);
                        let kenv2 = kenv.insert(n, infer_expr_v(e, kenv));
                        assert(env2.dom() =~= kenv2.dom());
                        lemma_infer_body_sound(body.drop_first(), env2, kenv2);
                    },
                    None => {},
                }
            },
            StmtV::Return(e) => {
                lemma_infer_expr_sound(e, env, kenv);
            },
        }
    }
}

/// Return-type inference is sound: a function whose body returns a value is
/// classified by the kind of that value. In particular a function returning
/// an identifier bound to a matrix literal is classified `Matrix`, and one
/// returning a bare numeric literal is classified `Scalar`.
pub proof fn lemma_inference_sound(f: FunctionV)
    ensures
        match eval_function(f) {
            Some(FnOut::Returns(v)) => kind_of(v) == spec_infer_function(f),
            _ => true,
        },
{
    assert(Map::<Seq<char>, ValueV>::empty().dom() =~= Map::<Seq<char>, Kind>::empty().dom());
    lemma_infer_body_sound(f.body, Map::empty(), Map::empty());
}

} // verus!
