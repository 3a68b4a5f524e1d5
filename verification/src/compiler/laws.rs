use vstd::prelude::*;

use crate::compiler::ast::{ExprV, FunctionV, Op, StmtV};
use crate::compiler::codegen::{cg_expr, cg_fn, cg_program, CgErrV, CgOut};
use crate::compiler::ir::ModuleV;
use crate::compiler::lexer::{spec_tokens, LexOut};
use crate::compiler::parser::spec_parse_program;
use crate::compiler::sem::{eval_expr, eval_row, eval_rows, infer_expr_v, infer_ret_v, rectangular, spec_infer_function, Kind, Sym, ValueV};

verus! {

/// Whether an expression references, anywhere inside it, a name outside
/// `bound`.
pub open spec fn mentions_unbound(e: ExprV, bound: Set<Seq<char>>) -> bool
    decreases e, 2int,
{
    match e {
        ExprV::Number(_) => false,
        ExprV::Identifier(n) => !bound.contains(n),
        ExprV::BinaryOp(l, _, r) => mentions_unbound(*l, bound) || mentions_unbound(*r, bound),
        ExprV::MatrixLiteral(rows) => rows_mention_unbound(rows, bound),
    }
}

pub open spec fn row_mentions_unbound(row: Seq<ExprV>, bound: Set<Seq<char>>) -> bool
    decreases row, 3int,
{
    exists|j: int| 0 <= j < row.len() && mentions_unbound(#[trigger] row[j], bound)
}

pub open spec fn rows_mention_unbound(rows: Seq<Seq<ExprV>>, bound: Set<Seq<char>>) -> bool
    decreases rows, 3int,
{
    exists|i: int| 0 <= i < rows.len() && row_mentions_unbound(#[trigger] rows[i], bound)
}

proof fn lemma_cg_row_ok_no_unbound(
    row: Seq<ExprV>,
    base: int,
    buf: usize,
    env: Map<Seq<char>, (usize, Kind)>,
    next: usize,
)
    ensures
        crate::compiler::codegen::cg_row(row, base, buf, env, next) is Ok ==> !row_mentions_unbound(
            row,
            env.dom(),
        ),
    decreases row, 1int,
{
    if row.len() > 0 {
        match cg_expr(row[0], env, next) {
            Ok(e) => {
                lemma_cg_expr_ok_no_unbound(row[0], env, next);
                if e.kind is Scalar && e.next + 1 <= usize::MAX {
                    lemma_cg_row_ok_no_unbound(
                        row.drop_first(),
                        base + 1,
                        buf,
                        env,
                        (e.next + 1) as usize,
                    );
                    if crate::compiler::codegen::cg_row(row, base, buf, env, next) is Ok {
                        assert forall|j: int|
                            0 <= j < row.len() implies !mentions_unbound(
                            #[trigger] row[j],
                            env.dom(),
                        ) by {
                            if j > 0 {
                                assert(row.drop_first()[j - 1] == row[j]);
                                assert(!row_mentions_unbound(row.drop_first(), env.dom()));
                            }
                        }
                    }
                }
            },
            Err(_) => {},
        }
    }
}

proof fn lemma_cg_rows_ok_no_unbound(
    rows: Seq<Seq<ExprV>>,
    base: int,
    buf: usize,
    env: Map<Seq<char>, (usize, Kind)>,
    next: usize,
)
    ensures
        crate::compiler::codegen::cg_rows(rows, base, buf, env, next) is Ok
            ==> !rows_mention_unbound(rows, env.dom()),
    decreases rows, 0int,
{
    if rows.len() > 0 {
        match crate::compiler::codegen::cg_row(rows[0], base, buf, env, next) {
            Ok(first) => {
                lemma_cg_row_ok_no_unbound(rows[0], base, buf, env, next);
                lemma_cg_rows_ok_no_unbound(
                    rows.drop_first(),
                    base + rows[0].len(),
                    buf,
                    env,
                    first.next,
                );
                if crate::compiler::codegen::cg_rows(rows, base, buf, env, next) is Ok {
                    assert forall|i: int|
                        0 <= i < rows.len() implies !row_mentions_unbound(
                        #[trigger] rows[i],
                        env.dom(),
                    ) by {
                        if i > 0 {
                            assert(rows.drop_first()[i - 1] == rows[i]);
                            assert(!rows_mention_unbound(rows.drop_first(), env.dom()));
                        }
                    }
                }
            },
            Err(_) => {},
        }
    }
}

/// Code generation only succeeds on expressions all of whose identifiers
/// are bound.
proof fn lemma_cg_expr_ok_no_unbound(e: ExprV, env: Map<Seq<char>, (usize, Kind)>, next: usize)
    ensures
        cg_expr(e, env, next) is Ok ==> !mentions_unbound(e, env.dom()),
    decreases e, 0int,
{
    match e {
        ExprV::BinaryOp(l, op, r) => {
            lemma_cg_expr_ok_no_unbound(*l, env, next);
            match cg_expr(*l, env, next) {
                Ok(lo) => {
                    lemma_cg_expr_ok_no_unbound(*r, env, lo.next);
                    if cg_expr(e, env, next) is Ok {
                        assert(cg_expr(*r, env, lo.next) is Ok);
                        assert(!mentions_unbound(*l, env.dom()));
                        assert(!mentions_unbound(*r, env.dom()));
                        assert(!mentions_unbound(e, env.dom()));
                    }
                },
                Err(_) => {
                    assert(cg_expr(e, env, next) is Err);
                },
            }
        },
        ExprV::MatrixLiteral(rows) => {
            assert(cg_expr(e, env, next) == crate::compiler::codegen::cg_mat_lit(rows, env, next));
            if rows.len() >= 1 && rectangular(rows) && rows[0].len() >= 1 && rows.len() * rows[
                0
            ].len() <= u64::MAX && next + 2 <= usize::MAX {
                lemma_cg_rows_ok_no_unbound(rows, 0, (next + 1) as usize, env, (next + 2) as usize);
                if cg_expr(e, env, next) is Ok {
                    assert(crate::compiler::codegen::cg_rows(
                        rows,
                        0,
                        (next + 1) as usize,
                        env,
                        (next + 2) as usize,
                    ) is Ok);
                    assert(!rows_mention_unbound(rows, env.dom()));
                }
            } else {
                assert(cg_expr(e, env, next) is Err);
            }
        },
        _ => {},
    }
}

/// Referencing an unbound identifier anywhere in an expression is a fatal
/// code-generation error: compilation never succeeds on such an
/// expression, and in particular never silently substitutes a default or
/// zero value.
pub proof fn law_unbound_identifier_is_fatal(
    e: ExprV,
    env: Map<Seq<char>, (usize, Kind)>,
    next: usize,
)
    requires
        mentions_unbound(e, env.dom()),
    ensures
        cg_expr(e, env, next) is Err,
{
    lemma_cg_expr_ok_no_unbound(e, env, next);
}

/// A matrix literal whose rows differ in length fails code generation with
/// the ragged-rows error; it is never silently truncated or padded.
pub proof fn law_ragged_literal_is_fatal(
    rows: Seq<Seq<ExprV>>,
    env: Map<Seq<char>, (usize, Kind)>,
    next: usize,
)
    requires
        rows.len() > 0,
        !rectangular(rows),
    ensures
        cg_expr(ExprV::MatrixLiteral(rows), env, next) == Err::<CgOut, CgErrV>(
            CgErrV::RaggedMatrixLiteral,
        ),
{
    assert(cg_expr(ExprV::MatrixLiteral(rows), env, next) == crate::compiler::codegen::cg_mat_lit(
        rows,
        env,
        next,
    ));
    assert(crate::compiler::codegen::cg_mat_lit(rows, env, next) == Err::<CgOut, CgErrV>(
        CgErrV::RaggedMatrixLiteral,
    ));
}

/// An empty matrix literal, with no rows or with a first row of no
/// elements, fails code generation with the empty-literal error.
pub proof fn law_empty_literal_is_fatal(
    rows: Seq<Seq<ExprV>>,
    env: Map<Seq<char>, (usize, Kind)>,
    next: usize,
)
    requires
        rows.len() == 0 || (rectangular(rows) && rows[0].len() == 0),
    ensures
        cg_expr(ExprV::MatrixLiteral(rows), env, next) == Err::<CgOut, CgErrV>(
            CgErrV::EmptyMatrixLiteral,
        ),
{
    assert(cg_expr(ExprV::MatrixLiteral(rows), env, next) == crate::compiler::codegen::cg_mat_lit(
        rows,
        env,
        next,
    ));
    assert(crate::compiler::codegen::cg_mat_lit(rows, env, next) == Err::<CgOut, CgErrV>(
        CgErrV::EmptyMatrixLiteral,
    ));
}

/// The values of one evaluated row, read pointwise.
proof fn lemma_eval_row_index(row: Seq<ExprV>, env: Map<Seq<char>, ValueV>)
    ensures
        match eval_row(row, env) {
            Some(d) => d.len() == row.len() && forall|j: int|
                0 <= j < row.len() ==> eval_expr(#[trigger] row[j], env) == Some(
                    ValueV::Scalar(d[j]),
                ),
            None => true,
        },
    decreases row,
{
    if row.len() > 0 {
        lemma_eval_row_index(row.drop_first(), env);
        match eval_row(row, env) {
            Some(d) => {
                assert forall|j: int|
                    0 <= j < row.len() implies eval_expr(#[trigger] row[j], env) == Some(
                    ValueV::Scalar(d[j]),
                ) by {
                    if j > 0 {
                        assert(row.drop_first()[j - 1] == row[j]);
                    }
                }
            },
            None => {},
        }
    }
}

/// The values of all evaluated rows, read at flattened offsets.
proof fn lemma_eval_rows_index(rows: Seq<Seq<ExprV>>, env: Map<Seq<char>, ValueV>, cols: int)
    requires
        forall|i: int| 0 <= i < rows.len() ==> #[trigger] rows[i].len() == cols,
    ensures
        match eval_rows(rows, env) {
            Some(d) => d.len() == rows.len() * cols && forall|i: int, j: int|
                0 <= i < rows.len() && 0 <= j < cols ==> eval_expr(#[trigger] rows[i][j], env)
                    == Some(ValueV::Scalar(d[i * cols + j])),
            None => true,
        },
    decreases rows,
{
    if rows.len() > 0 {
        lemma_eval_rows_index(rows.drop_first(), env, cols);
        lemma_eval_row_index(rows[0], env);
        match (eval_row(rows[0], env), eval_rows(rows.drop_first(), env)) {
            (Some(first), Some(rest)) => {
                let d = first + rest;
                assert(rows[0].len() == cols);
                assert(first.len() == cols);
                assert(eval_rows(rows, env) == Some(d));
                assert(rows.len() * cols == cols + (rows.len() - 1) * cols) by (nonlinear_arith);
                assert forall|i: int, j: int|
                    0 <= i < rows.len() && 0 <= j < cols implies eval_expr(
                    #[trigger] rows[i][j],
                    env,
                ) == Some(ValueV::Scalar(d[i * cols + j])) by {
                    if i == 0 {
                        assert(d[j] == first[j]);
                    } else {
                        assert(rows.drop_first()[i - 1] == rows[i]);
                        assert(rows.drop_first()[i - 1][j] == rows[i][j]);
                        assert(eval_expr(rows.drop_first()[i - 1][j], env) == Some(
                            ValueV::Scalar(rest[(i - 1) * cols + j]),
                        ));
                        assert(i * cols + j == cols + ((i - 1) * cols + j)) by (nonlinear_arith);
                        assert(0 <= (i - 1) * cols + j < (rows.len() - 1) * cols) by (
                        nonlinear_arith)
                            requires 0 <= i - 1 < rows.len() - 1, 0 <= j < cols;
                        assert(d[cols + ((i - 1) * cols + j)] == rest[(i - 1) * cols + j]);
                    }
                }
            },
            _ => {},
        }
    }
}

/// Matrix literal round-trip: a rectangular literal of R rows and C
/// columns whose elements evaluate, evaluates to a matrix value with
/// `rows == R`, `cols == C`, and the element values in row-major order:
/// the element written at source position `(i, j)` is read back at
/// flattened offset `i*C + j`.
pub proof fn law_matrix_literal_round_trip(rows: Seq<Seq<ExprV>>, env: Map<Seq<char>, ValueV>)
    requires
        rows.len() >= 1,
        rows[0].len() >= 1,
        rectangular(rows),
    ensures
        match eval_expr(ExprV::MatrixLiteral(rows), env) {
            Some(v) => v matches ValueV::Matrix { rows: r, cols: c, data } && r == rows.len() && c
                == rows[0].len() && data.len() == rows.len() * rows[0].len() && (forall|
                i: int,
                j: int,
            |
                0 <= i < rows.len() && 0 <= j < rows[0].len() ==> eval_expr(
                    #[trigger] rows[i][j],
                    env,
                ) == Some(ValueV::Scalar(data[i * rows[0].len() + j]))),
            None => true,
        },
{
    lemma_eval_rows_index(rows, env, rows[0].len() as int);
}

/// Matrix addition is pointwise: adding two equal-shaped matrix values
/// yields a matrix of the same shape whose entry at each flattened offset
/// is the addition of the two entries there.
pub proof fn law_matrix_addition_pointwise(
    a: ExprV,
    b: ExprV,
    env: Map<Seq<char>, ValueV>,
    r: nat,
    c: nat,
    d1: Seq<Sym>,
    d2: Seq<Sym>,
)
    requires
        eval_expr(a, env) == Some(ValueV::Matrix { rows: r, cols: c, data: d1 }),
        eval_expr(b, env) == Some(ValueV::Matrix { rows: r, cols: c, data: d2 }),
        d1.len() == d2.len(),
    ensures
        match eval_expr(ExprV::BinaryOp(Box::new(a), Op::Add, Box::new(b)), env) {
            Some(v) => v matches ValueV::Matrix { rows: vr, cols: vc, data } && vr == r && vc == c
                && data.len() == d1.len() && (forall|k: int|
                0 <= k < d1.len() ==> #[trigger] data[k] == Sym::Bin(
                    Op::Add,
                    Box::new(d1[k]),
                    Box::new(d2[k]),
                )),
            None => false,
        },
{
}

/// Every well-formed scalar expression over numeric literals and `+ - * /`
/// alone: no identifiers, no matrix literals.
pub open spec fn pure_scalar_expr(e: ExprV) -> bool
    decreases e,
{
    match e {
        ExprV::Number(_) => true,
        ExprV::BinaryOp(l, _, r) => pure_scalar_expr(*l) && pure_scalar_expr(*r),
        _ => false,
    }
}

/// The symbolic value of a pure scalar expression: the expression tree
/// itself, literal for literal, operation for operation.
pub open spec fn sym_of(e: ExprV) -> Sym
    decreases e,
{
    match e {
        ExprV::Number(s) => Sym::Lit(s),
        ExprV::BinaryOp(l, op, r) => Sym::Bin(op, Box::new(sym_of(*l)), Box::new(sym_of(*r))),
        _ => Sym::Lit(Seq::empty()),
    }
}

/// A well-formed scalar expression over numeric literals and `+ - * /`
/// always evaluates, to the symbolic scalar that mirrors it operation for
/// operation; the backend's IEEE-754 evaluation of that symbol is the
/// standard left-to-right, precedence-respecting evaluation of the source
/// expression, whose shape the parser fixed.
pub proof fn law_scalar_expression_value(e: ExprV, env: Map<Seq<char>, ValueV>)
    requires
        pure_scalar_expr(e),
    ensures
        eval_expr(e, env) == Some(ValueV::Scalar(sym_of(e))),
    decreases e,
{
    match e {
        ExprV::BinaryOp(l, op, r) => {
            law_scalar_expression_value(*l, env);
            law_scalar_expression_value(*r, env);
        },
        _ => {},
    }
}

/// The module that a source text compiles to, if the whole pipeline
/// succeeds: lexing, parsing, and code generation.
pub open spec fn spec_compiled_module(s: Seq<u8>, module_name: Seq<char>) -> Option<ModuleV> {
    match spec_tokens(s, 0) {
        LexOut::Toks(toks) => match spec_parse_program(toks) {
            Some(p) => match cg_program(p, module_name) {
                Ok(m) => Some(m),
                Err(_) => None,
            },
            None => None,
        },
        LexOut::Stuck(_) => None,
    }
}

/// Compiling the same source text twice produces the same module, so the
/// two independently materialized entry points behave identically: every
/// pipeline stage is a function of the source text alone.
pub proof fn law_compilation_deterministic(
    s: Seq<u8>,
    module_name: Seq<char>,
    m1: ModuleV,
    m2: ModuleV,
)
    requires
        spec_compiled_module(s, module_name) == Some(m1),
        spec_compiled_module(s, module_name) == Some(m2),
    ensures
        m1 == m2,
{
}

/// A binding table and a kind table that assign the same names the same
/// kinds.
pub open spec fn env_kinds_agree(
    env: Map<Seq<char>, (usize, Kind)>,
    kenv: Map<Seq<char>, Kind>,
) -> bool {
    &&& env.dom() == kenv.dom()
    &&& forall|n: Seq<char>| env.dom().contains(n) ==> #[trigger] kenv[n] == env[n].1
}

/// The representation that the code generator assigns to an expression's
/// value is exactly the kind the inference pass assigns it, whenever both
/// work from agreeing tables.
proof fn lemma_cg_expr_kind(
    e: ExprV,
    env: Map<Seq<char>, (usize, Kind)>,
    kenv: Map<Seq<char>, Kind>,
    next: usize,
)
    requires
        env_kinds_agree(env, kenv),
    ensures
        match cg_expr(e, env, next) {
            Ok(o) => o.kind == infer_expr_v(e, kenv),
            Err(_) => true,
        },
    decreases e,
{
    match e {
        ExprV::BinaryOp(l, op, r) => {
            lemma_cg_expr_kind(*l, env, kenv, next);
            match cg_expr(*l, env, next) {
                Ok(lo) => {
                    lemma_cg_expr_kind(*r, env, kenv, lo.next);
                },
                Err(_) => {},
            }
        },
        ExprV::MatrixLiteral(rows) => {
            assert(cg_expr(e, env, next) == crate::compiler::codegen::cg_mat_lit(
                rows,
                env,
                next,
            ));
            match crate::compiler::codegen::cg_mat_lit(rows, env, next) {
                Ok(o) => {
                    assert(o.kind == Kind::Matrix);
                },
                Err(_) => {},
            }
        },
        _ => {},
    }
}

/// The representation of the value that the compiled body hands to its
/// `return`, if the walk reaches one.
pub open spec fn cg_returned_kind(
    body: Seq<StmtV>,
    env: Map<Seq<char>, (usize, Kind)>,
    next: usize,
) -> Option<Kind>
    decreases body.len(),
{
    if body.len() == 0 {
        None
    } else {
        match body[0] {
            StmtV::Let(n, e) => match cg_expr(e, env, next) {
                Ok(eo) => {
                    if eo.next + 1 <= usize::MAX {
                        cg_returned_kind(
                            body.drop_first(),
                            env.insert(n, (eo.next, eo.kind)),
                            (eo.next + 1) as usize,
                        )
                    } else {
                        None
                    }
                },
                Err(_) => None,
            },
            StmtV::Return(e) => match cg_expr(e, env, next) {
                Ok(eo) => Some(eo.kind),
                Err(_) => None,
            },
        }
    }
}

proof fn lemma_body_coupling(
    body: Seq<StmtV>,
    env: Map<Seq<char>, (usize, Kind)>,
    kenv: Map<Seq<char>, Kind>,
    next: usize,
)
    requires
        env_kinds_agree(env, kenv),
    ensures
        match cg_returned_kind(body, env, next) {
            Some(k) => k == infer_ret_v(body, kenv),
            None => true,
        },
    decreases body.len(),
{
    if body.len() > 0 {
        match body[0] {
            StmtV::Let(n, e) => {
                lemma_cg_expr_kind(e, env, kenv, next);
                match cg_expr(e, env, next) {
                    Ok(eo) => {
                        if eo.next + 1 <= usize::MAX {
                            let env2 = env.insert(n, (eo.next, eo.kind));
                            let kenv2 = kenv.insert(n, infer_expr_v(e, kenv));
                            assert(env2.dom() =~= kenv2.dom());
                            lemma_body_coupling(body.drop_first(), env2, kenv2, (eo.next + 1) as usize);
                        }
                    },
                    Err(_) => {},
                }
            },
            StmtV::Return(e) => {
                lemma_cg_expr_kind(e, env, kenv, next);
            },
        }
    }
}

/// The two passes agree by construction: whenever the compiled body of a
/// function reaches a `return`, the representation of the returned value is
/// exactly the declared return representation of the compiled function,
/// which the inference pass chose.
pub proof fn law_two_pass_coupling(f: FunctionV)
    ensures
        match (cg_fn(f), cg_returned_kind(f.body, Map::empty(), 0)) {
            (Ok(compiled), Some(k)) => compiled.ret == k,
            _ => true,
        },
{
    assert(Map::<Seq<char>, (usize, Kind)>::empty().dom() =~= Map::<Seq<char>, Kind>::empty().dom());
    lemma_body_coupling(f.body, Map::empty(), Map::empty(), 0);
}

} // verus!
