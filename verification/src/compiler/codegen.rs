use vstd::prelude::*;

use crate::compiler::ast::{lemma_view_row_index, lemma_view_rows_index, view_row, view_rows, Expr, ExprV, Function, FunctionV, Op, Program,
    ProgramV, Stmt, StmtV};
use crate::compiler::ir::{view_code, Field, Instr, InstrV, IrFunction, IrFunctionV, Module,
    ModuleV};
use crate::compiler::sem::{infer_expr_v, infer_ret_v, rectangular, spec_infer_function, Kind};

verus! {

/// A code-generation error. Every one is fatal: the pipeline stops at the
/// first failure.
#[derive(Debug, PartialEq)]
pub enum CodegenError {
    /// An identifier was referenced without being bound by a `let`.
    UnknownIdentifier(String),
    /// A matrix literal has no elements.
    EmptyMatrixLiteral,
    /// The rows of a matrix literal do not all have the same length.
    RaggedMatrixLiteral,
    /// A matrix literal element is not a scalar.
    NonScalarMatrixElement,
    /// The operator is not supported on two matrices; only addition is.
    UnsupportedMatrixOperator(Op),
    /// A binary operation mixes a scalar with a matrix.
    OperandKindMismatch,
    /// The emitter ran out of machine-sized resources (registers or a
    /// buffer size beyond the native integer range).
    Internal,
}

/// The mathematical model of a code-generation error.
#[verifier::ext_equal]
pub enum CgErrV {
    UnknownIdentifier(Seq<char>),
    EmptyMatrixLiteral,
    RaggedMatrixLiteral,
    NonScalarMatrixElement,
    UnsupportedMatrixOperator(Op),
    OperandKindMismatch,
    Internal,
}

impl View for CodegenError {
    type V = CgErrV;

    open spec fn view(&self) -> CgErrV {
        match self {
            CodegenError::UnknownIdentifier(n) => CgErrV::UnknownIdentifier(n@),
            CodegenError::EmptyMatrixLiteral => CgErrV::EmptyMatrixLiteral,
            CodegenError::RaggedMatrixLiteral => CgErrV::RaggedMatrixLiteral,
            CodegenError::NonScalarMatrixElement => CgErrV::NonScalarMatrixElement,
            CodegenError::UnsupportedMatrixOperator(op) => CgErrV::UnsupportedMatrixOperator(*op),
            CodegenError::OperandKindMismatch => CgErrV::OperandKindMismatch,
            CodegenError::Internal => CgErrV::Internal,
        }
    }
}

/// What compiling an expression yields: the emitted code, the next free
/// register, and the register and representation of the result.
#[verifier::ext_equal]
pub struct CgOut {
    pub code: Seq<InstrV>,
    pub next: usize,
    pub reg: usize,
    pub kind: Kind,
}

/// What compiling the elements of a literal yields.
#[verifier::ext_equal]
pub struct CgElems {
    pub code: Seq<InstrV>,
    pub next: usize,
}

/// The binding table as a mapping from names to slot registers and
/// representations; a later binding of the same name wins.
pub open spec fn env_of(vars: Seq<(String, usize, Kind)>) -> Map<Seq<char>, (usize, Kind)>
    decreases vars.len(),
{
    if vars.len() == 0 {
        Map::empty()
    } else {
        env_of(vars.drop_last()).insert(vars.last().0@, (vars.last().1, vars.last().2))
    }
}

/// The kind table as a mapping from names to kinds; a later binding of the
/// same name wins.
pub open spec fn kenv_of(vars: Seq<(String, Kind)>) -> Map<Seq<char>, Kind>
    decreases vars.len(),
{
    if vars.len() == 0 {
        Map::empty()
    } else {
        kenv_of(vars.drop_last()).insert(vars.last().0@, vars.last().1)
    }
}

/// The code that adds two matrix records. It reads the row and column
/// counts from the left operand only, multiplies them into the element
/// count, allocates the destination buffer, and emits the explicit bounded
/// loop that adds element by element; the new record carries the left
/// operand's shape.
pub open spec fn cg_mat_add(l: usize, r: usize, next: usize) -> Result<CgOut, CgErrV> {
    if next + 11 > usize::MAX {
        Err(CgErrV::Internal)
    } else {
        let t_rows = next;
        let t_cols = (next + 1) as usize;
        let t_total = (next + 2) as usize;
        let t_buf = (next + 3) as usize;
        let t_ld = (next + 4) as usize;
        let t_rd = (next + 5) as usize;
        let t_idx = (next + 6) as usize;
        let t_a = (next + 7) as usize;
        let t_b = (next + 8) as usize;
        let t_s = (next + 9) as usize;
        let t_rec = (next + 10) as usize;
        Ok(
            CgOut {
                code: seq![
                    InstrV::RecGet { dest: t_rows, rec: l, field: Field::Rows },
                    InstrV::RecGet { dest: t_cols, rec: l, field: Field::Cols },
                    InstrV::IMul { dest: t_total, lhs: t_rows, rhs: t_cols },
                    InstrV::BufAlloc { dest: t_buf, len: t_total },
                    InstrV::RecGet { dest: t_ld, rec: l, field: Field::Data },
                    InstrV::RecGet { dest: t_rd, rec: r, field: Field::Data },
                    InstrV::Loop {
                        idx: t_idx,
                        total: t_total,
                        body: seq![
                            InstrV::BufLoad { dest: t_a, buf: t_ld, idx: t_idx },
                            InstrV::BufLoad { dest: t_b, buf: t_rd, idx: t_idx },
                            InstrV::FArith { dest: t_s, op: Op::Add, lhs: t_a, rhs: t_b },
                            InstrV::BufStore { buf: t_buf, idx: t_idx, src: t_s },
                        ],
                    },
                    InstrV::RecAlloc { dest: t_rec },
                    InstrV::RecSet { rec: t_rec, field: Field::Data, src: t_buf },
                    InstrV::RecSet { rec: t_rec, field: Field::Rows, src: t_rows },
                    InstrV::RecSet { rec: t_rec, field: Field::Cols, src: t_cols },
                ],
                next: (next + 11) as usize,
                reg: t_rec,
                kind: Kind::Matrix,
            },
        )
    }
}

/// The code of one literal row: each element is compiled, must be a
/// scalar, and is stored at its flattened offset, `base` for the first
/// element of the row.
pub open spec fn cg_row(
    row: Seq<ExprV>,
    base: int,
    buf: usize,
    env: Map<Seq<char>, (usize, Kind)>,
    next: usize,
) -> Result<CgElems, CgErrV>
    decreases row, 1int,
{
    if row.len() == 0 {
        Ok(CgElems { code: Seq::empty(), next })
    } else {
        match cg_expr(row[0], env, next) {
            Ok(e) => {
                if !(e.kind is Scalar) {
                    Err(CgErrV::NonScalarMatrixElement)
                } else if e.next + 1 > usize::MAX {
                    Err(CgErrV::Internal)
                } else {
                    match cg_row(row.drop_first(), base + 1, buf, env, (e.next + 1) as usize) {
                        Ok(rest) => Ok(
                            CgElems {
                                code: e.code + seq![
                                    InstrV::IConst { dest: e.next, val: base as u64 },
                                    InstrV::BufStore { buf, idx: e.next, src: e.reg },
                                ] + rest.code,
                                next: rest.next,
                            },
                        ),
                        Err(err) => Err(err),
                    }
                }
            },
            Err(err) => Err(err),
        }
    }
}

/// The code of all rows of a literal, row-major: the flattened offset of a
/// row begins where the previous row ended.
pub open spec fn cg_rows(
    rows: Seq<Seq<ExprV>>,
    base: int,
    buf: usize,
    env: Map<Seq<char>, (usize, Kind)>,
    next: usize,
) -> Result<CgElems, CgErrV>
    decreases rows, 0int,
{
    if rows.len() == 0 {
        Ok(CgElems { code: Seq::empty(), next })
    } else {
        match cg_row(rows[0], base, buf, env, next) {
            Ok(first) => {
                match cg_rows(rows.drop_first(), base + rows[0].len(), buf, env, first.next) {
                    Ok(rest) => Ok(
                        CgElems { code: first.code + rest.code, next: rest.next },
                    ),
                    Err(err) => Err(err),
                }
            },
            Err(err) => Err(err),
        }
    }
}

/// The code of a matrix literal: reject an empty or ragged literal,
/// allocate the flat buffer of `rows x cols` doubles, fill it element by
/// element at offset `i*cols + j`, and populate a fresh record.
pub open spec fn cg_mat_lit(
    rows: Seq<Seq<ExprV>>,
    env: Map<Seq<char>, (usize, Kind)>,
    next: usize,
) -> Result<CgOut, CgErrV>
    decreases rows, 1int,
{
    if rows.len() == 0 {
        Err(CgErrV::EmptyMatrixLiteral)
    } else if !rectangular(rows) {
        Err(CgErrV::RaggedMatrixLiteral)
    } else if rows[0].len() == 0 {
        Err(CgErrV::EmptyMatrixLiteral)
    } else if rows.len() * rows[0].len() > u64::MAX {
        Err(CgErrV::Internal)
    } else if next + 2 > usize::MAX {
        Err(CgErrV::Internal)
    } else {
        let total = rows.len() * rows[0].len();
        let t_total = next;
        let t_buf = (next + 1) as usize;
        match cg_rows(rows, 0, t_buf, env, (next + 2) as usize) {
            Ok(elems) => {
                if elems.next + 3 > usize::MAX {
                    Err(CgErrV::Internal)
                } else {
                    let t_rec = elems.next;
                    let t_rows = (elems.next + 1) as usize;
                    let t_cols = (elems.next + 2) as usize;
                    Ok(
                        CgOut {
                            code: seq![
                                InstrV::IConst { dest: t_total, val: total as u64 },
                                InstrV::BufAlloc { dest: t_buf, len: t_total },
                            ] + elems.code + seq![
                                InstrV::RecAlloc { dest: t_rec },
                                InstrV::RecSet { rec: t_rec, field: Field::Data, src: t_buf },
                                InstrV::IConst { dest: t_rows, val: rows.len() as u64 },
                                InstrV::RecSet { rec: t_rec, field: Field::Rows, src: t_rows },
                                InstrV::IConst { dest: t_cols, val: rows[0].len() as u64 },
                                InstrV::RecSet { rec: t_rec, field: Field::Cols, src: t_cols },
                            ],
                            next: (elems.next + 3) as usize,
                            reg: t_rec,
                            kind: Kind::Matrix,
                        },
                    )
                }
            },
            Err(err) => Err(err),
        }
    }
}

/// The code of an expression: a number is a double constant; an identifier
/// is a load from its bound slot, and an unbound one is a fatal error; a
/// binary operation on two scalars is native double arithmetic; on two
/// matrices only addition is supported; a scalar mixed with a matrix is a
/// kind mismatch.
pub open spec fn cg_expr(
    e: ExprV,
    env: Map<Seq<char>, (usize, Kind)>,
    next: usize,
) -> Result<CgOut, CgErrV>
    decreases e, 0int,
{
    match e {
        ExprV::Number(s) => {
            if next + 1 > usize::MAX {
                Err(CgErrV::Internal)
            } else {
                Ok(
                    CgOut {
                        code: seq![InstrV::FConst { dest: next, text: s }],
                        next: (next + 1) as usize,
                        reg: next,
                        kind: Kind::Scalar,
                    },
                )
            }
        },
        ExprV::Identifier(n) => {
            if !env.dom().contains(n) {
                Err(CgErrV::UnknownIdentifier(n))
            } else if next + 1 > usize::MAX {
                Err(CgErrV::Internal)
            } else {
                Ok(
                    CgOut {
                        code: seq![
                            InstrV::Load { dest: next, slot: env[n].0, kind: env[n].1 },
                        ],
                        next: (next + 1) as usize,
                        reg: next,
                        kind: env[n].1,
                    },
                )
            }
        },
        ExprV::BinaryOp(l, op, r) => match cg_expr(*l, env, next) {
            Ok(lo) => match cg_expr(*r, env, lo.next) {
                Ok(ro) => match (lo.kind, ro.kind) {
                    (Kind::Scalar, Kind::Scalar) => {
                        if ro.next + 1 > usize::MAX {
                            Err(CgErrV::Internal)
                        } else {
                            Ok(
                                CgOut {
                                    code: lo.code + ro.code + seq![
                                        InstrV::FArith {
                                            dest: ro.next,
                                            op,
                                            lhs: lo.reg,
                                            rhs: ro.reg,
                                        },
                                    ],
                                    next: (ro.next + 1) as usize,
                                    reg: ro.next,
                                    kind: Kind::Scalar,
                                },
                            )
                        }
                    },
                    (Kind::Matrix, Kind::Matrix) => {
                        if op == Op::Add {
                            match cg_mat_add(lo.reg, ro.reg, ro.next) {
                                Ok(ao) => Ok(
                                    CgOut {
                                        code: lo.code + ro.code + ao.code,
                                        next: ao.next,
                                        reg: ao.reg,
                                        kind: ao.kind,
                                    },
                                ),
                                Err(err) => Err(err),
                            }
                        } else {
                            Err(CgErrV::UnsupportedMatrixOperator(op))
                        }
                    },
                    _ => Err(CgErrV::OperandKindMismatch),
                },
                Err(err) => Err(err),
            },
            Err(err) => Err(err),
        },
        ExprV::MatrixLiteral(rows) => cg_mat_lit(rows, env, next),
    }
}

/// What compiling a body prefix yields: the emitted code and next register,
/// and whether a `return` ended the walk.
#[verifier::ext_equal]
pub struct CgBody {
    pub code: Seq<InstrV>,
    pub next: usize,
}

/// The code of a straight-line body. A `let` compiles its expression,
/// reserves a slot of the value's representation, stores the value and
/// binds the name; rebinding overwrites. The first `return` compiles its
/// expression, emits the return and ends the walk.
pub open spec fn cg_body(
    body: Seq<StmtV>,
    env: Map<Seq<char>, (usize, Kind)>,
    next: usize,
) -> Result<CgBody, CgErrV>
    decreases body.len(),
{
    if body.len() == 0 {
        Ok(CgBody { code: Seq::empty(), next })
    } else {
        match body[0] {
            StmtV::Let(n, e) => match cg_expr(e, env, next) {
                Ok(eo) => {
                    if eo.next + 1 > usize::MAX {
                        Err(CgErrV::Internal)
                    } else {
                        let slot = eo.next;
                        match cg_body(
                            body.drop_first(),
                            env.insert(n, (slot, eo.kind)),
                            (eo.next + 1) as usize,
                        ) {
                            Ok(rest) => Ok(
                                CgBody {
                                    code: eo.code + seq![
                                        InstrV::Alloca { dest: slot, kind: eo.kind },
                                        InstrV::Store { slot, src: eo.reg },
                                    ] + rest.code,
                                    next: rest.next,
                                },
                            ),
                            Err(err) => Err(err),
                        }
                    }
                },
                Err(err) => Err(err),
            },
            StmtV::Return(e) => match cg_expr(e, env, next) {
                Ok(eo) => Ok(
                    CgBody { code: eo.code + seq![InstrV::Ret { src: eo.reg }], next: eo.next },
                ),
                Err(err) => Err(err),
            },
        }
    }
}

/// The compiled form of one function: its declared return representation
/// comes from the inference pass, its body from a fresh binding table and
/// register counter.
pub open spec fn cg_fn(f: FunctionV) -> Result<IrFunctionV, CgErrV> {
    match cg_body(f.body, Map::empty(), 0) {
        Ok(b) => Ok(IrFunctionV { name: f.name, ret: spec_infer_function(f), body: b.code }),
        Err(err) => Err(err),
    }
}

/// The compiled forms of a sequence of functions, in order.
pub open spec fn cg_fns(fs: Seq<FunctionV>) -> Result<Seq<IrFunctionV>, CgErrV>
    decreases fs.len(),
{
    if fs.len() == 0 {
        Ok(Seq::empty())
    } else {
        match cg_fn(fs[0]) {
            Ok(f) => match cg_fns(fs.drop_first()) {
                Ok(rest) => Ok(seq![f] + rest),
                Err(err) => Err(err),
            },
            Err(err) => Err(err),
        }
    }
}

/// The compiled module of a program.
pub open spec fn cg_program(p: ProgramV, module_name: Seq<char>) -> Result<ModuleV, CgErrV> {
    match cg_fns(p.functions) {
        Ok(fs) => Ok(ModuleV { name: module_name, functions: fs }),
        Err(err) => Err(err),
    }
}

/// Looking a name up in the binding-table map reads the latest entry of
/// that name, scanning from the end.
pub proof fn lemma_env_of_take(vars: Seq<(String, usize, Kind)>, k: int)
    requires
        0 <= k < vars.len(),
    ensures
        env_of(vars.take(k + 1)) == env_of(vars.take(k)).insert(
            vars[k].0@,
            (vars[k].1, vars[k].2),
        ),
{
    assert(vars.take(k + 1).drop_last() =~= vars.take(k));
    assert(vars.take(k + 1).last() == vars[k]);
}

/// The same for the kind table.
pub proof fn lemma_kenv_of_take(vars: Seq<(String, Kind)>, k: int)
    requires
        0 <= k < vars.len(),
    ensures
        kenv_of(vars.take(k + 1)) == kenv_of(vars.take(k)).insert(vars[k].0@, vars[k].1),
{
    assert(vars.take(k + 1).drop_last() =~= vars.take(k));
    assert(vars.take(k + 1).last() == vars[k]);
}

/// The code generator: the module grown so far, the per-function binding
/// table, the per-function register counter, and the code of the function
/// being compiled.
pub struct CodeGen {
    module: Module,
    variables: Vec<(String, usize, Kind)>,
    next_reg: usize,
    code: Vec<Instr>,
}

impl CodeGen {
    /// The module compiled so far.
    pub closed spec fn module_v(self) -> ModuleV {
        self.module@
    }

    /// The binding table of the function being compiled.
    pub closed spec fn env_v(self) -> Map<Seq<char>, (usize, Kind)> {
        env_of(self.variables@)
    }

    /// The code of the function being compiled.
    pub closed spec fn code_v(self) -> Seq<InstrV> {
        view_code(self.code@)
    }

    /// The next free register.
    pub closed spec fn next(self) -> usize {
        self.next_reg
    }

    /// Creates a code generator for a fresh module of the given name.
    pub fn new(module_name: &str) -> (r: CodeGen)
        ensures
            r.module_v() == (ModuleV { name: module_name@, functions: Seq::<IrFunctionV>::empty() }),
            r.env_v() == Map::<Seq<char>, (usize, Kind)>::empty(),
            r.code_v() == Seq::<InstrV>::empty(),
            r.next() == 0,
    {
        let r = CodeGen {
            module: Module { name: module_name.to_owned(), functions: Vec::new() },
            variables: Vec::new(),
            next_reg: 0,
            code: Vec::new(),
        };
        proof {
            assert(r.module@.functions =~= Seq::<IrFunctionV>::empty());
        }
        r
    }

    /// Returns a reference to the compiled module.
    pub fn module(&self) -> (r: &Module)
        ensures
            r@ == self.module_v(),
    {
        &self.module
    }

    /// Takes `n` consecutive fresh registers, failing once the machine's
    /// register numbers are exhausted.
    fn take_regs(&mut self, n: usize) -> (r: Result<usize, CodegenError>)
        ensures
            final(self).module_v() == old(self).module_v(),
            final(self).env_v() == old(self).env_v(),
            final(self).code_v() == old(self).code_v(),
            match r {
                Ok(base) => old(self).next() + n <= usize::MAX && base == old(self).next()
                    && final(self).next() == old(self).next() + n,
                Err(e) => old(self).next() + n > usize::MAX && e@ == CgErrV::Internal && final(
                    self
                ).next() == old(self).next(),
            },
    {
        match self.next_reg.checked_add(n) {
            Some(bumped) => {
                let base = self.next_reg;
                self.next_reg = bumped;
                Ok(base)
            },
            None => Err(CodegenError::Internal),
        }
    }

    /// Appends one instruction to the code of the current function.
    fn emit(&mut self, instr: Instr)
        ensures
            final(self).module_v() == old(self).module_v(),
            final(self).env_v() == old(self).env_v(),
            final(self).next() == old(self).next(),
            final(self).code_v() == old(self).code_v().push(instr@),
    {
        proof {
            crate::compiler::ir::lemma_view_code_push(self.code@, instr);
        }
        self.code.push(instr);
    }

    /// Finds the slot and representation bound to a name, the latest
    /// binding winning.
    fn lookup(&self, name: &String) -> (r: Option<(usize, Kind)>)
        ensures
            match r {
                Some((slot, kind)) => self.env_v().dom().contains(name@) && self.env_v()[name@]
                    == (slot, kind),
                None => !self.env_v().dom().contains(name@),
            },
    {
        let ghost vs = self.variables@;
        let mut k = self.variables.len();
        proof {
            assert(vs.take(vs.len() as int) =~= vs);
        }
        loop
            invariant
                0 <= k <= vs.len(),
                vs == self.variables@,
                env_of(vs).dom().contains(name@) == env_of(vs.take(k as int)).dom().contains(
                    name@,
                ),
                env_of(vs).dom().contains(name@) ==> env_of(vs)[name@] == env_of(
                    vs.take(k as int),
                )[name@],
            ensures
                0 <= k <= vs.len(),
                env_of(vs).dom().contains(name@) ==> k >= 1 && vs[k - 1].0@ == name@ && env_of(
                    vs,
                )[name@] == (vs[k - 1].1, vs[k - 1].2),
                !env_of(vs).dom().contains(name@) ==> k == 0,
            decreases k,
        {
            if k == 0 {
                proof {
                    assert(vs.take(0int) =~= Seq::<(String, usize, Kind)>::empty());
                }
                break;
            }
            k = k - 1;
            proof {
                lemma_env_of_take(vs, k as int);
            }
            if self.variables[k].0 == *name {
                proof {
                    assert(env_of(vs.take(k as int + 1)).dom().contains(name@));
                }
                k = k + 1;
                break;
            }
        }
        if k == 0 {
            None
        } else {
            let entry = &self.variables[k - 1];
            if entry.0 == *name {
                Some((entry.1, entry.2))
            } else {
                None
            }
        }
    }

    /// Infers the kind of an expression under the current kind table: a
    /// number is a scalar, a literal a matrix, an identifier has its bound
    /// kind or defaults to a scalar, and an operation is a matrix as soon
    /// as one side is.
    fn infer_expr_type(&self, e: &Expr, locals: &Vec<(String, Kind)>) -> (k: Kind)
        ensures
            k == infer_expr_v(e@, kenv_of(locals@)),
        decreases e,
    {
        match e {
            Expr::Number(_) => Kind::Scalar,
            Expr::MatrixLiteral(_) => Kind::Matrix,
            Expr::Identifier(name) => {
                let ghost vs = locals@;
                let mut k = locals.len();
                proof {
                    assert(vs.take(vs.len() as int) =~= vs);
                }
                loop
                    invariant
                        0 <= k <= vs.len(),
                        vs == locals@,
                        kenv_of(vs).dom().contains(name@) == kenv_of(vs.take(k as int)).dom()
                            .contains(name@),
                        kenv_of(vs).dom().contains(name@) ==> kenv_of(vs)[name@] == kenv_of(
                            vs.take(k as int),
                        )[name@],
                    ensures
                        0 <= k <= vs.len(),
                        kenv_of(vs).dom().contains(name@) ==> k >= 1 && vs[k - 1].0@ == name@
                            && kenv_of(vs)[name@] == vs[k - 1].1,
                        !kenv_of(vs).dom().contains(name@) ==> k == 0,
                    decreases k,
                {
                    if k == 0 {
                        proof {
                            assert(vs.take(0int) =~= Seq::<(String, Kind)>::empty());
                        }
                        break;
                    }
                    k = k - 1;
                    proof {
                        lemma_kenv_of_take(vs, k as int);
                    }
                    if locals[k].0 == *name {
                        proof {
                            assert(kenv_of(vs.take(k as int + 1)).dom().contains(name@));
                        }
                        k = k + 1;
                        break;
                    }
                }
                if k == 0 {
                    Kind::Scalar
                } else {
                    locals[k - 1].1
                }
            },
            Expr::BinaryOp(l, _, r) => {
                let lk = self.infer_expr_type(l, locals);
                let rk = self.infer_expr_type(r, locals);
                if matches!(lk, Kind::Matrix) || matches!(rk, Kind::Matrix) {
                    Kind::Matrix
                } else {
                    Kind::Scalar
                }
            },
        }
    }

    /// Infers a function's return kind: one forward pass over the body,
    /// binding kinds at each `let` and answering at the first `return`; a
    /// body without one is a scalar.
    fn infer_return_type(&self, function: &Function) -> (k: Kind)
        ensures
            k == spec_infer_function(function@),
    {
        let ghost bodyv = function@.body;
        let mut locals: Vec<(String, Kind)> = Vec::new();
        let mut i: usize = 0;
        proof {
            assert(bodyv.skip(0) =~= bodyv);
        }
        while i < function.body.len()
            invariant
                0 <= i <= function.body@.len(),
                bodyv == function@.body,
                bodyv.len() == function.body@.len(),
                infer_ret_v(bodyv, Map::empty()) == infer_ret_v(
                    bodyv.skip(i as int),
                    kenv_of(locals@),
                ),
            decreases function.body@.len() - i,
        {
            let ghost ls0 = locals@;
            proof {
                assert(bodyv.skip(i as int)[0] == bodyv[i as int]);
                assert(bodyv[i as int] == function.body@[i as int]@);
                assert(bodyv.skip(i as int).drop_first() =~= bodyv.skip(i as int + 1));
            }
            match &function.body[i] {
                Stmt::Let(name, e) => {
                    let kind = self.infer_expr_type(e, &locals);
                    locals.push((name.clone(), kind));
                    proof {
                        assert(locals@.drop_last() =~= ls0);
                        assert(kenv_of(locals@) == kenv_of(ls0).insert(name@, kind));
                    }
                },
                Stmt::Return(e) => {
                    return self.infer_expr_type(e, &locals);
                },
            }
            i = i + 1;
        }
        proof {
            assert(bodyv.skip(i as int).len() == 0);
        }
        Kind::Scalar
    }

    /// Emits the element-by-element addition of the matrix records in `l`
    /// and `r`: the shape is read from the left record only, the element
    /// count is their product, and a bounded loop adds the flattened
    /// buffers into a fresh buffer and record.
    fn compile_matrix_add(&mut self, l: usize, r: usize) -> (res: Result<
        (usize, Kind),
        CodegenError,
    >)
        ensures
            final(self).module_v() == old(self).module_v(),
            final(self).env_v() == old(self).env_v(),
            match res {
                Ok((reg, kind)) => cg_mat_add(l, r, old(self).next()) is Ok && ({
                    let o = cg_mat_add(l, r, old(self).next())->Ok_0;
                    final(self).code_v() == old(self).code_v() + o.code && final(self).next()
                        == o.next && reg == o.reg && kind == o.kind
                }),
                Err(e) => cg_mat_add(l, r, old(self).next()) == Err::<CgOut, CgErrV>(e@),
            },
    {
        let base = match self.take_regs(11) {
            Ok(base) => base,
            Err(e) => {
                return Err(e);
            },
        };
        let t_rows = base;
        let t_cols = base + 1;
        let t_total = base + 2;
        let t_buf = base + 3;
        let t_ld = base + 4;
        let t_rd = base + 5;
        let t_idx = base + 6;
        let t_a = base + 7;
        let t_b = base + 8;
        let t_s = base + 9;
        let t_rec = base + 10;
        self.emit(Instr::RecGet { dest: t_rows, rec: l, field: Field::Rows });
        self.emit(Instr::RecGet { dest: t_cols, rec: l, field: Field::Cols });
        self.emit(Instr::IMul { dest: t_total, lhs: t_rows, rhs: t_cols });
        self.emit(Instr::BufAlloc { dest: t_buf, len: t_total });
        self.emit(Instr::RecGet { dest: t_ld, rec: l, field: Field::Data });
        self.emit(Instr::RecGet { dest: t_rd, rec: r, field: Field::Data });
        let mut loop_body: Vec<Instr> = Vec::new();
        loop_body.push(Instr::BufLoad { dest: t_a, buf: t_ld, idx: t_idx });
        loop_body.push(Instr::BufLoad { dest: t_b, buf: t_rd, idx: t_idx });
        loop_body.push(Instr::FArith { dest: t_s, op: Op::Add, lhs: t_a, rhs: t_b });
        loop_body.push(Instr::BufStore { buf: t_buf, idx: t_idx, src: t_s });
        proof {
            crate::compiler::ir::lemma_view_code_index(loop_body@);
            assert(view_code(loop_body@) =~= seq![
                InstrV::BufLoad { dest: t_a, buf: t_ld, idx: t_idx },
                InstrV::BufLoad { dest: t_b, buf: t_rd, idx: t_idx },
                InstrV::FArith { dest: t_s, op: Op::Add, lhs: t_a, rhs: t_b },
                InstrV::BufStore { buf: t_buf, idx: t_idx, src: t_s },
            ]);
        }
        self.emit(Instr::Loop { idx: t_idx, total: t_total, body: loop_body });
        self.emit(Instr::RecAlloc { dest: t_rec });
        self.emit(Instr::RecSet { rec: t_rec, field: Field::Data, src: t_buf });
        self.emit(Instr::RecSet { rec: t_rec, field: Field::Rows, src: t_rows });
        self.emit(Instr::RecSet { rec: t_rec, field: Field::Cols, src: t_cols });
        proof {
            let o = cg_mat_add(l, r, old(self).next())->Ok_0;
            assert(self.code_v() =~= old(self).code_v() + o.code);
        }
        Ok((t_rec, Kind::Matrix))
    }
}

impl CodeGen {
    /// Compiles one element row of a matrix literal, from element `j` on;
    /// `base` is the flattened offset of that element. Every element must
    /// be a scalar and is stored at consecutive offsets.
    fn compile_row(&mut self, row: &Vec<Expr>, j: usize, base: u64, buf: usize) -> (res: Result<
        (),
        CodegenError,
    >)
        requires
            j <= row@.len(),
            base + (row@.len() - j) <= u64::MAX,
        ensures
            final(self).module_v() == old(self).module_v(),
            final(self).env_v() == old(self).env_v(),
            match res {
                Ok(_) => cg_row(
                    view_row(row@).skip(j as int),
                    base as int,
                    buf,
                    old(self).env_v(),
                    old(self).next(),
                ) is Ok && ({
                    let o = cg_row(
                        view_row(row@).skip(j as int),
                        base as int,
                        buf,
                        old(self).env_v(),
                        old(self).next(),
                    )->Ok_0;
                    final(self).code_v() == old(self).code_v() + o.code && final(self).next()
                        == o.next
                }),
                Err(err) => cg_row(
                    view_row(row@).skip(j as int),
                    base as int,
                    buf,
                    old(self).env_v(),
                    old(self).next(),
                ) == Err::<CgElems, CgErrV>(err@),
            },
        decreases row, row@.len() - j,
    {
        proof {
            lemma_view_row_index(row@);
        }
        let ghost rv = view_row(row@).skip(j as int);
        if j == row.len() {
            proof {
                assert(rv.len() == 0);
                assert(final(self).code_v() =~= old(self).code_v() + Seq::<InstrV>::empty());
            }
            return Ok(());
        }
        proof {
            assert(rv[0] == row@[j as int]@);
            assert(rv.drop_first() =~= view_row(row@).skip(j as int + 1));
        }
        let (reg, kind) = match self.compile_expr(&row[j]) {
            Ok(out) => out,
            Err(err) => {
                return Err(err);
            },
        };
        if !matches!(kind, Kind::Scalar) {
            return Err(CodegenError::NonScalarMatrixElement);
        }
        let idx = match self.take_regs(1) {
            Ok(base_reg) => base_reg,
            Err(err) => {
                return Err(err);
            },
        };
        self.emit(Instr::IConst { dest: idx, val: base });
        self.emit(Instr::BufStore { buf, idx, src: reg });
        match self.compile_row(row, j + 1, base + 1, buf) {
            Ok(()) => {
                proof {
                    let eo = cg_expr(row@[j as int]@, old(self).env_v(), old(self).next())->Ok_0;
                    let rest = cg_row(
                        view_row(row@).skip(j as int + 1),
                        base + 1 as int,
                        buf,
                        old(self).env_v(),
                        (eo.next + 1) as usize,
                    )->Ok_0;
                    assert(self.code_v() =~= old(self).code_v() + (eo.code + seq![
                        InstrV::IConst { dest: eo.next, val: base },
                        InstrV::BufStore { buf, idx: eo.next, src: eo.reg },
                    ] + rest.code));
                }
                Ok(())
            },
            Err(err) => Err(err),
        }
    }

    /// Compiles the rows of a matrix literal from row `i` on; `base` is the
    /// flattened offset where row `i` begins.
    fn compile_rows(
        &mut self,
        rows: &Vec<Vec<Expr>>,
        i: usize,
        base: u64,
        cols: usize,
        buf: usize,
    ) -> (res: Result<(), CodegenError>)
        requires
            i <= rows@.len(),
            forall|k: int| 0 <= k < rows@.len() ==> #[trigger] rows@[k]@.len() == cols,
            base == i * cols,
            rows@.len() * cols <= u64::MAX,
        ensures
            final(self).module_v() == old(self).module_v(),
            final(self).env_v() == old(self).env_v(),
            match res {
                Ok(_) => cg_rows(
                    view_rows(rows@).skip(i as int),
                    base as int,
                    buf,
                    old(self).env_v(),
                    old(self).next(),
                ) is Ok && ({
                    let o = cg_rows(
                        view_rows(rows@).skip(i as int),
                        base as int,
                        buf,
                        old(self).env_v(),
                        old(self).next(),
                    )->Ok_0;
                    final(self).code_v() == old(self).code_v() + o.code && final(self).next()
                        == o.next
                }),
                Err(err) => cg_rows(
                    view_rows(rows@).skip(i as int),
                    base as int,
                    buf,
                    old(self).env_v(),
                    old(self).next(),
                ) == Err::<CgElems, CgErrV>(err@),
            },
        decreases rows, rows@.len() - i,
    {
        proof {
            lemma_view_rows_index(rows@);
        }
        let ghost rsv = view_rows(rows@).skip(i as int);
        if i == rows.len() {
            proof {
                assert(rsv.len() == 0);
                assert(final(self).code_v() =~= old(self).code_v() + Seq::<InstrV>::empty());
            }
            return Ok(());
        }
        proof {
            assert(rsv[0] == view_row(rows@[i as int]@));
            assert(rsv.drop_first() =~= view_rows(rows@).skip(i as int + 1));
            lemma_view_row_index(rows@[i as int]@);
            assert((i + 1) * cols == i * cols + cols) by (nonlinear_arith);
            assert((i + 1) * cols <= rows@.len() * cols) by (nonlinear_arith)
                requires i + 1 <= rows@.len(), cols >= 0;
            assert(view_row(rows@[i as int]@).skip(0) =~= view_row(rows@[i as int]@));
        }
        match self.compile_row(&rows[i], 0, base, buf) {
            Ok(()) => {},
            Err(err) => {
                return Err(err);
            },
        }
        match self.compile_rows(rows, i + 1, base + cols as u64, cols, buf) {
            Ok(()) => {
                proof {
                    let first = cg_row(rsv[0], base as int, buf, old(self).env_v(), old(self).next())->Ok_0;
                    let rest = cg_rows(
                        rsv.drop_first(),
                        base as int + rsv[0].len(),
                        buf,
                        old(self).env_v(),
                        first.next,
                    )->Ok_0;
                    assert(self.code_v() =~= old(self).code_v() + (first.code + rest.code));
                }
                Ok(())
            },
            Err(err) => Err(err),
        }
    }

    /// Compiles a matrix literal: rejects an empty or ragged literal,
    /// allocates the flat buffer, stores every element at `i*cols + j`, and
    /// populates a fresh record with the buffer and the shape.
    fn compile_matrix_literal(&mut self, rows: &Vec<Vec<Expr>>) -> (res: Result<
        (usize, Kind),
        CodegenError,
    >)
        ensures
            final(self).module_v() == old(self).module_v(),
            final(self).env_v() == old(self).env_v(),
            match res {
                Ok((reg, kind)) => cg_mat_lit(
                    view_rows(rows@),
                    old(self).env_v(),
                    old(self).next(),
                ) is Ok && ({
                    let o = cg_mat_lit(view_rows(rows@), old(self).env_v(), old(self).next())->Ok_0;
                    final(self).code_v() == old(self).code_v() + o.code && final(self).next()
                        == o.next && reg == o.reg && kind == o.kind
                }),
                Err(err) => cg_mat_lit(view_rows(rows@), old(self).env_v(), old(self).next())
                    == Err::<CgOut, CgErrV>(err@),
            },
        decreases rows, rows@.len() + 1,
    {
        proof {
            lemma_view_rows_index(rows@);
        }
        let ghost rsv = view_rows(rows@);
        proof {
            assert forall|m: int| 0 <= m < rsv.len() implies #[trigger] rsv[m].len()
                == rows@[m]@.len() by {
                lemma_view_row_index(rows@[m]@);
            }
        }
        if rows.len() == 0 {
            return Err(CodegenError::EmptyMatrixLiteral);
        }
        let cols = rows[0].len();
        let mut k: usize = 0;
        while k < rows.len()
            invariant
                0 <= k <= rows@.len(),
                rows@.len() >= 1,
                rsv == view_rows(rows@),
                rsv.len() == rows@.len(),
                forall|m: int| 0 <= m < rsv.len() ==> #[trigger] rsv[m].len() == rows@[m]@.len(),
                cols == rows@[0]@.len(),
                forall|m: int| 0 <= m < k ==> #[trigger] rows@[m]@.len() == cols,
            decreases rows@.len() - k,
        {
            if rows[k].len() != cols {
                proof {
                    assert(rsv[k as int].len() != rsv[0].len());
                    assert(!rectangular(rsv));
                }
                return Err(CodegenError::RaggedMatrixLiteral);
            }
            k = k + 1;
        }
        proof {
            assert(rectangular(rsv));
        }
        if cols == 0 {
            return Err(CodegenError::EmptyMatrixLiteral);
        }
        let total = match (rows.len() as u64).checked_mul(cols as u64) {
            Some(t) => t,
            None => {
                proof {
                    assert(rsv.len() * rsv[0].len() > u64::MAX);
                }
                return Err(CodegenError::Internal);
            },
        };
        proof {
            assert(rsv.len() * rsv[0].len() == total);
        }
        let base = match self.take_regs(2) {
            Ok(b) => b,
            Err(err) => {
                return Err(err);
            },
        };
        let t_total = base;
        let t_buf = base + 1;
        self.emit(Instr::IConst { dest: t_total, val: total });
        self.emit(Instr::BufAlloc { dest: t_buf, len: t_total });
        proof {
            assert(view_rows(rows@).skip(0) =~= view_rows(rows@));
        }
        match self.compile_rows(rows, 0, 0, cols, t_buf) {
            Ok(()) => {},
            Err(err) => {
                return Err(err);
            },
        }
        let regs = match self.take_regs(3) {
            Ok(b) => b,
            Err(err) => {
                return Err(err);
            },
        };
        let t_rec = regs;
        let t_rows = regs + 1;
        let t_cols = regs + 2;
        self.emit(Instr::RecAlloc { dest: t_rec });
        self.emit(Instr::RecSet { rec: t_rec, field: Field::Data, src: t_buf });
        self.emit(Instr::IConst { dest: t_rows, val: rows.len() as u64 });
        self.emit(Instr::RecSet { rec: t_rec, field: Field::Rows, src: t_rows });
        self.emit(Instr::IConst { dest: t_cols, val: cols as u64 });
        self.emit(Instr::RecSet { rec: t_rec, field: Field::Cols, src: t_cols });
        proof {
            let o = cg_mat_lit(rsv, old(self).env_v(), old(self).next())->Ok_0;
            assert(self.code_v() =~= old(self).code_v() + o.code);
        }
        Ok((t_rec, Kind::Matrix))
    }

    /// Compiles an expression to a value in a register, with the value's
    /// representation. An identifier loads from its bound slot with the
    /// representation recorded at bind time; referencing an unbound name is
    /// a fatal error. Scalars use native double arithmetic; two matrices
    /// support addition only; mixing a scalar and a matrix is an error.
    fn compile_expr(&mut self, e: &Expr) -> (res: Result<(usize, Kind), CodegenError>)
        ensures
            final(self).module_v() == old(self).module_v(),
            final(self).env_v() == old(self).env_v(),
            match res {
                Ok((reg, kind)) => cg_expr(e@, old(self).env_v(), old(self).next()) is Ok && ({
                    let o = cg_expr(e@, old(self).env_v(), old(self).next())->Ok_0;
                    final(self).code_v() == old(self).code_v() + o.code && final(self).next()
                        == o.next && reg == o.reg && kind == o.kind
                }),
                Err(err) => cg_expr(e@, old(self).env_v(), old(self).next()) == Err::<
                    CgOut,
                    CgErrV,
                >(err@),
            },
        decreases e, 0int,
    {
        match e {
            Expr::Number(text) => {
                let base = match self.take_regs(1) {
                    Ok(b) => b,
                    Err(err) => {
                        return Err(err);
                    },
                };
                self.emit(Instr::FConst { dest: base, text: text.clone() });
                proof {
                    assert(self.code_v() =~= old(self).code_v() + seq![
                        InstrV::FConst { dest: base, text: text@ },
                    ]);
                }
                Ok((base, Kind::Scalar))
            },
            Expr::Identifier(name) => match self.lookup(name) {
                Some((slot, kind)) => {
                    let base = match self.take_regs(1) {
                        Ok(b) => b,
                        Err(err) => {
                            return Err(err);
                        },
                    };
                    self.emit(Instr::Load { dest: base, slot, kind });
                    proof {
                        assert(self.code_v() =~= old(self).code_v() + seq![
                            InstrV::Load { dest: base, slot, kind },
                        ]);
                    }
                    Ok((base, kind))
                },
                None => Err(CodegenError::UnknownIdentifier(name.clone())),
            },
            Expr::BinaryOp(l, op, r) => {
                let (lr, lk) = match self.compile_expr(l) {
                    Ok(out) => out,
                    Err(err) => {
                        return Err(err);
                    },
                };
                let (rr, rk) = match self.compile_expr(r) {
                    Ok(out) => out,
                    Err(err) => {
                        return Err(err);
                    },
                };
                match (lk, rk) {
                    (Kind::Scalar, Kind::Scalar) => {
                        let dest = match self.take_regs(1) {
                            Ok(b) => b,
                            Err(err) => {
                                return Err(err);
                            },
                        };
                        self.emit(Instr::FArith { dest, op: *op, lhs: lr, rhs: rr });
                        proof {
                            let lo = cg_expr((**l)@, old(self).env_v(), old(self).next())->Ok_0;
                            let ro = cg_expr((**r)@, old(self).env_v(), lo.next)->Ok_0;
                            assert(self.code_v() =~= old(self).code_v() + (lo.code + ro.code
                                + seq![
                                InstrV::FArith { dest, op: *op, lhs: lr, rhs: rr },
                            ]));
                        }
                        Ok((dest, Kind::Scalar))
                    },
                    (Kind::Matrix, Kind::Matrix) => {
                        if matches!(op, Op::Add) {
                            match self.compile_matrix_add(lr, rr) {
                                Ok((reg, kind)) => {
                                    proof {
                                        let lo = cg_expr(
                                            (**l)@,
                                            old(self).env_v(),
                                            old(self).next(),
                                        )->Ok_0;
                                        let ro = cg_expr((**r)@, old(self).env_v(), lo.next)->Ok_0;
                                        let ao = cg_mat_add(lo.reg, ro.reg, ro.next)->Ok_0;
                                        assert(self.code_v() =~= old(self).code_v() + (lo.code
                                            + ro.code + ao.code));
                                    }
                                    Ok((reg, kind))
                                },
                                Err(err) => Err(err),
                            }
                        } else {
                            Err(CodegenError::UnsupportedMatrixOperator(*op))
                        }
                    },
                    _ => Err(CodegenError::OperandKindMismatch),
                }
            },
            Expr::MatrixLiteral(rows) => {
                let res = self.compile_matrix_literal(rows);
                res
            },
        }
    }

    /// Compiles one statement; reports whether it was a `return`. A `let`
    /// evaluates its expression, reserves a stack slot of the value's
    /// representation, stores the value and binds the name, a later binding
    /// of the same name winning. A `return` evaluates its expression and
    /// emits the return of that value.
    fn compile_stmt(&mut self, stmt: &Stmt) -> (res: Result<bool, CodegenError>)
        ensures
            final(self).module_v() == old(self).module_v(),
            match res {
                Ok(is_ret) => match stmt@ {
                    StmtV::Let(n, e) => !is_ret && cg_expr(e, old(self).env_v(), old(self).next())
                        is Ok && ({
                        let eo = cg_expr(e, old(self).env_v(), old(self).next())->Ok_0;
                        &&& eo.next + 1 <= usize::MAX
                        &&& final(self).code_v() == old(self).code_v() + eo.code + seq![
                            InstrV::Alloca { dest: eo.next, kind: eo.kind },
                            InstrV::Store { slot: eo.next, src: eo.reg },
                        ]
                        &&& final(self).next() == eo.next + 1
                        &&& final(self).env_v() == old(self).env_v().insert(n, (eo.next, eo.kind))
                    }),
                    StmtV::Return(e) => is_ret && cg_expr(e, old(self).env_v(), old(self).next())
                        is Ok && ({
                        let eo = cg_expr(e, old(self).env_v(), old(self).next())->Ok_0;
                        &&& final(self).code_v() == old(self).code_v() + eo.code + seq![
                            InstrV::Ret { src: eo.reg },
                        ]
                        &&& final(self).next() == eo.next
                        &&& final(self).env_v() == old(self).env_v()
                    }),
                },
                Err(err) => match stmt@ {
                    StmtV::Let(n, e) => cg_expr(e, old(self).env_v(), old(self).next()) == Err::<
                        CgOut,
                        CgErrV,
                    >(err@) || (cg_expr(e, old(self).env_v(), old(self).next()) is Ok && err@
                        == CgErrV::Internal && cg_expr(
                        e,
                        old(self).env_v(),
                        old(self).next(),
                    )->Ok_0.next + 1 > usize::MAX),
                    StmtV::Return(e) => cg_expr(e, old(self).env_v(), old(self).next()) == Err::<
                        CgOut,
                        CgErrV,
                    >(err@),
                },
            },
    {
        match stmt {
            Stmt::Let(name, e) => {
                let (reg, kind) = match self.compile_expr(e) {
                    Ok(out) => out,
                    Err(err) => {
                        return Err(err);
                    },
                };
                let slot = match self.take_regs(1) {
                    Ok(b) => b,
                    Err(err) => {
                        return Err(err);
                    },
                };
                self.emit(Instr::Alloca { dest: slot, kind });
                self.emit(Instr::Store { slot, src: reg });
                let ghost vs0 = self.variables@;
                self.variables.push((name.clone(), slot, kind));
                proof {
                    assert(self.variables@.drop_last() =~= vs0);
                    assert(env_of(self.variables@) == env_of(vs0).insert(name@, (slot, kind)));
                    let eo = cg_expr(e@, old(self).env_v(), old(self).next())->Ok_0;
                    assert(self.code_v() =~= old(self).code_v() + eo.code + seq![
                        InstrV::Alloca { dest: slot, kind },
                        InstrV::Store { slot, src: reg },
                    ]);
                }
                Ok(false)
            },
            Stmt::Return(e) => {
                let (reg, _kind) = match self.compile_expr(e) {
                    Ok(out) => out,
                    Err(err) => {
                        return Err(err);
                    },
                };
                self.emit(Instr::Ret { src: reg });
                proof {
                    let eo = cg_expr(e@, old(self).env_v(), old(self).next())->Ok_0;
                    assert(self.code_v() =~= old(self).code_v() + eo.code + seq![
                        InstrV::Ret { src: reg },
                    ]);
                }
                Ok(true)
            },
        }
    }

    /// Compiles a body from statement `i` on, stopping after the first
    /// `return`.
    fn compile_body(&mut self, function: &Function, i: usize) -> (res: Result<(), CodegenError>)
        requires
            i <= function@.body.len(),
        ensures
            final(self).module_v() == old(self).module_v(),
            match res {
                Ok(_) => cg_body(
                    function@.body.skip(i as int),
                    old(self).env_v(),
                    old(self).next(),
                ) is Ok && ({
                    let o = cg_body(
                        function@.body.skip(i as int),
                        old(self).env_v(),
                        old(self).next(),
                    )->Ok_0;
                    final(self).code_v() == old(self).code_v() + o.code && final(self).next()
                        == o.next
                }),
                Err(err) => cg_body(function@.body.skip(i as int), old(self).env_v(), old(
                    self
                ).next()) == Err::<CgBody, CgErrV>(err@),
            },
        decreases function@.body.len() - i,
    {
        let ghost bv = function@.body.skip(i as int);
        if i == function.body.len() {
            proof {
                assert(bv.len() == 0);
                assert(final(self).code_v() =~= old(self).code_v() + Seq::<InstrV>::empty());
            }
            return Ok(());
        }
        proof {
            assert(bv[0] == function@.body[i as int]);
            assert(function@.body[i as int] == function.body@[i as int]@);
            assert(bv.drop_first() =~= function@.body.skip(i as int + 1));
        }
        let is_ret = match self.compile_stmt(&function.body[i]) {
            Ok(b) => b,
            Err(err) => {
                return Err(err);
            },
        };
        if is_ret {
            proof {
                let eo = cg_expr(
                    function@.body[i as int]->Return_0,
                    old(self).env_v(),
                    old(self).next(),
                )->Ok_0;
                assert(self.code_v() =~= old(self).code_v() + (eo.code + seq![
                    InstrV::Ret { src: eo.reg },
                ]));
            }
            return Ok(());
        }
        match self.compile_body(function, i + 1) {
            Ok(()) => {
                proof {
                    let n = function@.body[i as int]->Let_0;
                    let e = function@.body[i as int]->Let_1;
                    let eo = cg_expr(e, old(self).env_v(), old(self).next())->Ok_0;
                    let rest = cg_body(
                        function@.body.skip(i as int + 1),
                        old(self).env_v().insert(n, (eo.next, eo.kind)),
                        (eo.next + 1) as usize,
                    )->Ok_0;
                    assert(self.code_v() =~= old(self).code_v() + (eo.code + seq![
                        InstrV::Alloca { dest: eo.next, kind: eo.kind },
                        InstrV::Store { slot: eo.next, src: eo.reg },
                    ] + rest.code));
                }
                Ok(())
            },
            Err(err) => Err(err),
        }
    }

    /// Compiles one function: its return representation comes from the
    /// inference pass, and its body is compiled with a fresh binding table
    /// and register counter. The compiled function is appended to the
    /// module.
    fn compile_function(&mut self, function: &Function) -> (res: Result<(), CodegenError>)
        ensures
            match res {
                Ok(_) => cg_fn(function@) is Ok && final(self).module_v() == (ModuleV {
                    name: old(self).module_v().name,
                    functions: old(self).module_v().functions.push(cg_fn(function@)->Ok_0),
                }),
                Err(err) => cg_fn(function@) == Err::<IrFunctionV, CgErrV>(err@) && final(
                    self
                ).module_v() == old(self).module_v(),
            },
    {
        let ret = self.infer_return_type(function);
        self.variables = Vec::new();
        self.next_reg = 0;
        self.code = Vec::new();
        proof {
            assert(self.env_v() =~= Map::<Seq<char>, (usize, Kind)>::empty());
            assert(self.code_v() =~= Seq::<InstrV>::empty());
            assert(function@.body.skip(0) =~= function@.body);
        }
        match self.compile_body(function, 0) {
            Ok(()) => {},
            Err(err) => {
                return Err(err);
            },
        }
        let mut body: Vec<Instr> = Vec::new();
        core::mem::swap(&mut body, &mut self.code);
        let ghost fs0 = self.module.functions@;
        self.module.functions.push(
            IrFunction { name: function.name.clone(), ret, body },
        );
        proof {
            let o = cg_body(function@.body, Map::empty(), 0)->Ok_0;
            assert(view_code(body@) =~= Seq::<InstrV>::empty() + o.code);
            assert(self.module.functions@.map_values(|f: IrFunction| f@) =~= fs0.map_values(
                |f: IrFunction| f@,
            ).push(cg_fn(function@)->Ok_0));
        }
        Ok(())
    }

    /// Compiles the functions of a program from index `i` on, appending
    /// each compiled function to the module.
    fn compile_functions(&mut self, program: &Program, i: usize) -> (res: Result<
        (),
        CodegenError,
    >)
        requires
            i <= program@.functions.len(),
        ensures
            match res {
                Ok(_) => cg_fns(program@.functions.skip(i as int)) is Ok && final(self).module_v()
                    == (ModuleV {
                    name: old(self).module_v().name,
                    functions: old(self).module_v().functions + cg_fns(
                        program@.functions.skip(i as int),
                    )->Ok_0,
                }),
                Err(err) => cg_fns(program@.functions.skip(i as int)) == Err::<
                    Seq<IrFunctionV>,
                    CgErrV,
                >(err@),
            },
        decreases program@.functions.len() - i,
    {
        let ghost fv = program@.functions.skip(i as int);
        if i == program.functions.len() {
            proof {
                assert(fv.len() == 0);
                assert(final(self).module_v().functions =~= old(self).module_v().functions
                    + Seq::<IrFunctionV>::empty());
            }
            return Ok(());
        }
        proof {
            assert(fv[0] == program@.functions[i as int]);
            assert(program@.functions[i as int] == program.functions@[i as int]@);
            assert(fv.drop_first() =~= program@.functions.skip(i as int + 1));
        }
        match self.compile_function(&program.functions[i]) {
            Ok(()) => {},
            Err(err) => {
                return Err(err);
            },
        }
        match self.compile_functions(program, i + 1) {
            Ok(()) => {
                proof {
                    let f0 = cg_fn(program@.functions[i as int])->Ok_0;
                    let rest = cg_fns(program@.functions.skip(i as int + 1))->Ok_0;
                    assert(old(self).module_v().functions + (seq![f0] + rest) =~= old(
                        self
                    ).module_v().functions.push(f0) + rest);
                }
                Ok(())
            },
            Err(err) => Err(err),
        }
    }

    /// Compiles every function of the program, in order, appending the
    /// compiled functions to the module; the first failure stops the walk.
    pub fn compile_program(&mut self, program: &Program) -> (res: Result<(), CodegenError>)
        ensures
            match res {
                Ok(_) => cg_fns(program@.functions) is Ok && final(self).module_v() == (ModuleV {
                    name: old(self).module_v().name,
                    functions: old(self).module_v().functions + cg_fns(program@.functions)->Ok_0,
                }),
                Err(err) => cg_fns(program@.functions) == Err::<Seq<IrFunctionV>, CgErrV>(err@),
            },
    {
        proof {
            assert(program@.functions.skip(0) =~= program@.functions);
        }
        self.compile_functions(program, 0)
    }
}

} // verus!
