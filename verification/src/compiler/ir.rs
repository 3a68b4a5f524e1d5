use vstd::prelude::*;

use crate::compiler::ast::Op;
use crate::compiler::sem::Kind;

verus! {

/// A field of the runtime matrix record: the owning pointer to the
/// row-major buffer of doubles, the row count, and the column count.
#[derive(Debug, Clone, Copy, PartialEq, Eq, Structural)]
pub enum Field {
    Data,
    Rows,
    Cols,
}

/// One instruction of the intermediate representation the code generator
/// emits. Values live in numbered registers; each value-producing
/// instruction names its destination. The backend lowers each instruction
/// to its native form: stack slots become allocas, buffer and record
/// allocations become heap allocations, and the loop becomes a header block
/// whose index is a control-flow merge of the entry value zero and the
/// incremented value from the previous pass.
#[derive(Debug, PartialEq)]
pub enum Instr {
    /// A native double constant, from a numeric literal's text.
    FConst { dest: usize, text: String },
    /// An integer constant.
    IConst { dest: usize, val: u64 },
    /// Native double arithmetic over two registers.
    FArith { dest: usize, op: Op, lhs: usize, rhs: usize },
    /// Integer multiplication (a buffer size).
    IMul { dest: usize, lhs: usize, rhs: usize },
    /// Reserves a stack slot for a value of the given representation;
    /// `dest` receives the slot's address.
    Alloca { dest: usize, kind: Kind },
    /// Stores `src` into the slot whose address is in `slot`.
    Store { slot: usize, src: usize },
    /// Loads from the slot whose address is in `slot`, with the
    /// representation recorded when the slot was bound.
    Load { dest: usize, slot: usize, kind: Kind },
    /// Allocates a heap buffer of as many doubles as the integer in `len`;
    /// `dest` receives its address.
    BufAlloc { dest: usize, len: usize },
    /// Stores the double in `src` at offset `idx` of buffer `buf`.
    BufStore { buf: usize, idx: usize, src: usize },
    /// Loads the double at offset `idx` of buffer `buf`.
    BufLoad { dest: usize, buf: usize, idx: usize },
    /// Allocates a matrix record; `dest` receives its address.
    RecAlloc { dest: usize },
    /// Stores `src` into a field of the record whose address is in `rec`.
    RecSet { rec: usize, field: Field, src: usize },
    /// Loads a field of the record whose address is in `rec`.
    RecGet { dest: usize, rec: usize, field: Field },
    /// A bounded loop. The index register starts at zero; after each pass
    /// of the body it is incremented, and the loop continues while the
    /// incremented index is strictly below the integer in `total`. The body
    /// runs at least once.
    Loop { idx: usize, total: usize, body: Vec<Instr> },
    /// Returns the value in `src`.
    Ret { src: usize },
}

/// The mathematical model of an instruction.
#[verifier::ext_equal]
pub enum InstrV {
    FConst { dest: usize, text: Seq<char> },
    IConst { dest: usize, val: u64 },
    FArith { dest: usize, op: Op, lhs: usize, rhs: usize },
    IMul { dest: usize, lhs: usize, rhs: usize },
    Alloca { dest: usize, kind: Kind },
    Store { slot: usize, src: usize },
    Load { dest: usize, slot: usize, kind: Kind },
    BufAlloc { dest: usize, len: usize },
    BufStore { buf: usize, idx: usize, src: usize },
    BufLoad { dest: usize, buf: usize, idx: usize },
    RecAlloc { dest: usize },
    RecSet { rec: usize, field: Field, src: usize },
    RecGet { dest: usize, rec: usize, field: Field },
    Loop { idx: usize, total: usize, body: Seq<InstrV> },
    Ret { src: usize },
}

pub open spec fn view_code(c: Seq<Instr>) -> Seq<InstrV>
    decreases c,
{
    if c.len() == 0 {
        Seq::empty()
    } else {
        seq![c[0]@] + view_code(c.drop_first())
    }
}

impl View for Instr {
    type V = InstrV;

    open spec fn view(&self) -> InstrV
        decreases self,
    {
        match self {
            Instr::FConst { dest, text } => InstrV::FConst { dest: *dest, text: text@ },
            Instr::IConst { dest, val } => InstrV::IConst { dest: *dest, val: *val },
            Instr::FArith { dest, op, lhs, rhs } => InstrV::FArith {
                dest: *dest,
                op: *op,
                lhs: *lhs,
                rhs: *rhs,
            },
            Instr::IMul { dest, lhs, rhs } => InstrV::IMul { dest: *dest, lhs: *lhs, rhs: *rhs },
            Instr::Alloca { dest, kind } => InstrV::Alloca { dest: *dest, kind: *kind },
            Instr::Store { slot, src } => InstrV::Store { slot: *slot, src: *src },
            Instr::Load { dest, slot, kind } => InstrV::Load {
                dest: *dest,
                slot: *slot,
                kind: *kind,
            },
            Instr::BufAlloc { dest, len } => InstrV::BufAlloc { dest: *dest, len: *len },
            Instr::BufStore { buf, idx, src } => InstrV::BufStore {
                buf: *buf,
                idx: *idx,
                src: *src,
            },
            Instr::BufLoad { dest, buf, idx } => InstrV::BufLoad {
                dest: *dest,
                buf: *buf,
                idx: *idx,
            },
            Instr::RecAlloc { dest } => InstrV::RecAlloc { dest: *dest },
            Instr::RecSet { rec, field, src } => InstrV::RecSet {
                rec: *rec,
                field: *field,
                src: *src,
            },
            Instr::RecGet { dest, rec, field } => InstrV::RecGet {
                dest: *dest,
                rec: *rec,
                field: *field,
            },
            Instr::Loop { idx, total, body } => InstrV::Loop {
                idx: *idx,
                total: *total,
                body: view_code(body@),
            },
            Instr::Ret { src } => InstrV::Ret { src: *src },
        }
    }
}

/// `view_code` reads the code pointwise.
pub proof fn lemma_view_code_index(c: Seq<Instr>)
    ensures
        view_code(c).len() == c.len(),
        forall|i: int| 0 <= i < c.len() ==> #[trigger] view_code(c)[i] == c[i]@,
    decreases c,
{
    if c.len() > 0 {
        lemma_view_code_index(c.drop_first());
        assert(view_code(c) == seq![c[0]@] + view_code(c.drop_first()));
        assert forall|i: int| 0 <= i < c.len() implies #[trigger] view_code(c)[i] == c[i]@ by {
            if i > 0 {
                assert(c.drop_first()[i - 1] == c[i]);
            }
        }
    }
}

/// `view_code` distributes over concatenation.
pub proof fn lemma_view_code_push(c: Seq<Instr>, x: Instr)
    ensures
        view_code(c.push(x)) == view_code(c).push(x@),
{
    lemma_view_code_index(c);
    lemma_view_code_index(c.push(x));
    assert forall|i: int| 0 <= i < c.len() + 1 implies view_code(c.push(x))[i] == view_code(
        c,
    ).push(x@)[i] by {
        if i < c.len() {
            assert(c.push(x)[i] == c[i]);
        } else {
            assert(c.push(x)[i] == x);
        }
    }
    assert(view_code(c.push(x)) =~= view_code(c).push(x@));
}

/// A compiled function: its name, the representation of its return value,
/// and its straight-line body.
#[derive(Debug, PartialEq)]
pub struct IrFunction {
    pub name: String,
    pub ret: Kind,
    pub body: Vec<Instr>,
}

/// The mathematical model of a compiled function.
#[verifier::ext_equal]
pub struct IrFunctionV {
    pub name: Seq<char>,
    pub ret: Kind,
    pub body: Seq<InstrV>,
}

impl View for IrFunction {
    type V = IrFunctionV;

    open spec fn view(&self) -> IrFunctionV {
        IrFunctionV { name: self.name@, ret: self.ret, body: view_code(self.body@) }
    }
}

/// A compiled module: named functions in emission order.
#[derive(Debug, PartialEq)]
pub struct Module {
    pub name: String,
    pub functions: Vec<IrFunction>,
}

/// The mathematical model of a compiled module.
#[verifier::ext_equal]
pub struct ModuleV {
    pub name: Seq<char>,
    pub functions: Seq<IrFunctionV>,
}

impl View for Module {
    type V = ModuleV;

    open spec fn view(&self) -> ModuleV {
        ModuleV { name: self.name@, functions: self.functions@.map_values(|f: IrFunction| f@) }
    }
}

/// The index of the first function with the given name, if any.
pub open spec fn spec_find_function(fs: Seq<IrFunctionV>, name: Seq<char>) -> Option<int>
    decreases fs.len(),
{
    if fs.len() == 0 {
        None
    } else if fs[0].name == name {
        Some(0)
    } else {
        match spec_find_function(fs.drop_first(), name) {
            Some(i) => Some(i + 1),
            None => None,
        }
    }
}

impl Module {
    /// Locates the function with the given name, as the execution engine
    /// must before invoking an entry point; absence is the "function not
    /// found" failure.
    pub fn find_function(&self, name: &str) -> (r: Option<usize>)
        ensures
            match r {
                Some(i) => spec_find_function(self@.functions, name@) == Some(i as int) && i
                    < self.functions@.len() && self@.functions[i as int].name == name@,
                None => spec_find_function(self@.functions, name@) is None,
            },
    {
        let ghost fsv = self@.functions;
        let mut i: usize = 0;
        proof {
            assert(fsv.skip(0) =~= fsv);
        }
        while i < self.functions.len()
            invariant
                0 <= i <= self.functions@.len(),
                fsv == self@.functions,
                fsv.len() == self.functions@.len(),
                forall|k: int| 0 <= k < i ==> #[trigger] fsv[k].name != name@,
                spec_find_function(fsv.skip(i as int), name@) is Some ==> spec_find_function(
                    fsv,
                    name@,
                ) == Some(
                    spec_find_function(fsv.skip(i as int), name@)->Some_0 + i,
                ),
                spec_find_function(fsv.skip(i as int), name@) is None ==> spec_find_function(
                    fsv,
                    name@,
                ) is None,
            decreases self.functions@.len() - i,
        {
            let found = {
                let f = &self.functions[i];
                str_eq(f.name.as_str(), name)
            };
            proof {
                assert(fsv[i as int] == self.functions@[i as int]@);
                assert(fsv.skip(i as int)[0] == fsv[i as int]);
            }
            if found {
                proof {
                    assert(spec_find_function(fsv.skip(i as int), name@) == Some(0int));
                }
                return Some(i);
            }
            proof {
                assert(fsv.skip(i as int).drop_first() =~= fsv.skip(i as int + 1));
            }
            i = i + 1;
        }
        proof {
            assert(fsv.skip(i as int).len() == 0);
        }
        None
    }
}

/// Relies on `str::eq`: string slices compare equal exactly when their
/// characters do.
#[verifier::external_body]
fn str_eq(a: &str, b: &str) -> (r: bool)
    ensures
        r == (a@ == b@),
{
    a == b
}

} // verus!
