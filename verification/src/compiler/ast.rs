use vstd::prelude::*;

verus! {

/// The binary operators supported by the language.
#[derive(Debug, Clone, Copy, PartialEq, Eq, Structural)]
pub enum Op {
    Add,
    Subtract,
    Multiply,
    Divide,
}

/// An expression of the abstract syntax tree.
///
/// A numeric literal keeps its source text: the compiler itself is purely
/// symbolic, and the text is turned into a native double only by the backend
/// that executes the generated code.
#[derive(Debug, PartialEq)]
pub enum Expr {
    /// A numeric literal, as written in the source.
    Number(String),
    /// A binary operation between two expressions.
    BinaryOp(Box<Expr>, Op, Box<Expr>),
    /// A matrix literal: an ordered sequence of rows.
    MatrixLiteral(Vec<Vec<Expr>>),
    /// A variable identifier.
    Identifier(String),
}

/// A statement of the abstract syntax tree.
#[derive(Debug, PartialEq)]
pub enum Stmt {
    /// A variable binding: `let x = ...;`
    Let(String, Expr),
    /// A return statement: `return ...;`
    Return(Expr),
}

/// A function definition. All functions are zero-arity.
#[derive(Debug, PartialEq)]
pub struct Function {
    pub name: String,
    pub body: Vec<Stmt>,
}

/// An entire program: an ordered sequence of functions.
#[derive(Debug, PartialEq)]
pub struct Program {
    pub functions: Vec<Function>,
}

/// The mathematical model of an expression: strings become character
/// sequences and row vectors become sequences.
#[verifier::ext_equal]
pub enum ExprV {
    Number(Seq<char>),
    BinaryOp(Box<ExprV>, Op, Box<ExprV>),
    MatrixLiteral(Seq<Seq<ExprV>>),
    Identifier(Seq<char>),
}

/// The mathematical model of a statement.
#[verifier::ext_equal]
pub enum StmtV {
    Let(Seq<char>, ExprV),
    Return(ExprV),
}

/// The mathematical model of a function.
#[verifier::ext_equal]
pub struct FunctionV {
    pub name: Seq<char>,
    pub body: Seq<StmtV>,
}

/// The mathematical model of a program.
#[verifier::ext_equal]
pub struct ProgramV {
    pub functions: Seq<FunctionV>,
}

pub open spec fn view_row(row: Seq<Expr>) -> Seq<ExprV>
    decreases row,
{
    if row.len() == 0 {
        Seq::empty()
    } else {
        seq![row[0]@] + view_row(row.drop_first())
    }
}

pub open spec fn view_rows(rows: Seq<Vec<Expr>>) -> Seq<Seq<ExprV>>
    decreases rows,
{
    if rows.len() == 0 {
        Seq::empty()
    } else {
        seq![view_row(rows[0]@)] + view_rows(rows.drop_first())
    }
}

impl View for Expr {
    type V = ExprV;

    open spec fn view(&self) -> ExprV
        decreases self,
    {
        match self {
            Expr::Number(s) => ExprV::Number(s@),
            Expr::Identifier(s) => ExprV::Identifier(s@),
            Expr::BinaryOp(l, op, r) => ExprV::BinaryOp(Box::new((**l)@), *op, Box::new((**r)@)),
            Expr::MatrixLiteral(rows) => ExprV::MatrixLiteral(view_rows(rows@)),
        }
    }
}

impl View for Stmt {
    type V = StmtV;

    open spec fn view(&self) -> StmtV {
        match self {
            Stmt::Let(name, e) => StmtV::Let(name@, e@),
            Stmt::Return(e) => StmtV::Return(e@),
        }
    }
}

impl View for Function {
    type V = FunctionV;

    open spec fn view(&self) -> FunctionV {
        FunctionV { name: self.name@, body: self.body@.map_values(|s: Stmt| s@) }
    }
}

impl View for Program {
    type V = ProgramV;

    open spec fn view(&self) -> ProgramV {
        ProgramV { functions: self.functions@.map_values(|f: Function| f@) }
    }
}

/// `view_row` reads the row pointwise.
pub proof fn lemma_view_row_index(row: Seq<Expr>)
    ensures
        view_row(row).len() == row.len(),
        forall|i: int| 0 <= i < row.len() ==> #[trigger] view_row(row)[i] == row[i]@,
    decreases row,
{
    if row.len() > 0 {
        lemma_view_row_index(row.drop_first());
        assert(view_row(row) == seq![row[0]@] + view_row(row.drop_first()));
        assert forall|i: int| 0 <= i < row.len() implies #[trigger] view_row(row)[i] == row[i]@ by {
            if i > 0 {
                assert(row.drop_first()[i - 1] == row[i]);
            }
        }
    }
}

/// `view_rows` reads the rows pointwise.
pub proof fn lemma_view_rows_index(rows: Seq<Vec<Expr>>)
    ensures
        view_rows(rows).len() == rows.len(),
        forall|i: int| 0 <= i < rows.len() ==> #[trigger] view_rows(rows)[i] == view_row(rows[i]@),
    decreases rows,
{
    if rows.len() > 0 {
        lemma_view_rows_index(rows.drop_first());
        assert(view_rows(rows) == seq![view_row(rows[0]@)] + view_rows(rows.drop_first()));
        assert forall|i: int| 0 <= i < rows.len() implies #[trigger] view_rows(rows)[i] == view_row(
            rows[i]@,
        ) by {
            if i > 0 {
                assert(rows.drop_first()[i - 1] == rows[i]);
            }
        }
    }
}

} // verus!
