//! The placeholder for the row count of a scope.

use vstd::prelude::*;

use crate::dtype::DType;
use crate::dtype::Nullability;
use crate::dtype::PType;
use crate::expr::lemma_expr_model;
use crate::expr::Expr;
use crate::expr::ExprKind;
use crate::expr::ExprModel;
use crate::expr::ExprType;
use crate::expr::KindModel;
use crate::expr::TypeKind;

verus! {

/// A row count that was evaluated before it was replaced.
#[derive(Clone, Copy, Debug, PartialEq, Eq, Structural)]
pub struct NotSubstituted;

/// The number of rows of the scope that an expression is evaluated in.
///
/// A rule that needs the row count names it by this placeholder, without knowing where statistics
/// are stored. Binding replaces it by what the binder has for it; it cannot be evaluated.
#[derive(Clone, Copy, Debug, PartialEq, Eq, Structural)]
pub struct RowCount;

/// The expression of a row count.
pub open spec fn row_count_model() -> ExprModel {
    ExprModel { kind: KindModel::RowCount, ty: ExprType::count(false), children: seq![] }
}

impl RowCount {
    /// The id of the function.
    pub fn id(&self) -> (r: &'static str)
        ensures
            r@ == "vortex.row_count"@,
    {
        "vortex.row_count"
    }

    /// The number of arguments.
    pub fn arity(&self) -> (r: usize)
        ensures
            r == 0,
    {
        0
    }

    /// The function in SQL.
    pub fn fmt_sql(&self) -> (r: &'static str)
        ensures
            r@ == "row_count()"@,
    {
        "row_count()"
    }

    /// The type of the result: a count, never null.
    pub fn return_dtype(&self) -> (r: DType)
        ensures
            r == DType::Primitive(PType::U64, Nullability::NonNullable),
    {
        DType::Primitive(PType::U64, Nullability::NonNullable)
    }

    /// Evaluating a placeholder fails.
    pub fn execute(&self) -> (r: Result<u64, NotSubstituted>)
        ensures
            r == Err::<u64, NotSubstituted>(NotSubstituted),
    {
        Err(NotSubstituted)
    }

    /// Whether a null argument makes the result null.
    pub fn is_strict(&self) -> (r: bool)
        ensures
            r,
    {
        true
    }

    /// Whether the function can fail on some arguments.
    pub fn is_fallible(&self) -> (r: bool)
        ensures
            !r,
    {
        false
    }

    /// The placeholder as an expression.
    pub fn new_expr(&self) -> (r: Expr)
        ensures
            r@ == row_count_model(),
            r.kind == ExprKind::RowCount,
            r.ty == (ExprType { kind: TypeKind::Primitive(PType::U64), nullable: false }),
            r.children@.len() == 0,
    {
        let r = Expr {
            kind: ExprKind::RowCount,
            ty: ExprType { kind: TypeKind::Primitive(PType::U64), nullable: false },
            children: Vec::new(),
        };
        proof {
            lemma_expr_model(r);
            assert(r@.children =~= seq![]);
        }
        r
    }
}

} // verus!
