//! Expressions over columns and statistics.

use std::sync::Arc;

use vstd::prelude::*;

use crate::dtype::share;
use crate::dtype::DType;
use crate::dtype::PType;

verus! {

/// The type of an expression, apart from whether it may be null.
#[derive(Debug, PartialEq)]
pub enum TypeKind {
    Bool,
    Primitive(PType),
    Other(Arc<DType>),
}

/// The type of an expression.
#[derive(Debug, PartialEq)]
pub struct ExprType {
    pub kind: TypeKind,
    pub nullable: bool,
}

impl ExprType {
    /// The type of booleans.
    pub open spec fn boolean(nullable: bool) -> ExprType {
        ExprType { kind: TypeKind::Bool, nullable }
    }

    /// The type of unsigned integers.
    pub open spec fn count(nullable: bool) -> ExprType {
        ExprType { kind: TypeKind::Primitive(PType::U64), nullable }
    }

    /// The same type with null values.
    pub open spec fn or_null(self) -> ExprType {
        ExprType { kind: self.kind, nullable: true }
    }

    /// The same type with null values.
    pub fn as_nullable(&self) -> (r: ExprType)
        ensures
            r == self.or_null(),
            r.kind == self.kind,
            r.nullable,
    {
        let kind = match &self.kind {
            TypeKind::Bool => TypeKind::Bool,
            TypeKind::Primitive(ptype) => TypeKind::Primitive(*ptype),
            TypeKind::Other(dtype) => TypeKind::Other(share(dtype)),
        };
        ExprType { kind, nullable: true }
    }
}

/// A function from the values of a column to one value.
#[derive(Debug, PartialEq)]
pub enum AggregateFn {
    AllNull,
    AllNonNull,
    AllNan,
    AllNonNan,
    NullCount,
    NanCount,
    /// Any other, by its name.
    Other(String),
}

/// A value in an expression.
#[derive(Clone, Copy, Debug, PartialEq, Eq, Structural)]
pub enum Literal {
    Null,
    Bool(bool),
    U64(u64),
}

/// What a node of an expression computes.
#[derive(Debug, PartialEq)]
pub enum ExprKind {
    /// The statistic of its only child.
    Stat(AggregateFn),
    /// The number of rows of the scope.
    RowCount,
    /// Its only child as another type.
    Cast,
    /// Whether its two children are equal.
    Equal,
    Literal(Literal),
    /// Any other function, by its name.
    Other(String),
}

/// An expression.
#[derive(Debug, PartialEq)]
pub struct Expr {
    pub kind: ExprKind,
    pub ty: ExprType,
    pub children: Vec<Expr>,
}

/// What an [`Expr`] stands for.
pub struct ExprModel {
    pub kind: KindModel,
    pub ty: ExprType,
    pub children: Seq<ExprModel>,
}

/// What an [`ExprKind`] stands for.
pub enum KindModel {
    Stat(AggregateModel),
    RowCount,
    Cast,
    Equal,
    Literal(Literal),
    Other(Seq<char>),
}

/// What an [`AggregateFn`] stands for.
pub enum AggregateModel {
    AllNull,
    AllNonNull,
    AllNan,
    AllNonNan,
    NullCount,
    NanCount,
    Other(Seq<char>),
}

impl View for AggregateFn {
    type V = AggregateModel;

    open spec fn view(&self) -> AggregateModel {
        match *self {
            AggregateFn::AllNull => AggregateModel::AllNull,
            AggregateFn::AllNonNull => AggregateModel::AllNonNull,
            AggregateFn::AllNan => AggregateModel::AllNan,
            AggregateFn::AllNonNan => AggregateModel::AllNonNan,
            AggregateFn::NullCount => AggregateModel::NullCount,
            AggregateFn::NanCount => AggregateModel::NanCount,
            AggregateFn::Other(name) => AggregateModel::Other(name@),
        }
    }
}

impl View for ExprKind {
    type V = KindModel;

    open spec fn view(&self) -> KindModel {
        match *self {
            ExprKind::Stat(f) => KindModel::Stat(f@),
            ExprKind::RowCount => KindModel::RowCount,
            ExprKind::Cast => KindModel::Cast,
            ExprKind::Equal => KindModel::Equal,
            ExprKind::Literal(l) => KindModel::Literal(l),
            ExprKind::Other(name) => KindModel::Other(name@),
        }
    }
}

/// What an expression stands for.
pub open spec fn expr_model(e: Expr) -> ExprModel
    decreases e,
{
    ExprModel {
        kind: e.kind@,
        ty: e.ty,
        children: Seq::new(
            e.children@.len(),
            |i: int|
                if 0 <= i < e.children@.len() {
                    expr_model(e.children@[i])
                } else {
                    arbitrary()
                },
        ),
    }
}

/// What expressions stand for.
pub open spec fn expr_models(es: Seq<Expr>) -> Seq<ExprModel> {
    Seq::new(es.len(), |i: int| expr_model(es[i]))
}

impl View for Expr {
    type V = ExprModel;

    open spec fn view(&self) -> ExprModel {
        expr_model(*self)
    }
}

/// What an expression stands for, by its parts.
pub proof fn lemma_expr_model(e: Expr)
    ensures
        e@ == (ExprModel { kind: e.kind@, ty: e.ty, children: expr_models(e.children@) }),
{
    assert(e@.children =~= expr_models(e.children@));
}

/// Whether each statistic in an expression is of exactly one child.
pub open spec fn well_formed(e: ExprModel) -> bool
    decreases e,
{
    &&& e.kind is Stat ==> e.children.len() == 1
    &&& forall|i: int| 0 <= i < e.children.len() ==> well_formed(#[trigger] e.children[i])
}

/// Whether an expression holds no statistic.
pub open spec fn without_stats(e: ExprModel) -> bool
    decreases e,
{
    &&& !(e.kind is Stat)
    &&& forall|i: int| 0 <= i < e.children.len() ==> without_stats(#[trigger] e.children[i])
}

/// Whether an expression holds neither a statistic nor a row count.
pub open spec fn without_placeholders(e: ExprModel) -> bool
    decreases e,
{
    &&& !(e.kind is Stat)
    &&& !(e.kind is RowCount)
    &&& forall|i: int|
        0 <= i < e.children.len() ==> without_placeholders(#[trigger] e.children[i])
}

/// A literal of a type.
pub open spec fn literal_model(value: Literal, ty: ExprType) -> ExprModel {
    ExprModel { kind: KindModel::Literal(value), ty, children: seq![] }
}

/// A literal of a type.
pub fn literal(value: Literal, ty: ExprType) -> (r: Expr)
    ensures
        r@ == literal_model(value, ty),
        r.kind == ExprKind::Literal(value),
        r.ty == ty,
        r.children@.len() == 0,
{
    let r = Expr { kind: ExprKind::Literal(value), ty, children: Vec::new() };
    proof {
        lemma_expr_model(r);
        assert(r@.children =~= seq![]);
    }
    r
}

/// Whether two expressions are equal, as an expression.
pub open spec fn equal_model(a: ExprModel, b: ExprModel) -> ExprModel {
    ExprModel {
        kind: KindModel::Equal,
        ty: ExprType::boolean(a.ty.nullable || b.ty.nullable),
        children: seq![a, b],
    }
}

/// Whether two expressions are equal, as an expression.
pub fn equal(a: Expr, b: Expr) -> (r: Expr)
    ensures
        r@ == equal_model(a@, b@),
        r.kind == ExprKind::Equal,
        r.ty.kind == TypeKind::Bool,
        r.ty.nullable <==> a.ty.nullable || b.ty.nullable,
        r.children@ == seq![a, b],
{
    let ghost x = a@;
    let ghost y = b@;
    let nullable = a.ty.nullable || b.ty.nullable;
    let mut children: Vec<Expr> = Vec::new();
    children.push(a);
    children.push(b);
    let r = Expr {
        kind: ExprKind::Equal,
        ty: ExprType { kind: TypeKind::Bool, nullable },
        children,
    };
    proof {
        lemma_expr_model(r);
        assert(r@.children =~= seq![x, y]);
    }
    r
}

/// What holds no statistics, or no statistics and no row counts, has none at its root nor in any
/// child.
pub proof fn law_placeholders_are_looked_for_everywhere(e: ExprModel, i: int)
    ensures
        without_stats(e) ==> !(e.kind is Stat),
        without_placeholders(e) ==> !(e.kind is Stat) && !(e.kind is RowCount),
        0 <= i < e.children.len() && without_stats(e) ==> without_stats(e.children[i]),
        0 <= i < e.children.len() && without_placeholders(e) ==> without_placeholders(e.children[i]),
{
}

/// An expression stands for one of the same kind and type, with what its children stand for.
pub proof fn law_expressions_stand_for_themselves(e: Expr, i: int)
    ensures
        e@.ty == e.ty,
        e@.children.len() == e.children@.len(),
        0 <= i < e.children@.len() ==> e@.children[i] == e.children@[i]@,
        e.kind is RowCount <==> e@.kind is RowCount,
        e.kind is Cast <==> e@.kind is Cast,
        e.kind is Equal <==> e@.kind is Equal,
        e.kind matches ExprKind::Stat(f) ==> e@.kind == KindModel::Stat(f@),
        e.kind matches ExprKind::Literal(value) ==> e@.kind == KindModel::Literal(value),
        e.kind matches ExprKind::Other(name) ==> e@.kind == KindModel::Other(name@),
{
    lemma_expr_model(e);
}

} // verus!
