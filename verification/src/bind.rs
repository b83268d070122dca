//! Binding abstract statistics in an expression to what a scope has for them.
//!
//! Rules describe pruning by statistics without saying where these are stored. Binding replaces
//! each statistic by what a [`StatBinder`] has for it: a field of a table of statistics, a value
//! from a footer, or a null where there is none.

use vstd::prelude::*;

use crate::dtype::PType;
use crate::expr::equal;
use crate::expr::equal_model;
use crate::expr::expr_models;
use crate::expr::lemma_expr_model;
use crate::expr::literal;
use crate::expr::literal_model;
use crate::expr::well_formed;
use crate::expr::without_placeholders;
use crate::expr::without_stats;
use crate::expr::AggregateFn;
use crate::expr::AggregateModel;
use crate::expr::Expr;
use crate::expr::ExprKind;
use crate::expr::ExprModel;
use crate::expr::ExprType;
use crate::expr::KindModel;
use crate::expr::Literal;
use crate::expr::TypeKind;

verus! {

/// What an optional expression stands for.
pub open spec fn option_model<E>(r: Result<Option<Expr>, E>) -> Result<Option<ExprModel>, E> {
    match r {
        Ok(Some(e)) => Ok(Some(e@)),
        Ok(None) => Ok(None),
        Err(e) => Err(e),
    }
}

/// What the expression in a result stands for.
pub open spec fn result_model<E>(r: Result<Expr, E>) -> Result<ExprModel, E> {
    match r {
        Ok(e) => Ok(e@),
        Err(e) => Err(e),
    }
}

/// Where statistics are bound to.
pub trait StatBinder {
    /// What binding can fail with.
    type Error;

    /// What the statistic of an expression is bound to, if it is available.
    closed spec fn aggregate(&self, input: ExprModel, f: AggregateModel, ty: ExprType) -> Result<
        Option<ExprModel>,
        Self::Error,
    > {
        arbitrary()
    }

    /// What the row count is bound to, if it is known.
    closed spec fn row_count(&self) -> Result<Option<ExprModel>, Self::Error> {
        arbitrary()
    }

    /// What stands in for a statistic that is not available.
    closed spec fn missing(&self, ty: ExprType) -> Result<ExprModel, Self::Error> {
        arbitrary()
    }

    /// Binds the statistic `f` of `input` to an expression without statistics of its own, or
    /// to nothing if it is not available. Row counts in it are bound in turn.
    fn bind_aggregate(&self, input: &Expr, f: &AggregateFn, ty: &ExprType) -> (r: Result<
        Option<Expr>,
        Self::Error,
    >)
        ensures
            option_model(r) == self.aggregate(input@, f@, *ty),
            r matches Ok(Some(e)) ==> without_stats(e@),
    ;

    /// Binds the number of rows that each row of the scope's statistics covers, or nothing if it
    /// is not known. It is an expression because rows can cover different numbers of rows.
    fn bind_row_count(&self) -> (r: Result<Option<Expr>, Self::Error>)
        ensures
            option_model(r) == self.row_count(),
            r matches Ok(Some(e)) ==> without_placeholders(e@),
    ;

    /// What stands in for a statistic that is not available: as a rule [`null_expr`]. Row counts
    /// in it are bound in turn, so it can hold some unless the row count is not known.
    fn missing_stat(&self, ty: &ExprType) -> (r: Result<Expr, Self::Error>)
        ensures
            result_model(r) == self.missing(*ty),
            r matches Ok(e) ==> without_stats(e@),
            r matches Ok(e) ==> (self.row_count() matches Ok(None) ==> without_placeholders(e@)),
    ;
}

/// A null of the type, which leaves a comparison with it undecided.
pub fn null_expr(ty: &ExprType) -> (r: Expr)
    ensures
        r@ == literal_model(Literal::Null, ty.or_null()),
        r.kind == ExprKind::Literal(Literal::Null),
        r.ty.kind == ty.kind,
        r.ty.nullable,
        r.children@.len() == 0,
        without_placeholders(r@),
{
    let r = literal(Literal::Null, ty.as_nullable());
    proof {
        lemma_expr_model(r);
    }
    r
}

/// The count that a statement about all values can be derived from, and whether it is compared to
/// the row count rather than to zero.
pub open spec fn derivation(f: AggregateModel) -> Option<(AggregateModel, bool)> {
    match f {
        AggregateModel::AllNull => Some((AggregateModel::NullCount, true)),
        AggregateModel::AllNonNull => Some((AggregateModel::NullCount, false)),
        AggregateModel::AllNan => Some((AggregateModel::NanCount, true)),
        AggregateModel::AllNonNan => Some((AggregateModel::NanCount, false)),
        _ => None,
    }
}

/// The count that a statement about all values can be derived from, and whether it is compared to
/// the row count rather than to zero.
pub fn count_derivation(f: &AggregateFn) -> (r: Option<(AggregateFn, bool)>)
    ensures
        match r {
            Some((count_fn, against_row_count)) => derivation(f@) == Some(
                (count_fn@, against_row_count),
            ),
            None => derivation(f@) is None,
        },
        *f is AllNull ==> r == Some((AggregateFn::NullCount, true)),
        *f is AllNonNull ==> r == Some((AggregateFn::NullCount, false)),
        *f is AllNan ==> r == Some((AggregateFn::NanCount, true)),
        *f is AllNonNan ==> r == Some((AggregateFn::NanCount, false)),
        *f is NullCount || *f is NanCount || *f is Other ==> r is None,
{
    match f {
        AggregateFn::AllNull => Some((AggregateFn::NullCount, true)),
        AggregateFn::AllNonNull => Some((AggregateFn::NullCount, false)),
        AggregateFn::AllNan => Some((AggregateFn::NanCount, true)),
        AggregateFn::AllNonNan => Some((AggregateFn::NanCount, false)),
        _ => None,
    }
}

/// Whether a count is defined for a type: NaNs are counted among floats only.
pub open spec fn counts(f: AggregateModel, ty: ExprType) -> bool {
    f is NanCount ==> (ty.kind matches TypeKind::Primitive(ptype) && ptype.float())
}

fn has_count(f: &AggregateFn, ty: &ExprType) -> (r: bool)
    ensures
        r == counts(f@, *ty),
{
    match f {
        AggregateFn::NanCount => match &ty.kind {
            TypeKind::Primitive(ptype) => ptype.is_float(),
            _ => false,
        },
        _ => true,
    }
}

/// What a statement about all values of `input` is derived to: a count compared to the row count
/// or to zero. Nothing follows through a cast, which can change how many values are null or NaN.
pub open spec fn derived<B: StatBinder + ?Sized>(
    binder: &B,
    input: ExprModel,
    f: AggregateModel,
) -> Result<Option<ExprModel>, B::Error> {
    if input.kind is Cast {
        Ok(None)
    } else {
        match derivation(f) {
            None => Ok(None),
            Some((count_fn, against_row_count)) => if !counts(count_fn, input.ty) {
                Ok(None)
            } else {
                match binder.aggregate(input, count_fn, ExprType::count(true)) {
                    Err(e) => Err(e),
                    Ok(None) => Ok(None),
                    Ok(Some(count)) => if !against_row_count {
                        Ok(
                            Some(
                                equal_model(
                                    count,
                                    literal_model(Literal::U64(0), ExprType::count(false)),
                                ),
                            ),
                        )
                    } else {
                        match binder.row_count() {
                            Err(e) => Err(e),
                            Ok(None) => Ok(None),
                            Ok(Some(rows)) => Ok(Some(equal_model(count, rows))),
                        }
                    },
                }
            },
        }
    }
}

/// Derives a statement about all values from a count that the binder has.
pub fn derive_from_count<B: StatBinder + ?Sized>(input: &Expr, f: &AggregateFn, binder: &B) -> (r:
    Result<Option<Expr>, B::Error>)
    ensures
        option_model(r) == derived(binder, input@, f@),
        r matches Ok(Some(e)) ==> without_stats(e@),
        input.kind is Cast ==> r matches Ok(None),
        r matches Ok(Some(e)) ==> e@.kind == KindModel::Equal && e@.children.len() == 2 && (match *f {
            AggregateFn::AllNull => binder.row_count() == Ok::<_, B::Error>(Some(e@.children[1])),
            AggregateFn::AllNan => binder.row_count() == Ok::<_, B::Error>(Some(e@.children[1])),
            AggregateFn::AllNonNull => e@.children[1].kind == KindModel::Literal(Literal::U64(0)),
            AggregateFn::AllNonNan => e@.children[1].kind == KindModel::Literal(Literal::U64(0)),
            _ => false,
        }),
{
    proof {
        lemma_expr_model(*input);
    }
    if let ExprKind::Cast = input.kind {
        return Ok(None);
    }
    let (count_fn, against_row_count) = match count_derivation(f) {
        Some((count_fn, against_row_count)) => (count_fn, against_row_count),
        None => return Ok(None),
    };
    if !has_count(&count_fn, &input.ty) {
        return Ok(None);
    }
    let ty = ExprType { kind: TypeKind::Primitive(PType::U64), nullable: true };
    let count = match binder.bind_aggregate(input, &count_fn, &ty) {
        Ok(Some(count)) => count,
        Ok(None) => return Ok(None),
        Err(e) => return Err(e),
    };
    let other = if !against_row_count {
        literal(
            Literal::U64(0),
            ExprType { kind: TypeKind::Primitive(PType::U64), nullable: false },
        )
    } else {
        match binder.bind_row_count() {
            Ok(Some(rows)) => rows,
            Ok(None) => return Ok(None),
            Err(e) => return Err(e),
        }
    };
    proof {
        if against_row_count {
            lemma_placeholder_free_has_no_stats(other@);
        }
        let whole = equal_model(count@, other@);
        assert forall|i: int| 0 <= i < whole.children.len() implies without_stats(
            #[trigger] whole.children[i],
        ) by {
            assert(whole.children[i] == count@ || whole.children[i] == other@);
        }
    }
    Ok(Some(equal(count, other)))
}

/// What the statistic at the root of `e` is bound to, if it is available.
pub open spec fn stat_bound<B: StatBinder + ?Sized>(
    binder: &B,
    input: ExprModel,
    f: AggregateModel,
    ty: ExprType,
) -> Result<Option<ExprModel>, B::Error> {
    match binder.aggregate(input, f, ty) {
        Err(e) => Err(e),
        Ok(Some(e)) => Ok(Some(e)),
        Ok(None) => derived(binder, input, f),
    }
}

/// Binds one statistic: to what the binder has for it, else to what follows from a count.
pub fn bind_stat_fn<B: StatBinder + ?Sized>(
    input: &Expr,
    f: &AggregateFn,
    ty: &ExprType,
    binder: &B,
) -> (r: Result<Option<Expr>, B::Error>)
    ensures
        option_model(r) == stat_bound(binder, input@, f@, *ty),
        r matches Ok(Some(e)) ==> without_stats(e@),
{
    match binder.bind_aggregate(input, f, ty) {
        Ok(Some(bound)) => Ok(Some(bound)),
        Ok(None) => derive_from_count(input, f, binder),
        Err(e) => Err(e),
    }
}

/// What a row count is bound to.
pub open spec fn row_count_bound<B: StatBinder + ?Sized>(binder: &B) -> Result<
    ExprModel,
    B::Error,
> {
    match binder.row_count() {
        Err(e) => Err(e),
        Ok(Some(rows)) => Ok(rows),
        Ok(None) => binder.missing(ExprType::count(false)),
    }
}

/// An expression without statistics with its row counts bound.
pub open spec fn rows_bound<B: StatBinder + ?Sized>(binder: &B, e: ExprModel) -> Result<
    ExprModel,
    B::Error,
>
    decreases e, e.children.len() + 1,
{
    if e.kind is RowCount {
        row_count_bound(binder)
    } else {
        match rows_bound_children(binder, e, e.children.len()) {
            Err(x) => Err(x),
            Ok(children) => Ok(ExprModel { kind: e.kind, ty: e.ty, children }),
        }
    }
}

/// The first `n` children with their row counts bound, up to the first that fails.
pub open spec fn rows_bound_children<B: StatBinder + ?Sized>(
    binder: &B,
    e: ExprModel,
    n: nat,
) -> Result<Seq<ExprModel>, B::Error>
    decreases e, n,
{
    if n == 0 || n > e.children.len() {
        Ok(seq![])
    } else {
        match rows_bound_children(binder, e, (n - 1) as nat) {
            Err(x) => Err(x),
            Ok(front) => match rows_bound(binder, e.children[n - 1]) {
                Err(x) => Err(x),
                Ok(last) => Ok(front.push(last)),
            },
        }
    }
}

/// An expression with its statistics and row counts bound, from the root down. What a statistic
/// is bound to, or what stands in for it, has its own row counts bound in turn.
pub open spec fn stats_bound<B: StatBinder + ?Sized>(binder: &B, e: ExprModel) -> Result<
    ExprModel,
    B::Error,
>
    decreases e, e.children.len() + 1,
{
    match e.kind {
        KindModel::Stat(f) => match stat_bound(binder, e.children[0], f, e.ty) {
            Err(x) => Err(x),
            Ok(Some(bound)) => rows_bound(binder, bound),
            Ok(None) => match binder.missing(e.ty) {
                Err(x) => Err(x),
                Ok(stand_in) => rows_bound(binder, stand_in),
            },
        },
        KindModel::RowCount => row_count_bound(binder),
        _ => match stats_bound_children(binder, e, e.children.len()) {
            Err(x) => Err(x),
            Ok(children) => Ok(ExprModel { kind: e.kind, ty: e.ty, children }),
        },
    }
}

/// The first `n` children with their statistics and row counts bound, up to the first that fails.
pub open spec fn stats_bound_children<B: StatBinder + ?Sized>(
    binder: &B,
    e: ExprModel,
    n: nat,
) -> Result<Seq<ExprModel>, B::Error>
    decreases e, n,
{
    if n == 0 || n > e.children.len() {
        Ok(seq![])
    } else {
        match stats_bound_children(binder, e, (n - 1) as nat) {
            Err(x) => Err(x),
            Ok(front) => match stats_bound(binder, e.children[n - 1]) {
                Err(x) => Err(x),
                Ok(last) => Ok(front.push(last)),
            },
        }
    }
}

proof fn lemma_placeholder_free_has_no_stats(e: ExprModel)
    requires
        without_placeholders(e),
    ensures
        without_stats(e),
    decreases e,
{
    assert forall|i: int| 0 <= i < e.children.len() implies without_stats(
        #[trigger] e.children[i],
    ) by {
        lemma_placeholder_free_has_no_stats(e.children[i]);
    }
}

/// Whether none of the expressions holds a statistic or a row count.
spec fn all_without_placeholders(es: Seq<ExprModel>) -> bool {
    forall|i: int| 0 <= i < es.len() ==> without_placeholders(#[trigger] es[i])
}

/// Binds the row counts in an expression without statistics.
fn bind_rows<B: StatBinder + ?Sized>(e: Expr, binder: &B) -> (r: Result<Expr, B::Error>)
    requires
        without_stats(e@),
    ensures
        result_model(r) == rows_bound(binder, e@),
        r matches Ok(bound) ==> without_placeholders(bound@),
    decreases e,
{
    proof {
        lemma_expr_model(e);
    }
    let ghost whole = e@;
    if let ExprKind::RowCount = e.kind {
        return bind_row_count_expr(binder);
    }
    let Expr { kind, ty, children } = e;
    let ghost given = children@;
    let mut bound: Vec<Expr> = Vec::new();
    assert(expr_models(bound@) =~= seq![]);
    for child in it: children
        invariant
            it.seq() == given,
            whole.children == expr_models(given),
            given == e.children@,
            whole == e@,
            without_stats(whole),
            !(whole.kind is RowCount),
            all_without_placeholders(expr_models(bound@)),
            rows_bound_children(binder, whole, it.index() as nat) == Ok::<
                Seq<ExprModel>,
                B::Error,
            >(expr_models(bound@)),
    {
        let ghost i = it.index() as int;
        proof {
            assert(child == given[i]);
            assert(whole.children[i] == child@);
            lemma_children_failure(binder, whole, (i + 1) as nat);
        }
        match bind_rows(child, binder) {
            Ok(b) => {
                let ghost before = bound@;
                bound.push(b);
                assert(expr_models(bound@) =~= expr_models(before).push(b@));
            },
            Err(x) => return Err(x),
        }
    }
    let r = Expr { kind, ty, children: bound };
    proof {
        lemma_expr_model(r);
    }
    Ok(r)
}

proof fn lemma_children_failure<B: StatBinder + ?Sized>(binder: &B, e: ExprModel, n: nat)
    requires
        n <= e.children.len(),
    ensures
        rows_bound_children(binder, e, n) matches Err(x) ==> rows_bound_children(
            binder,
            e,
            e.children.len(),
        ) == Err::<Seq<ExprModel>, B::Error>(x),
        stats_bound_children(binder, e, n) matches Err(x) ==> stats_bound_children(
            binder,
            e,
            e.children.len(),
        ) == Err::<Seq<ExprModel>, B::Error>(x),
    decreases e.children.len() - n,
{
    if n < e.children.len() {
        lemma_children_failure(binder, e, n + 1);
    }
}

fn bind_row_count_expr<B: StatBinder + ?Sized>(binder: &B) -> (r: Result<Expr, B::Error>)
    ensures
        result_model(r) == row_count_bound(binder),
        r matches Ok(bound) ==> without_placeholders(bound@),
{
    match binder.bind_row_count() {
        Ok(Some(rows)) => Ok(rows),
        Ok(None) => binder.missing_stat(
            &ExprType { kind: TypeKind::Primitive(PType::U64), nullable: false },
        ),
        Err(x) => Err(x),
    }
}

/// Binds all statistics and row counts in a predicate, so that it holds none any more.
///
/// A statistic that the binder has nothing for, and that does not follow from a count, becomes
/// what the binder has for missing ones.
#[verifier::rlimit(40)]
pub fn bind_stats<B: StatBinder + ?Sized>(predicate: Expr, binder: &B) -> (r: Result<
    Expr,
    B::Error,
>)
    requires
        well_formed(predicate@),
    ensures
        result_model(r) == stats_bound(binder, predicate@),
        r matches Ok(bound) ==> without_placeholders(bound@),
    decreases predicate,
{
    proof {
        lemma_expr_model(predicate);
    }
    let ghost whole = predicate@;
    if let ExprKind::RowCount = predicate.kind {
        return bind_row_count_expr(binder);
    }
    if let ExprKind::Stat(f) = &predicate.kind {
        assert(whole.children[0] == predicate.children@[0]@);
        return match bind_stat_fn(&predicate.children[0], f, &predicate.ty, binder) {
            Ok(Some(bound)) => bind_rows(bound, binder),
            Ok(None) => match binder.missing_stat(&predicate.ty) {
                Ok(stand_in) => bind_rows(stand_in, binder),
                Err(x) => Err(x),
            },
            Err(x) => Err(x),
        };
    }
    let Expr { kind, ty, children } = predicate;
    let ghost given = children@;
    let mut bound: Vec<Expr> = Vec::new();
    assert(expr_models(bound@) =~= seq![]);
    for child in it: children
        invariant
            it.seq() == given,
            whole.children == expr_models(given),
            given == predicate.children@,
            whole == predicate@,
            well_formed(whole),
            !(whole.kind is RowCount),
            !(whole.kind is Stat),
            all_without_placeholders(expr_models(bound@)),
            stats_bound_children(binder, whole, it.index() as nat) == Ok::<
                Seq<ExprModel>,
                B::Error,
            >(expr_models(bound@)),
    {
        let ghost i = it.index() as int;
        proof {
            assert(child == given[i]);
            assert(whole.children[i] == child@);
            lemma_children_failure(binder, whole, (i + 1) as nat);
        }
        match bind_stats(child, binder) {
            Ok(b) => {
                let ghost before = bound@;
                bound.push(b);
                assert(expr_models(bound@) =~= expr_models(before).push(b@));
            },
            Err(x) => return Err(x),
        }
    }
    let r = Expr { kind, ty, children: bound };
    proof {
        lemma_expr_model(r);
    }
    Ok(r)
}

/// Whether a binder keeps to its part: what it binds a statistic to, or has for a missing one,
/// holds no statistics; and what it binds a row count to holds no row counts either, nor does
/// what it has for a missing statistic where it has no row count.
pub open spec fn binds_concretely<B: StatBinder + ?Sized>(binder: &B) -> bool {
    &&& forall|input: ExprModel, f: AggregateModel, ty: ExprType|
        (#[trigger] binder.aggregate(input, f, ty)) matches Ok(Some(e)) ==> without_stats(e)
    &&& binder.row_count() matches Ok(Some(e)) ==> without_placeholders(e)
    &&& forall|ty: ExprType|
        (#[trigger] binder.missing(ty)) matches Ok(e) ==> without_stats(e) && (
        binder.row_count() matches Ok(None) ==> without_placeholders(e))
}

proof fn lemma_rows_bound_concrete<B: StatBinder + ?Sized>(binder: &B, e: ExprModel)
    requires
        binds_concretely(binder),
        without_stats(e),
    ensures
        rows_bound(binder, e) matches Ok(r) ==> without_placeholders(r),
    decreases e, e.children.len() + 1,
{
    if !(e.kind is RowCount) {
        lemma_rows_children_concrete(binder, e, e.children.len());
    }
}

proof fn lemma_rows_children_concrete<B: StatBinder + ?Sized>(binder: &B, e: ExprModel, n: nat)
    requires
        binds_concretely(binder),
        without_stats(e),
        n <= e.children.len(),
    ensures
        rows_bound_children(binder, e, n) matches Ok(r) ==> forall|i: int|
            0 <= i < r.len() ==> without_placeholders(#[trigger] r[i]),
    decreases e, n,
{
    if n > 0 {
        lemma_rows_children_concrete(binder, e, (n - 1) as nat);
        lemma_rows_bound_concrete(binder, e.children[n - 1]);
    }
}

/// A bound expression holds neither statistics nor row counts.
pub proof fn law_bound_has_no_placeholders<B: StatBinder + ?Sized>(binder: &B, e: ExprModel)
    requires
        binds_concretely(binder),
        well_formed(e),
    ensures
        stats_bound(binder, e) matches Ok(r) ==> without_placeholders(r),
    decreases e, e.children.len() + 1,
{
    match e.kind {
        KindModel::Stat(f) => {
            if let Ok(Some(bound)) = stat_bound(binder, e.children[0], f, e.ty) {
                lemma_stat_bound_has_no_stats(binder, e.children[0], f, e.ty);
                lemma_rows_bound_concrete(binder, bound);
            }
            if let Ok(stand_in) = binder.missing(e.ty) {
                lemma_rows_bound_concrete(binder, stand_in);
            }
        },
        KindModel::RowCount => {},
        _ => {
            lemma_children_concrete(binder, e, e.children.len());
        },
    }
}

proof fn lemma_stat_bound_has_no_stats<B: StatBinder + ?Sized>(
    binder: &B,
    input: ExprModel,
    f: AggregateModel,
    ty: ExprType,
)
    requires
        binds_concretely(binder),
    ensures
        stat_bound(binder, input, f, ty) matches Ok(Some(e)) ==> without_stats(e),
{
    if let Ok(Some(e)) = stat_bound(binder, input, f, ty) {
        if let Ok(None) = binder.aggregate(input, f, ty) {
            let (count_fn, against_row_count) = derivation(f)->Some_0;
            let count = binder.aggregate(input, count_fn, ExprType::count(true))->Ok_0->Some_0;
            assert(without_stats(count));
            let other = if against_row_count {
                binder.row_count()->Ok_0->Some_0
            } else {
                literal_model(Literal::U64(0), ExprType::count(false))
            };
            if against_row_count {
                lemma_placeholder_free_has_no_stats(other);
            }
            assert(e == equal_model(count, other));
            assert forall|i: int| 0 <= i < e.children.len() implies without_stats(
                #[trigger] e.children[i],
            ) by {
                assert(e.children[i] == count || e.children[i] == other);
            }
        }
    }
}

proof fn lemma_children_concrete<B: StatBinder + ?Sized>(binder: &B, e: ExprModel, n: nat)
    requires
        binds_concretely(binder),
        well_formed(e),
        n <= e.children.len(),
    ensures
        stats_bound_children(binder, e, n) matches Ok(r) ==> forall|i: int|
            0 <= i < r.len() ==> without_placeholders(#[trigger] r[i]),
    decreases e, n,
{
    if n > 0 {
        lemma_children_concrete(binder, e, (n - 1) as nat);
        law_bound_has_no_placeholders(binder, e.children[n - 1]);
    }
}

/// An expression that holds neither statistics nor row counts stays as it is, whatever the binder.
pub proof fn law_binding_keeps_other_expressions<B: StatBinder + ?Sized>(binder: &B, e: ExprModel)
    requires
        without_placeholders(e),
    ensures
        stats_bound(binder, e) == Ok::<ExprModel, B::Error>(e),
    decreases e, e.children.len() + 1,
{
    lemma_children_kept(binder, e, e.children.len());
    assert(e.children.take(e.children.len() as int) =~= e.children);
}

proof fn lemma_children_kept<B: StatBinder + ?Sized>(binder: &B, e: ExprModel, n: nat)
    requires
        without_placeholders(e),
        n <= e.children.len(),
    ensures
        stats_bound_children(binder, e, n) == Ok::<Seq<ExprModel>, B::Error>(
            e.children.take(n as int),
        ),
    decreases e, n,
{
    if n > 0 {
        lemma_children_kept(binder, e, (n - 1) as nat);
        law_binding_keeps_other_expressions(binder, e.children[n - 1]);
        assert(e.children.take(n as int) =~= e.children.take(n - 1).push(e.children[n - 1]));
    } else {
        assert(e.children.take(0) =~= seq![]);
    }
}

/// Where a binder lacks a statement about nulls but has their number `c` and the number of rows
/// `n`, that all values of an input that is no cast are null is bound to `c` being equal to `n`,
/// and that none is to `c` being equal to zero.
pub proof fn law_null_statements_follow_from_counts<B: StatBinder + ?Sized>(
    binder: &B,
    input: ExprModel,
    ty: ExprType,
    c: ExprModel,
    n: ExprModel,
    zero: ExprModel,
)
    requires
        !(input.kind is Cast),
        binder.aggregate(
            input,
            AggregateModel::NullCount,
            ExprType { kind: TypeKind::Primitive(PType::U64), nullable: true },
        ) == Ok::<_, B::Error>(Some(c)),
        zero.kind == KindModel::Literal(Literal::U64(0)),
        zero.ty == (ExprType { kind: TypeKind::Primitive(PType::U64), nullable: false }),
        zero.children.len() == 0,
    ensures
        binder.aggregate(input, AggregateModel::AllNull, ty) == Ok::<Option<ExprModel>, B::Error>(None)
            && binder.row_count() == Ok::<_, B::Error>(Some(n)) ==> (stat_bound(
            binder,
            input,
            AggregateModel::AllNull,
            ty,
        ) matches Ok(Some(e)) && e.kind == KindModel::Equal && e.children =~= seq![c, n] && e.ty == (
        ExprType { kind: TypeKind::Bool, nullable: c.ty.nullable || n.ty.nullable })),
        binder.aggregate(input, AggregateModel::AllNonNull, ty) == Ok::<Option<ExprModel>, B::Error>(
            None,
        ) ==> (stat_bound(binder, input, AggregateModel::AllNonNull, ty) matches Ok(Some(e))
            && e.kind == KindModel::Equal && e.children =~= seq![c, zero] && e.ty == (ExprType {
            kind: TypeKind::Bool,
            nullable: c.ty.nullable,
        })),
{
    assert(zero.children =~= Seq::<ExprModel>::empty());
    assert(zero == literal_model(Literal::U64(0), ExprType::count(false)));
}

/// Where a binder lacks a statement about NaNs but has their number `c` and the number of rows
/// `n`, that all values of a float input that is no cast are NaN is bound to `c` being equal to
/// `n`, and that none is to `c` being equal to zero.
pub proof fn law_nan_statements_follow_from_counts<B: StatBinder + ?Sized>(
    binder: &B,
    input: ExprModel,
    ty: ExprType,
    c: ExprModel,
    n: ExprModel,
    zero: ExprModel,
)
    requires
        !(input.kind is Cast),
        input.ty.kind == TypeKind::Primitive(PType::F16) || input.ty.kind == TypeKind::Primitive(
            PType::F32,
        ) || input.ty.kind == TypeKind::Primitive(PType::F64),
        binder.aggregate(
            input,
            AggregateModel::NanCount,
            ExprType { kind: TypeKind::Primitive(PType::U64), nullable: true },
        ) == Ok::<_, B::Error>(Some(c)),
        zero.kind == KindModel::Literal(Literal::U64(0)),
        zero.ty == (ExprType { kind: TypeKind::Primitive(PType::U64), nullable: false }),
        zero.children.len() == 0,
    ensures
        binder.aggregate(input, AggregateModel::AllNan, ty) == Ok::<Option<ExprModel>, B::Error>(None)
            && binder.row_count() == Ok::<_, B::Error>(Some(n)) ==> (stat_bound(
            binder,
            input,
            AggregateModel::AllNan,
            ty,
        ) matches Ok(Some(e)) && e.kind == KindModel::Equal && e.children =~= seq![c, n] && e.ty == (
        ExprType { kind: TypeKind::Bool, nullable: c.ty.nullable || n.ty.nullable })),
        binder.aggregate(input, AggregateModel::AllNonNan, ty) == Ok::<Option<ExprModel>, B::Error>(
            None,
        ) ==> (stat_bound(binder, input, AggregateModel::AllNonNan, ty) matches Ok(Some(e))
            && e.kind == KindModel::Equal && e.children =~= seq![c, zero] && e.ty == (ExprType {
            kind: TypeKind::Bool,
            nullable: c.ty.nullable,
        })),
{
    assert(zero.children =~= Seq::<ExprModel>::empty());
    assert(zero == literal_model(Literal::U64(0), ExprType::count(false)));
}

/// A statistic that the binder has is bound to just that, and a failure of the binder is passed
/// on.
pub proof fn law_available_statistics_are_taken<B: StatBinder + ?Sized>(
    binder: &B,
    input: ExprModel,
    f: AggregateModel,
    ty: ExprType,
)
    ensures
        binder.aggregate(input, f, ty) matches Ok(Some(e)) ==> stat_bound(binder, input, f, ty) == Ok::<
            _,
            B::Error,
        >(Some(e)),
        binder.aggregate(input, f, ty) matches Err(x) ==> stat_bound(binder, input, f, ty) == Err::<
            Option<ExprModel>,
            _,
        >(x),
{
}

/// A statistic that the binder lacks is bound to nothing if it is asked of a cast, if it is no
/// statement about nulls or NaNs, if it speaks of NaNs of a type that has none, if the binder
/// lacks the count too, or if all values are spoken of and the number of rows is not known.
pub proof fn law_nothing_else_is_derived<B: StatBinder + ?Sized>(
    binder: &B,
    input: ExprModel,
    f: AggregateModel,
    ty: ExprType,
)
    requires
        binder.aggregate(input, f, ty) == Ok::<Option<ExprModel>, B::Error>(None),
        ({
            let count = ExprType { kind: TypeKind::Primitive(PType::U64), nullable: true };
            let float = input.ty.kind == TypeKind::Primitive(PType::F16) || input.ty.kind
                == TypeKind::Primitive(PType::F32) || input.ty.kind == TypeKind::Primitive(PType::F64);
            let nulls = binder.aggregate(input, AggregateModel::NullCount, count);
            let nans = binder.aggregate(input, AggregateModel::NanCount, count);
            let rows = binder.row_count();
            ||| input.kind is Cast
            ||| f is NullCount
            ||| f is NanCount
            ||| f is Other
            ||| (f is AllNan || f is AllNonNan) && !float
            ||| (f is AllNan || f is AllNonNan) && nans == Ok::<Option<ExprModel>, B::Error>(None)
            ||| (f is AllNull || f is AllNonNull) && nulls == Ok::<Option<ExprModel>, B::Error>(None)
            ||| f is AllNull && nulls is Ok && rows == Ok::<Option<ExprModel>, B::Error>(None)
            ||| f is AllNan && nans is Ok && rows == Ok::<Option<ExprModel>, B::Error>(None)
        }),
    ensures
        stat_bound(binder, input, f, ty) == Ok::<Option<ExprModel>, B::Error>(None),
{
}

/// A statistic at the root of an expression becomes what it is bound to, or what stands in for it,
/// with the row counts in that bound too; a row count becomes the binder's, or what stands in for
/// a missing count.
pub proof fn law_placeholders_become_what_they_are_bound_to<B: StatBinder + ?Sized>(
    binder: &B,
    e: ExprModel,
    f: AggregateModel,
    rows: ExprModel,
)
    ensures
        e.kind == KindModel::Stat(f) ==> match stat_bound(binder, e.children[0], f, e.ty) {
            Ok(Some(bound)) => stats_bound(binder, e) == rows_bound(binder, bound),
            Ok(None) => match binder.missing(e.ty) {
                Ok(stand_in) => stats_bound(binder, e) == rows_bound(binder, stand_in),
                Err(x) => stats_bound(binder, e) == Err::<ExprModel, _>(x),
            },
            Err(x) => stats_bound(binder, e) == Err::<ExprModel, _>(x),
        },
        e.kind is RowCount && binder.row_count() == Ok::<_, B::Error>(Some(rows)) ==> stats_bound(
            binder,
            e,
        ) == Ok::<_, B::Error>(rows) && rows_bound(binder, e) == Ok::<_, B::Error>(rows),
        e.kind is RowCount && binder.row_count() == Ok::<Option<ExprModel>, B::Error>(None)
            ==> stats_bound(binder, e) == binder.missing(
            ExprType { kind: TypeKind::Primitive(PType::U64), nullable: false },
        ) && rows_bound(binder, e) == stats_bound(binder, e),
        forall|x: B::Error|
            e.kind is RowCount && binder.row_count() == Err::<Option<ExprModel>, _>(x) ==> stats_bound(
                binder,
                e,
            ) == Err::<ExprModel, _>(x),
{
}

/// Any other expression keeps its kind and its type, and each of its children is bound.
pub proof fn law_binding_reaches_every_child<B: StatBinder + ?Sized>(
    binder: &B,
    e: ExprModel,
    r: ExprModel,
)
    requires
        !(e.kind is Stat),
        !(e.kind is RowCount),
        stats_bound(binder, e) == Ok::<_, B::Error>(r),
    ensures
        r.kind == e.kind,
        r.ty == e.ty,
        r.children.len() == e.children.len(),
        forall|i: int|
            0 <= i < e.children.len() ==> stats_bound(binder, #[trigger] e.children[i]) == Ok::<
                _,
                B::Error,
            >(r.children[i]),
{
    lemma_children_bound(binder, e, e.children.len());
}

proof fn lemma_children_bound<B: StatBinder + ?Sized>(binder: &B, e: ExprModel, n: nat)
    requires
        n <= e.children.len(),
    ensures
        stats_bound_children(binder, e, n) matches Ok(r) ==> r.len() == n && forall|i: int|
            0 <= i < n ==> stats_bound(binder, #[trigger] e.children[i]) == Ok::<_, B::Error>(r[i]),
        stats_bound_children(binder, e, n) matches Err(x) ==> exists|i: int|
            0 <= i < n && stats_bound(binder, #[trigger] e.children[i]) == Err::<ExprModel, _>(x)
                && forall|k: int|
                0 <= k < i ==> stats_bound(binder, #[trigger] e.children[k]) is Ok,
    decreases n,
{
    if n > 0 {
        lemma_children_bound(binder, e, (n - 1) as nat);
        if let Ok(front) = stats_bound_children(binder, e, (n - 1) as nat) {
            assert(forall|k: int|
                0 <= k < n - 1 ==> stats_bound(binder, #[trigger] e.children[k]) is Ok);
            if let Err(x) = stats_bound(binder, e.children[n - 1]) {
                assert(stats_bound(binder, e.children[n - 1]) is Err);
            }
        }
    }
}

/// Binding any other expression fails if and only if binding a child does, with the failure of the
/// first such child.
pub proof fn law_binding_fails_with_the_first_child<B: StatBinder + ?Sized>(
    binder: &B,
    e: ExprModel,
    x: B::Error,
    i: int,
)
    requires
        !(e.kind is Stat),
        !(e.kind is RowCount),
        0 <= i < e.children.len(),
        stats_bound(binder, e.children[i]) == Err::<ExprModel, _>(x),
        forall|k: int| 0 <= k < i ==> stats_bound(binder, #[trigger] e.children[k]) is Ok,
    ensures
        stats_bound(binder, e) == Err::<ExprModel, _>(x),
{
    lemma_children_bound(binder, e, e.children.len());
    if let Err(y) = stats_bound_children(binder, e, e.children.len()) {
        let j = choose|j: int|
            0 <= j < e.children.len() && stats_bound(binder, #[trigger] e.children[j]) == Err::<
                ExprModel,
                _,
            >(y) && forall|k: int|
                0 <= k < j ==> stats_bound(binder, #[trigger] e.children[k]) is Ok;
        if j < i {
            assert(stats_bound(binder, e.children[j]) is Ok);
        }
        if i < j {
            assert(stats_bound(binder, e.children[i]) is Ok);
        }
    }
}

/// Binding the row counts of an expression that is not one itself keeps its kind and its type, and
/// reaches each of its children.
pub proof fn law_row_counts_are_bound_in_every_child<B: StatBinder + ?Sized>(
    binder: &B,
    e: ExprModel,
    r: ExprModel,
)
    requires
        !(e.kind is RowCount),
        rows_bound(binder, e) == Ok::<_, B::Error>(r),
    ensures
        r.kind == e.kind,
        r.ty == e.ty,
        r.children.len() == e.children.len(),
        forall|i: int|
            0 <= i < e.children.len() ==> rows_bound(binder, #[trigger] e.children[i]) == Ok::<
                _,
                B::Error,
            >(r.children[i]),
{
    lemma_rows_children_bound(binder, e, e.children.len());
}

proof fn lemma_rows_children_bound<B: StatBinder + ?Sized>(binder: &B, e: ExprModel, n: nat)
    requires
        n <= e.children.len(),
    ensures
        rows_bound_children(binder, e, n) matches Ok(r) ==> r.len() == n && forall|i: int|
            0 <= i < n ==> rows_bound(binder, #[trigger] e.children[i]) == Ok::<_, B::Error>(r[i]),
    decreases n,
{
    if n > 0 {
        lemma_rows_children_bound(binder, e, (n - 1) as nat);
    }
}

/// Where a statement about all values has to be derived, a failure of the binder to give the count,
/// or to give the row count that it is compared to, is passed on.
pub proof fn law_failures_to_derive_are_passed_on<B: StatBinder + ?Sized>(
    binder: &B,
    input: ExprModel,
    f: AggregateModel,
    ty: ExprType,
    x: B::Error,
)
    requires
        !(input.kind is Cast),
        binder.aggregate(input, f, ty) == Ok::<Option<ExprModel>, B::Error>(None),
        f is AllNan || f is AllNonNan ==> input.ty.kind == TypeKind::Primitive(PType::F16)
            || input.ty.kind == TypeKind::Primitive(PType::F32) || input.ty.kind
            == TypeKind::Primitive(PType::F64),
    ensures
        ({
            let count = ExprType { kind: TypeKind::Primitive(PType::U64), nullable: true };
            let nulls = binder.aggregate(input, AggregateModel::NullCount, count);
            let nans = binder.aggregate(input, AggregateModel::NanCount, count);
            let failed = Err::<Option<ExprModel>, _>(x);
            &&& (f is AllNull || f is AllNonNull) && nulls == failed ==> stat_bound(
                binder,
                input,
                f,
                ty,
            ) == failed
            &&& (f is AllNan || f is AllNonNan) && nans == failed ==> stat_bound(binder, input, f, ty)
                == failed
            &&& f is AllNull && (nulls matches Ok(Some(_))) && binder.row_count() == failed
                ==> stat_bound(binder, input, f, ty) == failed
            &&& f is AllNan && (nans matches Ok(Some(_))) && binder.row_count() == failed
                ==> stat_bound(binder, input, f, ty) == failed
        }),
{
}

} // verus!
