use std::sync::Arc;

use vortex_core::bind::bind_stats;
use vortex_core::bind::count_derivation;
use vortex_core::bind::null_expr;
use vortex_core::bind::StatBinder;
use vortex_core::dtype::DType;
use vortex_core::dtype::Nullability;
use vortex_core::dtype::PType;
use vortex_core::expr::equal;
use vortex_core::expr::literal;
use vortex_core::expr::AggregateFn;
use vortex_core::expr::Expr;
use vortex_core::expr::ExprKind;
use vortex_core::expr::ExprType;
use vortex_core::expr::Literal;
use vortex_core::expr::TypeKind;
use vortex_core::row_count::NotSubstituted;
use vortex_core::row_count::RowCount;

struct TestBinder {
    bind_nan_count: bool,
    row_count: Option<u64>,
    nan_count_as_row_count: bool,
    missing_as_row_count: bool,
    fail: bool,
}

impl TestBinder {
    fn new(bind_nan_count: bool) -> Self {
        Self {
            bind_nan_count,
            row_count: Some(10),
            nan_count_as_row_count: false,
            missing_as_row_count: false,
            fail: false,
        }
    }

    fn without_row_count(mut self) -> Self {
        self.row_count = None;
        self
    }
}

impl StatBinder for TestBinder {
    type Error = String;

    fn bind_aggregate(
        &self,
        _input: &Expr,
        f: &AggregateFn,
        _ty: &ExprType,
    ) -> Result<Option<Expr>, String> {
        if self.fail {
            return Err("broken".to_string());
        }
        if *f == AggregateFn::NanCount && self.bind_nan_count {
            if self.nan_count_as_row_count {
                return Ok(Some(RowCount.new_expr()));
            }
            Ok(Some(col("f_nan_count", PType::U64)))
        } else {
            Ok(None)
        }
    }

    fn bind_row_count(&self) -> Result<Option<Expr>, String> {
        Ok(self.row_count.map(lit_u64))
    }

    fn missing_stat(&self, ty: &ExprType) -> Result<Expr, String> {
        if self.missing_as_row_count && self.row_count.is_some() {
            return Ok(equal(RowCount.new_expr(), null_expr(ty)));
        }
        Ok(null_expr(ty))
    }
}

fn primitive(ptype: PType) -> ExprType {
    ExprType { kind: TypeKind::Primitive(ptype), nullable: false }
}

fn boolean(nullable: bool) -> ExprType {
    ExprType { kind: TypeKind::Bool, nullable }
}

fn other(name: &str, ty: ExprType, children: Vec<Expr>) -> Expr {
    Expr { kind: ExprKind::Other(name.to_string()), ty, children }
}

fn col(name: &str, ptype: PType) -> Expr {
    other(name, primitive(ptype), vec![])
}

fn lit_u64(value: u64) -> Expr {
    literal(Literal::U64(value), primitive(PType::U64))
}

fn stat(f: AggregateFn, ty: ExprType, input: Expr) -> Expr {
    Expr { kind: ExprKind::Stat(f), ty, children: vec![input] }
}

fn nan_count(input: Expr) -> Expr {
    stat(AggregateFn::NanCount, primitive(PType::U64), input)
}

fn all_nan(input: Expr) -> Expr {
    stat(AggregateFn::AllNan, boolean(true), input)
}

fn all_non_nan(input: Expr) -> Expr {
    stat(AggregateFn::AllNonNan, boolean(true), input)
}

fn f() -> Expr {
    col("f", PType::F32)
}

fn null_bool() -> Expr {
    literal(Literal::Null, boolean(true))
}

#[test]
fn row_count_helper_dtype() {
    assert_eq!(
        RowCount.return_dtype(),
        DType::Primitive(PType::U64, Nullability::NonNullable),
    );
    let expr = RowCount.new_expr();
    assert_eq!(expr.ty, primitive(PType::U64));
    assert_eq!(expr.children, vec![]);
    assert_eq!(RowCount.id(), "vortex.row_count");
    assert_eq!(RowCount.arity(), 0);
    assert_eq!(RowCount.fmt_sql(), "row_count()");
    assert_eq!(RowCount.execute(), Err(NotSubstituted));
    assert!(RowCount.is_strict());
    assert!(!RowCount.is_fallible());
}

#[test]
fn nan_count_binds_to_direct_stat_slot() {
    let binder = TestBinder::new(true);
    let bound = bind_stats(nan_count(f()), &binder).unwrap();
    assert_eq!(bound, col("f_nan_count", PType::U64));
}

#[test]
fn all_non_nan_derives_from_nan_count() {
    let binder = TestBinder::new(true);
    let bound = bind_stats(all_non_nan(f()), &binder).unwrap();
    assert_eq!(bound, equal(col("f_nan_count", PType::U64), lit_u64(0)));
}

#[test]
fn all_nan_derives_from_nan_count_and_row_count() {
    let binder = TestBinder::new(true);
    let bound = bind_stats(all_nan(f()), &binder).unwrap();
    assert_eq!(bound, equal(col("f_nan_count", PType::U64), lit_u64(10)));
}

#[test]
fn all_nan_is_missing_without_a_row_count() {
    let binder = TestBinder::new(true).without_row_count();
    let bound = bind_stats(all_nan(f()), &binder).unwrap();
    assert_eq!(bound, null_bool());
}

#[test]
fn all_non_nan_does_not_derive_through_a_cast() {
    let binder = TestBinder::new(true);
    let cast = Expr { kind: ExprKind::Cast, ty: primitive(PType::F64), children: vec![f()] };
    let bound = bind_stats(all_non_nan(cast), &binder).unwrap();
    assert_eq!(bound, null_bool());
}

#[test]
fn all_non_nan_is_missing_without_a_nan_count() {
    let binder = TestBinder::new(false);
    let bound = bind_stats(all_non_nan(f()), &binder).unwrap();
    assert_eq!(bound, null_bool());
}

#[test]
fn missing_stats_bind_to_null_without_reducing() {
    let binder = TestBinder::new(false);
    let lit_bool = |b: bool| literal(Literal::Bool(b), boolean(false));

    let and = other("and", boolean(true), vec![lit_bool(false), all_non_nan(f())]);
    let bound = bind_stats(and, &binder).unwrap();
    assert_eq!(bound, other("and", boolean(true), vec![lit_bool(false), null_bool()]));

    let or = other("or", boolean(true), vec![lit_bool(true), all_non_nan(f())]);
    let bound = bind_stats(or, &binder).unwrap();
    assert_eq!(bound, other("or", boolean(true), vec![lit_bool(true), null_bool()]));
}

#[test]
fn unrelated_expressions_do_not_request_nan_count() {
    let binder = TestBinder { fail: true, ..TestBinder::new(false) };
    let bound = bind_stats(other("is_null", boolean(false), vec![f()]), &binder).unwrap();
    assert_eq!(bound, other("is_null", boolean(false), vec![f()]));
}

#[test]
fn row_counts_are_bound() {
    let binder = TestBinder::new(true);
    let predicate = equal(nan_count(f()), RowCount.new_expr());
    assert_eq!(
        bind_stats(predicate, &binder).unwrap(),
        equal(col("f_nan_count", PType::U64), lit_u64(10))
    );
    let binder = TestBinder::new(true).without_row_count();
    assert_eq!(
        bind_stats(RowCount.new_expr(), &binder).unwrap(),
        literal(Literal::Null, ExprType { nullable: true, ..primitive(PType::U64) })
    );
}

#[test]
fn row_counts_that_a_binder_emits_are_bound() {
    let binder = TestBinder { nan_count_as_row_count: true, ..TestBinder::new(true) };
    assert_eq!(bind_stats(nan_count(f()), &binder).unwrap(), lit_u64(10));
    assert_eq!(
        bind_stats(all_non_nan(f()), &binder).unwrap(),
        equal(lit_u64(10), lit_u64(0))
    );
}

#[test]
fn row_counts_in_a_stand_in_are_bound() {
    let binder = TestBinder { missing_as_row_count: true, ..TestBinder::new(false) };
    assert_eq!(
        bind_stats(all_nan(f()), &binder).unwrap(),
        equal(lit_u64(10), null_bool())
    );
    let binder = binder.without_row_count();
    assert_eq!(bind_stats(all_nan(f()), &binder).unwrap(), null_bool());
}

#[test]
fn nan_statements_follow_for_floats_only() {
    let binder = TestBinder::new(true);
    let bound = bind_stats(all_non_nan(col("i", PType::I32)), &binder).unwrap();
    assert_eq!(bound, null_bool());
}

#[test]
fn the_first_error_comes_out() {
    let binder = TestBinder { fail: true, ..TestBinder::new(true) };
    let predicate = other("and", boolean(true), vec![lit_u64(1), all_nan(f())]);
    assert_eq!(bind_stats(predicate, &binder), Err("broken".to_string()));
}

#[test]
fn nulls_keep_their_type() {
    let text = Arc::new(DType::Utf8(Nullability::NonNullable));
    let ty = |nullable| ExprType { kind: TypeKind::Other(Arc::clone(&text)), nullable };
    assert_eq!(null_expr(&ty(false)), literal(Literal::Null, ty(true)));
    assert_eq!(null_expr(&boolean(true)), null_bool());
}

#[test]
fn counts_behind_statements() {
    assert_eq!(
        count_derivation(&AggregateFn::AllNull),
        Some((AggregateFn::NullCount, true))
    );
    assert_eq!(
        count_derivation(&AggregateFn::AllNonNull),
        Some((AggregateFn::NullCount, false))
    );
    assert_eq!(
        count_derivation(&AggregateFn::AllNan),
        Some((AggregateFn::NanCount, true))
    );
    assert_eq!(
        count_derivation(&AggregateFn::AllNonNan),
        Some((AggregateFn::NanCount, false))
    );
    assert_eq!(count_derivation(&AggregateFn::NanCount), None);
    assert_eq!(count_derivation(&AggregateFn::Other("sum".to_string())), None);
}
