//! What filters and rewrites mean: which rows pass, and what values they give.
//!
//! The laws here speak of every row, and of every engine that evaluates
//! conjunctions, negations and comparisons as SQL does. Of what other expressions
//! give, and of how values are ordered that are not looked into, such as
//! floating-point numbers, nothing is asked.
use vstd::prelude::*;

use crate::error::ErrorView;
use crate::expr::{negated, swapped, ExprView, Operator};
use crate::interval::{
    between, cast, lemma_intersection_valid, lemma_unbounded_intersection, unbounded, IntervalView,
};
use crate::names::{ColumnView, TableReferenceView};
use crate::rewrite::class::{
    lemma_below, lemma_union, lemma_with_column, sorted, union, with_column,
};
use crate::rewrite::predicate::{
    all_conjoined, bound, bounded, class_index, column_compared, common, compared, comparison,
    conjoined, equated, initial, lemma_bound_valid, lemma_class_index, lemma_conjoined_well_formed,
    lemma_initial_well_formed, merged, ranging, with_residual, PredicateView,
};
use crate::scalar::{
    lemma_datum_lt_irreflexive, lemma_datum_lt_transitive, lemma_scalar_lt_total, DataTypeView,
    Datum, ScalarView,
};
use crate::schema::{field_of, first_repeated, schema_columns, FieldView};

verus! {

/// How an engine evaluates expressions: its operators, negation, and every other
/// kind of expression, each by the values of its operands.
pub struct Engine {
    pub binary: spec_fn(Operator, ScalarView, ScalarView) -> ScalarView,
    pub not: spec_fn(ScalarView) -> ScalarView,
    pub other: spec_fn(u64, Seq<ScalarView>) -> ScalarView,
}

/// The value of each column of a row.
pub type Row = spec_fn(ColumnView) -> ScalarView;

/// The value of an expression on a row.
pub open spec fn eval(engine: Engine, row: Row, e: ExprView) -> ScalarView
    decreases e,
{
    match e {
        ExprView::Column(c) => row(c),
        ExprView::Literal(v, _) => v,
        ExprView::BinaryExpr { left, op, right } => (engine.binary)(
            op,
            eval(engine, row, *left),
            eval(engine, row, *right),
        ),
        ExprView::Not(x) => (engine.not)(eval(engine, row, *x)),
        ExprView::Alias { expr, .. } => eval(engine, row, *expr),
        ExprView::Other { id, children } => (engine.other)(id, evals(engine, row, children)),
    }
}

pub open spec fn evals(engine: Engine, row: Row, s: Seq<ExprView>) -> Seq<ScalarView>
    decreases s,
{
    Seq::new(
        s.len(),
        |i: int|
            if 0 <= i < s.len() {
                eval(engine, row, s[i])
            } else {
                arbitrary()
            },
    )
}

/// The value is the boolean `true`: neither `false` nor null.
pub open spec fn is_true(v: ScalarView) -> bool {
    v.value == Some(Datum::Boolean(true))
}

/// The row passes the filter.
pub open spec fn holds(engine: Engine, row: Row, e: ExprView) -> bool {
    is_true(eval(engine, row, e))
}

/// The row passes every filter of a list.
pub open spec fn all_hold(engine: Engine, row: Row, s: Seq<ExprView>) -> bool {
    forall|i: int| 0 <= i < s.len() ==> holds(engine, row, #[trigger] s[i])
}

/// One of the operators that give a range, and two values that compare as it
/// says. A null compares with nothing.
pub open spec fn compares(op: Operator, a: ScalarView, b: ScalarView) -> bool {
    !a.is_null() && !b.is_null() && match op {
        Operator::Eq => a.value == b.value,
        Operator::Lt => a.lt(b),
        Operator::LtEq => a.le(b),
        Operator::Gt => b.lt(a),
        Operator::GtEq => b.le(a),
        _ => false,
    }
}

impl Engine {
    /// The engine evaluates as SQL does: a conjunction is true where both sides
    /// are, values of one type are equal where they are one value, and those of a
    /// type that is looked into compare by their order, an operator says the same
    /// as the swapped one with its sides exchanged, and a negation is true where
    /// the negated operator is.
    pub open spec fn lawful(self) -> bool {
        &&& forall|a: ScalarView, b: ScalarView| #[trigger]
            is_true((self.binary)(Operator::And, a, b)) <==> is_true(a) && is_true(b)
        &&& forall|op: Operator, a: ScalarView, b: ScalarView|
            ranging(op) && a.data_type == b.data_type && (op == Operator::Eq
                || a.data_type.known()) ==> (#[trigger] is_true((self.binary)(op, a, b))
                <==> compares(op, a, b))
        &&& forall|op: Operator, a: ScalarView, b: ScalarView|
            #![trigger (self.binary)(op, a, b), swapped(op)]
            swapped(op) is Some ==> (is_true((self.binary)(op, a, b)) <==> is_true(
                (self.binary)(swapped(op)->0, b, a),
            ))
        &&& forall|op: Operator, a: ScalarView, b: ScalarView|
            #![trigger (self.not)((self.binary)(op, a, b))]
            negated(op) is Some ==> (is_true((self.not)((self.binary)(op, a, b))) <==> is_true(
                (self.binary)(negated(op)->0, a, b),
            ))
    }
}

/// Two values, neither of them null, compare as an operator says.
spec fn compares_or_differs(op: Operator, a: ScalarView, b: ScalarView) -> bool {
    if op == Operator::NotEq {
        !a.is_null() && !b.is_null() && a.value != b.value
    } else {
        compares(op, a, b)
    }
}

/// A truth value, or null.
spec fn truth(value: Option<bool>) -> ScalarView {
    ScalarView {
        data_type: DataTypeView::Boolean,
        value: match value {
            Some(b) => Some(Datum::Boolean(b)),
            None => None,
        },
    }
}

/// An engine that knows conjunctions, negations and comparisons alone.
spec fn least_engine() -> Engine {
    Engine {
        binary: |op: Operator, a: ScalarView, b: ScalarView|
            if op == Operator::And {
                truth(Some(is_true(a) && is_true(b)))
            } else if compares_or_differs(op, a, b) {
                truth(Some(true))
            } else if negated(op) is Some && compares_or_differs(negated(op)->0, a, b) {
                truth(Some(false))
            } else {
                truth(None)
            },
        not: |a: ScalarView|
            match a.value {
                Some(Datum::Boolean(b)) => truth(Some(!b)),
                _ => truth(None),
            },
        other: |id: u64, s: Seq<ScalarView>| truth(None),
    }
}

/// There are engines that evaluate as SQL does.
pub proof fn lawful_engines_exist()
    ensures
        exists|engine: Engine| engine.lawful(),
{
    let engine = least_engine();
    assert forall|op: Operator, a: ScalarView, b: ScalarView|
        #![trigger (engine.not)((engine.binary)(op, a, b))]
        negated(op) is Some implies (is_true((engine.not)((engine.binary)(op, a, b))) <==> is_true(
        (engine.binary)(negated(op)->0, a, b),
    )) by {
        assert(negated(negated(op)->0) == Some(op));
        if !a.is_null() && !b.is_null() {
            let x = a.value->0;
            let y = b.value->0;
            lemma_datum_lt_irreflexive(x);
            if x.lt(y) && y.lt(x) {
                lemma_datum_lt_transitive(x, y, x);
            }
        }
    }
    assert(engine.lawful());
}

/// Each field, and each column that stands for a field, has a value of the type
/// of the field.
pub open spec fn typed(row: Row, schema: Seq<FieldView>) -> bool {
    &&& forall|i: int|
        0 <= i < schema.len() ==> row((#[trigger] schema[i]).column).data_type
            == schema[i].data_type && row(schema[i].column).well_typed()
    &&& forall|c: ColumnView|
        (#[trigger] field_of(schema, c)) is Ok ==> row(c).data_type == field_of(
            schema,
            c,
        )->Ok_0.data_type && row(c).well_typed()
}

/// The value lies in the range. A range of all values says nothing, not even
/// that there is a value.
pub open spec fn member(range: IntervalView, v: ScalarView) -> bool {
    ||| range == unbounded(range.data_type())
    ||| {
        &&& !v.is_null()
        &&& range.lower.is_null() || range.lower.le(v)
        &&& range.upper.is_null() || v.le(range.upper)
    }
}

/// All columns of a class have one value, which is not null.
pub open spec fn class_holds(row: Row, class: Seq<ColumnView>) -> bool {
    class.len() > 1 ==> {
        &&& !row(class[0]).is_null()
        &&& forall|c: ColumnView| #[trigger] class.contains(c) ==> row(c) == row(class[0])
    }
}

/// All columns of a class lie in its range.
pub open spec fn range_holds(row: Row, class: Seq<ColumnView>, range: Option<IntervalView>) -> bool {
    range is Some && forall|c: ColumnView| #[trigger]
        class.contains(c) ==> member(range->0, row(c))
}

/// The row is one that the predicate describes.
pub open spec fn satisfies(engine: Engine, row: Row, p: PredicateView) -> bool {
    &&& forall|i: int| 0 <= i < p.classes.len() ==> class_holds(row, #[trigger] p.classes[i])
    &&& forall|i: int|
        0 <= i < p.classes.len() ==> range_holds(row, #[trigger] p.classes[i], p.ranges[i])
    &&& all_hold(engine, row, p.residuals)
}

/// The columns of a class have values of one type, which is that of its range.
pub open spec fn classes_typed(row: Row, p: PredicateView) -> bool {
    forall|i: int, c: ColumnView|
        0 <= i < p.classes.len() && #[trigger] p.classes[i].contains(c) ==> {
            &&& row(c).well_typed()
            &&& row(c).data_type == row(p.classes[i][0]).data_type
            &&& p.ranges[i] is Some ==> row(c).data_type == p.ranges[i]->0.data_type()
        }
}

// ---------------------------------------------------------------------------
// Ranges
// ---------------------------------------------------------------------------

/// A value lies in two ranges where it lies in what they have in common.
pub proof fn intersection_is_conjunction(a: IntervalView, b: IntervalView, v: ScalarView)
    requires
        a.valid(),
        b.valid(),
        a.data_type() == b.data_type(),
        v.data_type == a.data_type(),
        v.well_typed(),
    ensures
        member(a, v) && member(b, v) <==> (a.intersection(b) is Some && member(
            a.intersection(b)->0,
            v,
        )),
{
    let t = a.data_type();
    if t.known() {
        if !a.lower.is_null() && !b.lower.is_null() {
            lemma_scalar_lt_total(a.lower, b.lower);
        }
        if !a.upper.is_null() && !b.upper.is_null() {
            lemma_scalar_lt_total(a.upper, b.upper);
        }
        lemma_bounds_order(a.lower, b.upper, v);
        lemma_bounds_order(b.lower, a.upper, v);
        lemma_bounds_order(a.lower, b.lower, v);
        lemma_bounds_order(b.lower, a.lower, v);
        lemma_bounds_order(a.upper, b.upper, v);
        lemma_bounds_order(b.upper, a.upper, v);
        lemma_unbounded_intersection(a, b);
        if !v.is_null() {
            if a == unbounded(t) {
                lemma_unbounded_member(a, v);
            }
            if b == unbounded(t) {
                lemma_unbounded_member(b, v);
            }
        }
        if a.intersection(b) is Some {
            lemma_intersection_valid(a, b);
        }
    }
}

/// Two bounds and a value of one type are ordered.
pub proof fn lemma_bounds_order(x: ScalarView, y: ScalarView, v: ScalarView)
    requires
        x.data_type == y.data_type,
        v.data_type == x.data_type,
        x.data_type.known(),
        x.well_typed(),
        y.well_typed(),
        v.well_typed(),
    ensures
        x.le(v) && v.le(y) ==> x.le(y),
        x.le(y) && y.le(v) ==> x.le(v),
        v.le(x) && x.le(y) ==> v.le(y),
        y.lt(x) ==> !x.le(y),
        !x.is_null() && !y.is_null() ==> x.le(y) || y.lt(x),
        !x.is_null() && !v.is_null() ==> x.le(v) || v.lt(x),
        !y.is_null() && !v.is_null() ==> v.le(y) || y.lt(v),
        v.lt(x) ==> !x.le(v),
        y.lt(v) ==> !v.le(y),
        x.le(v) && v.le(x) ==> x == v,
{
    if !x.is_null() && !y.is_null() {
        lemma_scalar_lt_total(x, y);
    }
    if !x.is_null() && !v.is_null() {
        lemma_scalar_lt_total(x, v);
    }
    if !y.is_null() && !v.is_null() {
        lemma_scalar_lt_total(y, v);
    }
    if !x.is_null() && !y.is_null() && !v.is_null() {
        let (a, b, c) = (x.value->0, v.value->0, y.value->0);
        if a.lt(b) && b.lt(c) {
            lemma_datum_lt_transitive(a, b, c);
        }
        if a.lt(c) && c.lt(b) {
            lemma_datum_lt_transitive(a, c, b);
        }
        if b.lt(a) && a.lt(c) {
            lemma_datum_lt_transitive(b, a, c);
        }
    }
}

/// Every value lies in the range of all values of its type, by its bounds too.
proof fn lemma_unbounded_member(a: IntervalView, v: ScalarView)
    requires
        a.valid(),
        a.data_type().known(),
        v.data_type == a.data_type(),
        v.well_typed(),
        !v.is_null(),
        a == unbounded(a.data_type()),
    ensures
        a.lower.is_null() || a.lower.le(v),
        a.upper.is_null() || v.le(a.upper),
{
}

/// The values that compare with another as an operator says are those of the
/// range that the comparison gives.
pub proof fn bound_describes_comparison(op: Operator, value: ScalarView, v: ScalarView)
    requires
        value.data_type.known(),
        value.well_typed(),
        v.data_type == value.data_type,
        v.well_typed(),
        bound(op, value) is Ok,
    ensures
        compares(op, v, value) <==> bound(op, value)->Ok_0 is Some && member(
            bound(op, value)->Ok_0->0,
            v,
        ),
{
    let all = unbounded(value.data_type);
    let point = between(value, value);
    lemma_bound_valid(op, value);
    if !v.is_null() {
        lemma_unbounded_member(all, v);
        if !value.is_null() {
            lemma_bounds_order(value, value, v);
            lemma_scalar_lt_total(v, value);
            lemma_scalar_lt_total(value, v);
            lemma_unbounded_member(all, value);
        }
    }
}

// ---------------------------------------------------------------------------
// Filters
// ---------------------------------------------------------------------------

/// The comparison that a filter is: a binary expression, or one that is negated.
pub open spec fn core_of(e: ExprView) -> Option<(ExprView, Operator, ExprView)> {
    match e {
        ExprView::BinaryExpr { left, op, right } => Some((*left, op, *right)),
        ExprView::Not(inner) => match *inner {
            ExprView::BinaryExpr { left, op, right } => match negated(op) {
                Some(op) => Some((*left, op, *right)),
                None => None,
            },
            _ => None,
        },
        _ => None,
    }
}

/// The engine compares a column with a literal as with the literal cast to the
/// type of the column.
pub open spec fn casts(
    engine: Engine,
    row: Row,
    schema: Seq<FieldView>,
    c: ColumnView,
    op: Operator,
    v: ScalarView,
) -> bool {
    ranging(op) && field_of(schema, c) is Ok && cast(v, field_of(schema, c)->Ok_0.data_type) is Some
        ==> (is_true((engine.binary)(op, row(c), v)) <==> compares(
        op,
        row(c),
        cast(v, field_of(schema, c)->Ok_0.data_type)->0,
    ))
}

/// The engine can evaluate the filter: columns that are tested for equality have
/// values of one type, and a literal is cast to the type of the column that it
/// is compared with.
pub open spec fn comparable(
    engine: Engine,
    row: Row,
    schema: Seq<FieldView>,
    e: ExprView,
) -> bool {
    match core_of(e) {
        Some((ExprView::Column(c), op, ExprView::Literal(v, _))) => casts(
            engine,
            row,
            schema,
            c,
            op,
            v,
        ),
        Some((ExprView::Literal(v, _), op, ExprView::Column(c))) => swapped(op) is Some ==> casts(
            engine,
            row,
            schema,
            c,
            swapped(op)->0,
            v,
        ),
        Some((ExprView::Column(c1), op, ExprView::Column(c2))) => op == Operator::Eq ==> {
            &&& row(c1).data_type == row(c2).data_type
            &&& row(c1).well_typed()
            &&& row(c2).well_typed()
        },
        _ => true,
    }
}

pub open spec fn all_comparable(
    engine: Engine,
    row: Row,
    schema: Seq<FieldView>,
    s: Seq<ExprView>,
) -> bool {
    forall|i: int| 0 <= i < s.len() ==> comparable(engine, row, schema, #[trigger] s[i])
}

/// The filter is true exactly where its core is.
proof fn lemma_core(engine: Engine, row: Row, e: ExprView)
    requires
        engine.lawful(),
        core_of(e) is Some,
    ensures
        ({
            let (left, op, right) = core_of(e)->0;
            holds(engine, row, e) <==> holds(engine, row, comparison(left, op, right))
        }),
{
    let (left, op, right) = core_of(e)->0;
    assert(eval(engine, row, comparison(left, op, right)) == (engine.binary)(
        op,
        eval(engine, row, left),
        eval(engine, row, right),
    ));
    if let ExprView::Not(inner) = e {
        if let ExprView::BinaryExpr { left: l, op: o, right: r } = *inner {
            let a = eval(engine, row, *l);
            let b = eval(engine, row, *r);
            assert(eval(engine, row, *inner) == (engine.binary)(o, a, b));
            assert(eval(engine, row, e) == (engine.not)((engine.binary)(o, a, b)));
        }
    }
}

/// One more residual filter says that it holds.
proof fn lemma_with_residual(engine: Engine, row: Row, p: PredicateView, e: ExprView)
    ensures
        satisfies(engine, row, p) && holds(engine, row, e) ==> satisfies(
            engine,
            row,
            with_residual(p, e),
        ),
        satisfies(engine, row, with_residual(p, e)) ==> satisfies(engine, row, p) && holds(
            engine,
            row,
            e,
        ),
{
    let q = with_residual(p, e);
    if p.residuals.contains(e) {
        let i = choose|i: int| 0 <= i < p.residuals.len() && p.residuals[i] == e;
        assert(all_hold(engine, row, p.residuals) ==> holds(engine, row, p.residuals[i]));
    } else {
        let n = p.residuals.len() as int;
        assert(q.residuals == p.residuals.push(e));
        assert(q.classes == p.classes && q.ranges == p.ranges);
        if satisfies(engine, row, q) {
            assert(all_hold(engine, row, q.residuals));
            assert forall|i: int| 0 <= i < n implies holds(
                engine,
                row,
                #[trigger] p.residuals[i],
            ) by {
                assert(q.residuals[i] == p.residuals[i]);
            }
            assert(holds(engine, row, q.residuals[n]));
        }
        if satisfies(engine, row, p) && holds(engine, row, e) {
            assert forall|i: int| 0 <= i < q.residuals.len() implies holds(
                engine,
                row,
                #[trigger] q.residuals[i],
            ) by {
                if i < n {
                    assert(q.residuals[i] == p.residuals[i]);
                }
            }
        }
    }
}

/// The columns of a class that holds have the value of each of them.
pub proof fn lemma_class_of_one_value(row: Row, class: Seq<ColumnView>, c: ColumnView)
    requires
        class_holds(row, class),
        class.contains(c),
    ensures
        forall|x: ColumnView| #[trigger] class.contains(x) ==> row(x) == row(c),
{
    if class.len() == 1 {
        assert forall|x: ColumnView| #[trigger] class.contains(x) implies row(x) == row(c) by {
            let i = choose|i: int| 0 <= i < class.len() && class[i] == x;
            let j = choose|j: int| 0 <= j < class.len() && class[j] == c;
            assert(i == j);
        }
    }
}

/// A column is compared with a literal: what the predicate says of a row before
/// and after.
proof fn lemma_column_compared(
    engine: Engine,
    row: Row,
    p: PredicateView,
    c: ColumnView,
    op: Operator,
    v: ScalarView,
    m: Option<u64>,
)
    requires
        engine.lawful(),
        p.well_formed(),
        typed(row, p.schema),
        classes_typed(row, p),
        casts(engine, row, p.schema, c, op, v),
    ensures
        ({
            let q = column_compared(p, c, op, v, m);
            let e = comparison(ExprView::Column(c), op, ExprView::Literal(v, m));
            &&& classes_typed(row, q)
            &&& satisfies(engine, row, p) && holds(engine, row, e) <==> satisfies(engine, row, q)
        }),
{
    let q = column_compared(p, c, op, v, m);
    let e = comparison(ExprView::Column(c), op, ExprView::Literal(v, m));
    assert(eval(engine, row, ExprView::Column(c)) == row(c));
    assert(eval(engine, row, ExprView::Literal(v, m)) == v);
    assert(eval(engine, row, e) == (engine.binary)(op, row(c), v));
    match bounded(p, c, op, v) {
        Err(_) => {
            lemma_with_residual(engine, row, p, e);
        },
        Ok(_) => {
            let field = field_of(p.schema, c)->Ok_0;
            let w = cast(v, field.data_type)->0;
            let i = class_index(p.classes, c)->0;
            let new = bound(op, w)->Ok_0;
            let range = common(p.ranges[i], new)->Ok_0;
            lemma_class_index(p.classes, c);
            lemma_bound_valid(op, w);
            assert(ranging(op));
            assert(holds(engine, row, e) <==> compares(op, row(c), w));
            assert(q.ranges == p.ranges.update(i, range));
            assert(q.classes == p.classes);
            if p.ranges[i] is Some && new is Some && range is Some {
                lemma_intersection_valid(p.ranges[i]->0, new->0);
            }
            assert(p.classes[i].contains(c));
            assert forall|k: int, x: ColumnView|
                0 <= k < q.classes.len() && #[trigger] q.classes[k].contains(x) implies {
                &&& row(x).well_typed()
                &&& row(x).data_type == row(q.classes[k][0]).data_type
                &&& q.ranges[k] is Some ==> row(x).data_type == q.ranges[k]->0.data_type()
            } by {
                assert(p.classes[k].contains(x));
            }
            bound_describes_comparison(op, w, row(c));
            if satisfies(engine, row, p) && holds(engine, row, e) {
                assert(range_holds(row, p.classes[i], p.ranges[i]));
                assert(member(p.ranges[i]->0, row(c)));
                intersection_is_conjunction(p.ranges[i]->0, new->0, row(c));
                assert forall|k: int| 0 <= k < q.classes.len() implies range_holds(
                    row,
                    #[trigger] q.classes[k],
                    q.ranges[k],
                ) by {
                    assert(range_holds(row, p.classes[k], p.ranges[k]));
                    if k == i {
                        lemma_class_of_one_value(row, p.classes[i], c);
                    }
                }
            }
            if satisfies(engine, row, q) {
                assert(range_holds(row, q.classes[i], q.ranges[i]));
                assert(member(range->0, row(c)));
                intersection_is_conjunction(p.ranges[i]->0, new->0, row(c));
                assert forall|k: int| 0 <= k < p.classes.len() implies range_holds(
                    row,
                    #[trigger] p.classes[k],
                    p.ranges[k],
                ) by {
                    assert(range_holds(row, q.classes[k], q.ranges[k]));
                    if k == i {
                        lemma_class_of_one_value(row, p.classes[i], c);
                    }
                }
                assert forall|k: int| 0 <= k < p.classes.len() implies class_holds(
                    row,
                    #[trigger] p.classes[k],
                ) by {
                    assert(class_holds(row, q.classes[k]));
                }
            }
        },
    }
}

/// A class with one more column holds where the class does and the new column
/// has its value, which is not null.
proof fn lemma_with_column_holds(row: Row, class: Seq<ColumnView>, c: ColumnView, d: ColumnView)
    requires
        sorted(class),
        class.contains(c),
        !class.contains(d),
    ensures
        class_holds(row, with_column(class, d)) <==> class_holds(row, class) && row(d) == row(c)
            && !row(c).is_null(),
{
    let r = with_column(class, d);
    lemma_with_column(class, d);
    lemma_below(class, d);
    assert(r.len() == class.len() + 1);
    assert(r.contains(r[0]));
    assert(class.contains(class[0]));
    assert(r.contains(c) && r.contains(d) && r.contains(class[0]));
    if class_holds(row, r) {
        assert forall|x: ColumnView| #[trigger] class.contains(x) implies row(x) == row(
            class[0],
        ) by {
            assert(r.contains(x));
        }
    }
    if class_holds(row, class) && row(d) == row(c) && !row(c).is_null() {
        lemma_class_of_one_value(row, class, c);
        assert forall|x: ColumnView| #[trigger] r.contains(x) implies row(x) == row(r[0]) by {
            assert(class.contains(x) || x == d);
            assert(class.contains(r[0]) || r[0] == d);
        }
    }
}

/// Two classes that have no column in common hold as one where each holds and
/// their columns have one value, which is not null.
proof fn lemma_union_holds(
    row: Row,
    a: Seq<ColumnView>,
    b: Seq<ColumnView>,
    c: ColumnView,
    d: ColumnView,
)
    requires
        sorted(a),
        sorted(b),
        a.contains(c),
        b.contains(d),
        !a.contains(d),
    ensures
        class_holds(row, union(a, b)) <==> class_holds(row, a) && class_holds(row, b) && row(c)
            == row(d) && !row(c).is_null(),
{
    let r = union(a, b);
    lemma_union(a, b);
    assert(r.contains(c) && r.contains(d));
    assert(r.len() > 1) by {
        let i = choose|i: int| 0 <= i < r.len() && r[i] == c;
        let j = choose|j: int| 0 <= j < r.len() && r[j] == d;
        assert(i != j);
    }
    assert(r.contains(r[0]));
    assert(a.contains(a[0]) && b.contains(b[0]));
    assert(r.contains(a[0]) && r.contains(b[0]));
    if class_holds(row, r) {
        assert forall|x: ColumnView| #[trigger] a.contains(x) implies row(x) == row(a[0]) by {
            assert(r.contains(x));
        }
        assert forall|x: ColumnView| #[trigger] b.contains(x) implies row(x) == row(b[0]) by {
            assert(r.contains(x));
        }
    }
    if class_holds(row, a) && class_holds(row, b) && row(c) == row(d) && !row(c).is_null() {
        lemma_class_of_one_value(row, a, c);
        lemma_class_of_one_value(row, b, d);
        assert forall|x: ColumnView| #[trigger] r.contains(x) implies row(x) == row(r[0]) by {
            assert(a.contains(x) || b.contains(x));
            assert(a.contains(r[0]) || b.contains(r[0]));
        }
    }
}

/// Two columns are made equal: what the predicate says of a row before and
/// after.
proof fn lemma_equated(
    engine: Engine,
    row: Row,
    p: PredicateView,
    c1: ColumnView,
    c2: ColumnView,
)
    requires
        engine.lawful(),
        p.well_formed(),
        typed(row, p.schema),
        classes_typed(row, p),
        row(c1).data_type == row(c2).data_type,
        row(c1).well_typed(),
        row(c2).well_typed(),
        equated(p, c1, c2) matches Some(Ok(_)),
    ensures
        ({
            let q = equated(p, c1, c2)->0->Ok_0;
            let equal = row(c1) == row(c2) && !row(c1).is_null();
            &&& classes_typed(row, q)
            &&& satisfies(engine, row, p) && equal ==> satisfies(engine, row, q)
            &&& satisfies(engine, row, q) && c1 != c2 ==> satisfies(engine, row, p) && equal
        }),
{
    let q = equated(p, c1, c2)->0->Ok_0;
    let equal = row(c1) == row(c2) && !row(c1).is_null();
    lemma_class_index(p.classes, c1);
    lemma_class_index(p.classes, c2);
    match (class_index(p.classes, c1), class_index(p.classes, c2)) {
        (None, None) => {
            lemma_equated_new(engine, row, p, c1, c2);
        },
        (None, Some(i)) => {
            lemma_equated_extended(engine, row, p, q, i, c2, c1);
        },
        (Some(i), None) => {
            lemma_equated_extended(engine, row, p, q, i, c1, c2);
        },
        (Some(i), Some(j)) => {
            if i == j {
                if satisfies(engine, row, p) && c1 != c2 {
                    assert(class_holds(row, p.classes[i]));
                    let class = p.classes[i];
                    let a = choose|a: int| 0 <= a < class.len() && class[a] == c1;
                    let b = choose|b: int| 0 <= b < class.len() && class[b] == c2;
                    assert(a != b);
                    assert(class.contains(c1) && class.contains(c2));
                }
            } else if i < j {
                lemma_equated_merged(engine, row, p, q, i, j, c1, c2);
            } else {
                lemma_equated_merged(engine, row, p, q, j, i, c2, c1);
            }
        },
    }
}

/// The case of two columns that no class has.
proof fn lemma_equated_new(
    engine: Engine,
    row: Row,
    p: PredicateView,
    c1: ColumnView,
    c2: ColumnView,
)
    requires
        p.well_formed(),
        typed(row, p.schema),
        classes_typed(row, p),
        row(c1).data_type == row(c2).data_type,
        row(c1).well_typed(),
        row(c2).well_typed(),
        equated(p, c1, c2) matches Some(Ok(_)),
        class_index(p.classes, c1) is None,
        class_index(p.classes, c2) is None,
    ensures
        ({
            let q = equated(p, c1, c2)->0->Ok_0;
            let equal = row(c1) == row(c2) && !row(c1).is_null();
            &&& classes_typed(row, q)
            &&& satisfies(engine, row, p) && equal ==> satisfies(engine, row, q)
            &&& satisfies(engine, row, q) && c1 != c2 ==> satisfies(engine, row, p) && equal
        }),
{
    let q = equated(p, c1, c2)->0->Ok_0;
    let class = with_column(seq![c1], c2);
    let n = p.classes.len() as int;
    let t = field_of(p.schema, c1)->Ok_0.data_type;
    lemma_with_column(seq![c1], c2);
    assert(seq![c1].contains(seq![c1][0]));
    assert(class.contains(c1) && class.contains(c2));
    assert(class.contains(class[0]));
    assert forall|x: ColumnView| #[trigger] class.contains(x) implies x == c1 || x == c2 by {
        assert(seq![c1].contains(x) || x == c2);
    }
    assert(q.classes == p.classes.push(class));
    assert(q.ranges == p.ranges.push(Some(unbounded(t))));
    assert forall|k: int, x: ColumnView|
        0 <= k < q.classes.len() && #[trigger] q.classes[k].contains(x) implies {
        &&& row(x).well_typed()
        &&& row(x).data_type == row(q.classes[k][0]).data_type
        &&& q.ranges[k] is Some ==> row(x).data_type == q.ranges[k]->0.data_type()
    } by {
        if k < n {
            assert(p.classes[k].contains(x));
        }
    }
    let equal = row(c1) == row(c2) && !row(c1).is_null();
    if satisfies(engine, row, p) && equal {
        assert forall|k: int| 0 <= k < q.classes.len() implies class_holds(
            row,
            #[trigger] q.classes[k],
        ) && range_holds(row, q.classes[k], q.ranges[k]) by {
            if k < n {
                assert(class_holds(row, p.classes[k]));
                assert(range_holds(row, p.classes[k], p.ranges[k]));
            }
        }
    }
    if satisfies(engine, row, q) && c1 != c2 {
        assert forall|k: int| 0 <= k < p.classes.len() implies class_holds(
            row,
            #[trigger] p.classes[k],
        ) && range_holds(row, p.classes[k], p.ranges[k]) by {
            assert(class_holds(row, q.classes[k]));
            assert(range_holds(row, q.classes[k], q.ranges[k]));
        }
        assert(class_holds(row, q.classes[n]));
        assert(class.len() > 1) by {
            let a = choose|a: int| 0 <= a < class.len() && class[a] == c1;
            let b = choose|b: int| 0 <= b < class.len() && class[b] == c2;
            assert(a != b);
        }
    }
}

/// The case of a column that no class has, and one that a class has.
proof fn lemma_equated_extended(
    engine: Engine,
    row: Row,
    p: PredicateView,
    q: PredicateView,
    i: int,
    c: ColumnView,
    d: ColumnView,
)
    requires
        p.well_formed(),
        classes_typed(row, p),
        row(c).data_type == row(d).data_type,
        row(c).well_typed(),
        row(d).well_typed(),
        0 <= i < p.classes.len(),
        p.classes[i].contains(c),
        class_index(p.classes, d) is None,
        q == (PredicateView { classes: p.classes.update(i, with_column(p.classes[i], d)), ..p }),
    ensures
        ({
            let equal = row(c) == row(d) && !row(c).is_null();
            &&& classes_typed(row, q)
            &&& satisfies(engine, row, p) && equal <==> satisfies(engine, row, q)
        }),
{
    let class = p.classes[i];
    let wider = with_column(class, d);
    lemma_class_index(p.classes, d);
    lemma_with_column(class, d);
    lemma_with_column_holds(row, class, c, d);
    assert(wider.contains(c));
    assert(wider.contains(wider[0]));
    assert(class.contains(class[0]));
    assert(class.contains(wider[0]) || wider[0] == d);
    assert forall|k: int, x: ColumnView|
        0 <= k < q.classes.len() && #[trigger] q.classes[k].contains(x) implies {
        &&& row(x).well_typed()
        &&& row(x).data_type == row(q.classes[k][0]).data_type
        &&& q.ranges[k] is Some ==> row(x).data_type == q.ranges[k]->0.data_type()
    } by {
        if k == i {
            assert(class.contains(x) || x == d);
            assert(p.classes[i].contains(class[0]));
        } else {
            assert(p.classes[k].contains(x));
        }
    }
    let equal = row(c) == row(d) && !row(c).is_null();
    if satisfies(engine, row, p) && equal {
        assert(class_holds(row, p.classes[i]));
        assert(range_holds(row, p.classes[i], p.ranges[i]));
        assert forall|k: int| 0 <= k < q.classes.len() implies class_holds(
            row,
            #[trigger] q.classes[k],
        ) && range_holds(row, q.classes[k], q.ranges[k]) by {
            assert(class_holds(row, p.classes[k]));
            assert(range_holds(row, p.classes[k], p.ranges[k]));
            if k == i {
                lemma_class_of_one_value(row, class, c);
                assert forall|x: ColumnView| #[trigger] wider.contains(x) implies member(
                    p.ranges[i]->0,
                    row(x),
                ) by {
                    assert(class.contains(x) || x == d);
                }
            }
        }
    }
    if satisfies(engine, row, q) {
        assert(class_holds(row, q.classes[i]));
        assert(range_holds(row, q.classes[i], q.ranges[i]));
        assert forall|k: int| 0 <= k < p.classes.len() implies class_holds(
            row,
            #[trigger] p.classes[k],
        ) && range_holds(row, p.classes[k], p.ranges[k]) by {
            assert(class_holds(row, q.classes[k]));
            assert(range_holds(row, q.classes[k], q.ranges[k]));
            if k == i {
                assert forall|x: ColumnView| #[trigger] class.contains(x) implies member(
                    p.ranges[i]->0,
                    row(x),
                ) by {
                    assert(wider.contains(x));
                }
            }
        }
    }
}

/// The case of two columns of different classes.
proof fn lemma_equated_merged(
    engine: Engine,
    row: Row,
    p: PredicateView,
    q: PredicateView,
    i: int,
    j: int,
    c: ColumnView,
    d: ColumnView,
)
    requires
        p.well_formed(),
        classes_typed(row, p),
        row(c).data_type == row(d).data_type,
        0 <= i < j < p.classes.len(),
        p.classes[i].contains(c),
        p.classes[j].contains(d),
        merged(p, i, j) == Some(Ok::<PredicateView, ErrorView>(q)),
    ensures
        ({
            let equal = row(c) == row(d) && !row(c).is_null();
            &&& classes_typed(row, q)
            &&& satisfies(engine, row, p) && equal <==> satisfies(engine, row, q)
        }),
{
    let a = p.classes[i];
    let b = p.classes[j];
    let both = union(a, b);
    let range = common(p.ranges[i], p.ranges[j])->Ok_0;
    lemma_union(a, b);
    assert(!a.contains(d));
    lemma_union_holds(row, a, b, c, d);
    assert(both.contains(c) && both.contains(d));
    assert(both.contains(both[0]));
    assert(a.contains(both[0]) || b.contains(both[0]));
    assert(a.contains(a[0]) && b.contains(b[0]));
    if range is Some {
        lemma_intersection_valid(p.ranges[i]->0, p.ranges[j]->0);
    }
    assert forall|k: int, x: ColumnView|
        0 <= k < q.classes.len() && #[trigger] q.classes[k].contains(x) implies {
        &&& row(x).well_typed()
        &&& row(x).data_type == row(q.classes[k][0]).data_type
        &&& q.ranges[k] is Some ==> row(x).data_type == q.ranges[k]->0.data_type()
    } by {
        if k == i {
            assert(a.contains(x) || b.contains(x));
            assert(p.classes[i].contains(c) && p.classes[j].contains(d));
        } else if k < j {
            assert(p.classes[k].contains(x));
        } else {
            assert(p.classes[k + 1].contains(x));
        }
    }
    let equal = row(c) == row(d) && !row(c).is_null();
    if p.ranges[i] is Some && p.ranges[j] is Some {
        assert(p.classes[i].contains(c));
        intersection_is_conjunction(p.ranges[i]->0, p.ranges[j]->0, row(c));
        assert(p.classes[j].contains(d));
    }
    if satisfies(engine, row, p) && equal {
        assert(class_holds(row, p.classes[i]) && class_holds(row, p.classes[j]));
        assert(range_holds(row, p.classes[i], p.ranges[i]));
        assert(range_holds(row, p.classes[j], p.ranges[j]));
        assert(class_holds(row, both));
        lemma_class_of_one_value(row, both, c);
        assert forall|k: int| 0 <= k < q.classes.len() implies class_holds(
            row,
            #[trigger] q.classes[k],
        ) && range_holds(row, q.classes[k], q.ranges[k]) by {
            let n = if k < j {
                k
            } else {
                k + 1
            };
            assert(class_holds(row, p.classes[n]));
            assert(range_holds(row, p.classes[n], p.ranges[n]));
        }
    }
    if satisfies(engine, row, q) {
        assert(q.classes[i] == both && q.ranges[i] == range);
        assert(class_holds(row, q.classes[i]));
        assert(range_holds(row, q.classes[i], q.ranges[i]));
        lemma_class_of_one_value(row, both, c);
        assert(member(range->0, row(c)));
        assert forall|k: int| 0 <= k < p.classes.len() implies class_holds(
            row,
            #[trigger] p.classes[k],
        ) && range_holds(row, p.classes[k], p.ranges[k]) by {
            if k == i || k == j {
                assert forall|x: ColumnView| #[trigger] p.classes[k].contains(x) implies member(
                    p.ranges[k]->0,
                    row(x),
                ) by {
                    assert(both.contains(x));
                }
            } else {
                let n = if k < j {
                    k
                } else {
                    k - 1
                };
                assert(q.classes[n] == p.classes[k] && q.ranges[n] == p.ranges[k]);
                assert(class_holds(row, q.classes[n]));
                assert(range_holds(row, q.classes[n], q.ranges[n]));
            }
        }
    }
}

/// A filter is added: what the predicate says of a row before and after.
proof fn lemma_conjoined(engine: Engine, row: Row, p: PredicateView, e: ExprView)
    requires
        engine.lawful(),
        p.well_formed(),
        typed(row, p.schema),
        classes_typed(row, p),
        comparable(engine, row, p.schema, e),
        conjoined(p, e) matches Some(Ok(_)),
    ensures
        ({
            let q = conjoined(p, e)->0->Ok_0;
            &&& q.well_formed()
            &&& q.schema == p.schema
            &&& classes_typed(row, q)
            &&& satisfies(engine, row, p) && holds(engine, row, e) <==> satisfies(engine, row, q)
        }),
{
    lemma_conjoined_well_formed(p, e);
    match core_of(e) {
        None => {
            lemma_with_residual(engine, row, p, e);
        },
        Some((left, op, right)) => {
            lemma_core(engine, row, e);
            let core = comparison(left, op, right);
            assert(conjoined(p, e) == compared(p, left, op, right));
            assert(eval(engine, row, core) == (engine.binary)(
                op,
                eval(engine, row, left),
                eval(engine, row, right),
            ));
            match (left, right) {
                (ExprView::Column(c), ExprView::Literal(v, m)) => {
                    lemma_column_compared(engine, row, p, c, op, v, m);
                },
                (ExprView::Literal(v, m), ExprView::Column(c)) => {
                    match swapped(op) {
                        Some(o) => {
                            lemma_column_compared(engine, row, p, c, o, v, m);
                            let exchanged = comparison(right, o, left);
                            assert(eval(engine, row, exchanged) == (engine.binary)(
                                o,
                                eval(engine, row, right),
                                eval(engine, row, left),
                            ));
                        },
                        None => {
                            lemma_with_residual(engine, row, p, core);
                        },
                    }
                },
                (ExprView::Column(c1), ExprView::Column(c2)) => {
                    if op == Operator::Eq && c1 != c2 {
                        lemma_equated(engine, row, p, c1, c2);
                        assert(eval(engine, row, left) == row(c1));
                        assert(eval(engine, row, right) == row(c2));
                        assert(holds(engine, row, core) <==> compares(op, row(c1), row(c2)));
                    } else {
                        lemma_with_residual(engine, row, p, core);
                    }
                },
                _ => {
                    lemma_with_residual(engine, row, p, core);
                },
            }
        },
    }
}

/// A list of filters is added: what the predicate says of a row before and
/// after.
pub proof fn lemma_all_conjoined(engine: Engine, row: Row, p: PredicateView, s: Seq<ExprView>)
    requires
        engine.lawful(),
        p.well_formed(),
        typed(row, p.schema),
        classes_typed(row, p),
        all_comparable(engine, row, p.schema, s),
        all_conjoined(p, s) matches Some(Ok(_)),
        satisfies(engine, row, p),
    ensures
        ({
            let q = all_conjoined(p, s)->0->Ok_0;
            &&& q.well_formed()
            &&& q.schema == p.schema
            &&& classes_typed(row, q)
            &&& all_hold(engine, row, s) <==> satisfies(engine, row, q)
        }),
    decreases s.len(),
{
    if s.len() > 0 {
        let front = s.drop_last();
        assert(all_conjoined(p, front) matches Some(Ok(_)));
        assert(all_comparable(engine, row, p.schema, front)) by {
            assert forall|i: int| 0 <= i < front.len() implies comparable(
                engine,
                row,
                p.schema,
                #[trigger] front[i],
            ) by {
                assert(front[i] == s[i]);
            }
        }
        lemma_all_conjoined(engine, row, p, front);
        let mid = all_conjoined(p, front)->0->Ok_0;
        assert(comparable(engine, row, p.schema, s[s.len() - 1]));
        lemma_conjoined(engine, row, mid, s.last());
        let q = all_conjoined(p, s)->0->Ok_0;
        if all_hold(engine, row, s) {
            assert forall|i: int| 0 <= i < front.len() implies holds(
                engine,
                row,
                #[trigger] front[i],
            ) by {
                assert(front[i] == s[i]);
            }
            assert(holds(engine, row, s[s.len() - 1]));
        }
        if satisfies(engine, row, q) {
            assert(all_hold(engine, row, front));
            assert forall|i: int| 0 <= i < s.len() implies holds(
                engine,
                row,
                #[trigger] s[i],
            ) by {
                if i < front.len() {
                    assert(front[i] == s[i]);
                }
            }
        }
    }
}

/// The predicate of a table without filters says nothing.
pub proof fn lemma_initial(
    engine: Engine,
    row: Row,
    tables: Seq<TableReferenceView>,
    fields: Seq<FieldView>,
)
    requires
        typed(row, fields),
    ensures
        classes_typed(row, initial(tables, fields)),
        satisfies(engine, row, initial(tables, fields)),
{
    let p = initial(tables, fields);
    assert forall|i: int, c: ColumnView|
        0 <= i < p.classes.len() && #[trigger] p.classes[i].contains(c) implies c
        == fields[i].column by {}
}

/// Every row that passes the filters of a table is one that their predicate
/// describes.
pub proof fn filters_imply_predicate(
    engine: Engine,
    row: Row,
    tables: Seq<TableReferenceView>,
    fields: Seq<FieldView>,
    filters: Seq<ExprView>,
)
    requires
        engine.lawful(),
        typed(row, fields),
        first_repeated(schema_columns(fields)) is None,
        all_comparable(engine, row, fields, filters),
        all_conjoined(initial(tables, fields), filters) matches Some(Ok(_)),
        all_hold(engine, row, filters),
    ensures
        satisfies(engine, row, all_conjoined(initial(tables, fields), filters)->0->Ok_0),
{
    lemma_initial_well_formed(tables, fields);
    lemma_initial(engine, row, tables, fields);
    lemma_all_conjoined(engine, row, initial(tables, fields), filters);
}

/// Every row that the predicate of a table's filters describes passes them.
pub proof fn predicate_implies_filters(
    engine: Engine,
    row: Row,
    tables: Seq<TableReferenceView>,
    fields: Seq<FieldView>,
    filters: Seq<ExprView>,
)
    requires
        engine.lawful(),
        typed(row, fields),
        first_repeated(schema_columns(fields)) is None,
        all_comparable(engine, row, fields, filters),
        all_conjoined(initial(tables, fields), filters) matches Some(Ok(_)),
        satisfies(engine, row, all_conjoined(initial(tables, fields), filters)->0->Ok_0),
    ensures
        all_hold(engine, row, filters),
{
    lemma_initial_well_formed(tables, fields);
    lemma_initial(engine, row, tables, fields);
    lemma_all_conjoined(engine, row, initial(tables, fields), filters);
}

} // verus!
