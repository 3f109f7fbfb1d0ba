//! The filters of a select-project plan: which columns are equal, in which
//! range each of them lies, and what else holds.
use vstd::prelude::*;

use crate::error::{Error, ErrorView};
use crate::expr::{all_conjuncts, exprs_view, negated, swapped, Expr, ExprView, Operator};
use crate::interval::{
    between, can_step_down, can_step_up, cast, cast_to, greater, lemma_greater_valid,
    lemma_intersection_valid, lemma_unbounded_intersection, range_view, satisfy_greater, steps_down,
    steps_up, unbounded, Interval, IntervalView,
};
use crate::names::{references_view, Column, ColumnView, TableReference, TableReferenceView};
use crate::plan::{
    all_outputs, collect, flats, flatten_exprs, flatten_scan_filters, flattened, scan_scope,
    scope_of, LogicalPlan, PlanNode, PlanNodeView, PlanView,
};
use crate::rewrite::class::{
    classes_view, difference, lemma_union, lemma_with_column, sorted, subset, union, with_column,
    ColumnEquivalenceClass,
};
use crate::scalar::{lemma_scalar_well_typed, null_of, DataTypeView, Datum, ScalarValue, ScalarView};
use crate::schema::{
    field_of, first_repeated, lemma_not_repeated, qualified, schema_columns, DFSchema, FieldView,
};

verus! {

/// The parts of a [`Predicate`].
pub struct PredicateView {
    /// The fields of the table, with all the columns that filters may name.
    pub schema: Seq<FieldView>,
    /// The columns that are equal to each other, each set in order.
    pub classes: Seq<Seq<ColumnView>>,
    /// For each class the range of its columns, or `None` where no value is
    /// left.
    pub ranges: Seq<Option<IntervalView>>,
    /// The filters that say neither that columns are equal nor in which range
    /// a column lies.
    pub residuals: Seq<ExprView>,
    /// The tables of the plan.
    pub tables: Seq<TableReferenceView>,
}

/// The first of the classes that has a column.
pub open spec fn class_index(classes: Seq<Seq<ColumnView>>, c: ColumnView) -> Option<int>
    decreases classes.len(),
{
    if classes.len() == 0 {
        None
    } else {
        match class_index(classes.drop_last(), c) {
            Some(i) => Some(i),
            None => if classes.last().contains(c) {
                Some(classes.len() - 1)
            } else {
                None
            },
        }
    }
}

/// No column is in two classes, and each class has a column and is in order.
pub open spec fn partition(classes: Seq<Seq<ColumnView>>) -> bool {
    &&& forall|i: int| 0 <= i < classes.len() ==> sorted(#[trigger] classes[i])
    &&& forall|i: int| 0 <= i < classes.len() ==> (#[trigger] classes[i]).len() > 0
    &&& forall|i: int, j: int, c: ColumnView|
        0 <= i < classes.len() && 0 <= j < classes.len() && #[trigger] classes[i].contains(c)
            && #[trigger] classes[j].contains(c) ==> i == j
}

impl PredicateView {
    /// What every operation on a predicate keeps.
    pub open spec fn well_formed(self) -> bool {
        &&& partition(self.classes)
        &&& self.ranges.len() == self.classes.len()
        &&& forall|i: int|
            0 <= i < self.ranges.len() && (#[trigger] self.ranges[i]) is Some
                ==> self.ranges[i]->0.valid()
    }
}

// ---------------------------------------------------------------------------
// Adding filters
// ---------------------------------------------------------------------------

/// The predicate where two columns are equal.
///
/// Two classes become one in the place of the first, and the range of the new
/// class is what their ranges have in common; ranges of different types fail.
/// It is `None` where neither column is in a class and the first stands for no
/// field.
pub open spec fn equated(p: PredicateView, c1: ColumnView, c2: ColumnView) -> Option<
    Result<PredicateView, ErrorView>,
> {
    match (class_index(p.classes, c1), class_index(p.classes, c2)) {
        (None, None) => match field_of(p.schema, c1) {
            Ok(field) => Some(
                Ok(
                    PredicateView {
                        classes: p.classes.push(with_column(seq![c1], c2)),
                        ranges: p.ranges.push(Some(unbounded(field.data_type))),
                        ..p
                    },
                ),
            ),
            Err(_) => None,
        },
        (None, Some(i)) => Some(
            Ok(
                PredicateView {
                    classes: p.classes.update(i, with_column(p.classes[i], c1)),
                    ..p
                },
            ),
        ),
        (Some(i), None) => Some(
            Ok(
                PredicateView {
                    classes: p.classes.update(i, with_column(p.classes[i], c2)),
                    ..p
                },
            ),
        ),
        (Some(i), Some(j)) => if i == j {
            Some(Ok(p))
        } else if i < j {
            merged(p, i, j)
        } else {
            merged(p, j, i)
        },
    }
}

/// The predicate where two classes, the first before the second, are one.
pub open spec fn merged(p: PredicateView, i: int, j: int) -> Option<
    Result<PredicateView, ErrorView>,
> {
    match common(p.ranges[i], p.ranges[j]) {
        Ok(range) => Some(
            Ok(
                PredicateView {
                    classes: p.classes.update(i, union(p.classes[i], p.classes[j])).remove(j),
                    ranges: p.ranges.update(i, range).remove(j),
                    ..p
                },
            ),
        ),
        Err(e) => Some(Err(e)),
    }
}

/// What two ranges have in common.
pub open spec fn common(a: Option<IntervalView>, b: Option<IntervalView>) -> Result<
    Option<IntervalView>,
    ErrorView,
> {
    match (a, b) {
        (Some(x), Some(y)) => if x.data_type() == y.data_type() {
            Ok(x.intersection(y))
        } else {
            Err(ErrorView::IntervalTypes)
        },
        _ => Ok(None),
    }
}

/// The operator gives a range.
pub open spec fn ranging(op: Operator) -> bool {
    op == Operator::Eq || op == Operator::Lt || op == Operator::LtEq || op == Operator::Gt || op
        == Operator::GtEq
}

/// The range, where it is not one of all values.
pub open spec fn bounding(range: IntervalView) -> Result<Option<IntervalView>, ErrorView> {
    if range == unbounded(range.data_type()) {
        Err(ErrorView::NoBound)
    } else {
        Ok(Some(range))
    }
}

/// The range of the values that compare with a value as an operator says;
/// `None` where there is no such value, as with a null. It fails where every
/// value of the type compares so, which the range of all values would not say of
/// a null, and where a strict comparison has no next value to start from.
pub open spec fn bound(op: Operator, value: ScalarView) -> Result<Option<IntervalView>, ErrorView> {
    let null = null_of(value.data_type);
    let all = unbounded(value.data_type);
    if !ranging(op) {
        Err(ErrorView::UnsupportedOperator)
    } else if value.is_null() {
        Ok(None)
    } else {
        match op {
            Operator::Eq => bounding(between(value, value)),
            Operator::LtEq => bounding(between(null, value)),
            Operator::GtEq => bounding(between(value, null)),
            Operator::Lt => if !steps_down(value) {
                Err(ErrorView::StrictBound)
            } else {
                match greater(between(value, value), all) {
                    Some((_, range)) => if range.upper == value {
                        Err(ErrorView::StrictBound)
                    } else if range == all {
                        Ok(None)
                    } else {
                        Ok(Some(range))
                    },
                    None => Ok(None),
                }
            },
            _ => if !steps_up(value) {
                Err(ErrorView::StrictBound)
            } else {
                match greater(all, between(value, value)) {
                    Some((range, _)) => if range.lower == value {
                        Err(ErrorView::StrictBound)
                    } else if range == all {
                        Ok(None)
                    } else {
                        Ok(Some(range))
                    },
                    None => Ok(None),
                }
            },
        }
    }
}

/// The predicate where a column compares with a value of its type as an operator
/// says. A range without values stays so.
pub open spec fn confined(p: PredicateView, c: ColumnView, op: Operator, value: ScalarView) -> Result<
    PredicateView,
    ErrorView,
> {
    match class_index(p.classes, c) {
        None => Err(ErrorView::NoEquivalenceClass(c)),
        Some(i) => match bound(op, value) {
            Err(e) => Err(e),
            Ok(new) => match common(p.ranges[i], new) {
                Err(e) => Err(e),
                Ok(range) => Ok(PredicateView { ranges: p.ranges.update(i, range), ..p }),
            },
        },
    }
}

/// The predicate where a column compares with a value as an operator says. The
/// value is cast to the type of the column.
pub open spec fn bounded(p: PredicateView, c: ColumnView, op: Operator, value: ScalarView) -> Result<
    PredicateView,
    ErrorView,
> {
    match field_of(p.schema, c) {
        Err(e) => Err(e),
        Ok(field) => match cast(value, field.data_type) {
            None => Err(ErrorView::Cast),
            Some(v) => confined(p, c, op, v),
        },
    }
}

/// The predicate with one more residual filter.
pub open spec fn with_residual(p: PredicateView, e: ExprView) -> PredicateView {
    if p.residuals.contains(e) {
        p
    } else {
        PredicateView { residuals: p.residuals.push(e), ..p }
    }
}

/// A comparison.
pub open spec fn comparison(left: ExprView, op: Operator, right: ExprView) -> ExprView {
    ExprView::BinaryExpr { left: Box::new(left), op, right: Box::new(right) }
}

/// The predicate where a column is compared with a literal. What gives no
/// range stays as it is.
pub open spec fn column_compared(
    p: PredicateView,
    c: ColumnView,
    op: Operator,
    v: ScalarView,
    metadata: Option<u64>,
) -> PredicateView {
    match bounded(p, c, op, v) {
        Ok(q) => q,
        Err(_) => with_residual(
            p,
            comparison(ExprView::Column(c), op, ExprView::Literal(v, metadata)),
        ),
    }
}

/// The predicate where a binary expression holds. That a column is equal to
/// itself says that it is not null, and stays as it is.
pub open spec fn compared(p: PredicateView, left: ExprView, op: Operator, right: ExprView) -> Option<
    Result<PredicateView, ErrorView>,
> {
    match (left, right) {
        (ExprView::Column(c), ExprView::Literal(v, m)) => Some(
            Ok(column_compared(p, c, op, v, m)),
        ),
        (ExprView::Literal(v, m), ExprView::Column(c)) => match swapped(op) {
            Some(op) => Some(Ok(column_compared(p, c, op, v, m))),
            None => Some(Ok(with_residual(p, comparison(left, op, right)))),
        },
        (ExprView::Column(c1), ExprView::Column(c2)) => if op == Operator::Eq && c1 != c2 {
            equated(p, c1, c2)
        } else {
            Some(Ok(with_residual(p, comparison(left, op, right))))
        },
        _ => Some(Ok(with_residual(p, comparison(left, op, right)))),
    }
}

/// The predicate where an expression holds.
pub open spec fn conjoined(p: PredicateView, e: ExprView) -> Option<
    Result<PredicateView, ErrorView>,
> {
    match e {
        ExprView::BinaryExpr { left, op, right } => compared(p, *left, op, *right),
        ExprView::Not(inner) => match *inner {
            ExprView::BinaryExpr { left, op, right } => match negated(op) {
                Some(op) => compared(p, *left, op, *right),
                None => Some(Ok(with_residual(p, e))),
            },
            _ => Some(Ok(with_residual(p, e))),
        },
        _ => Some(Ok(with_residual(p, e))),
    }
}

/// The predicate where each expression of a list holds.
pub open spec fn all_conjoined(p: PredicateView, s: Seq<ExprView>) -> Option<
    Result<PredicateView, ErrorView>,
>
    decreases s.len(),
{
    if s.len() == 0 {
        Some(Ok(p))
    } else {
        match all_conjoined(p, s.drop_last()) {
            Some(Ok(q)) => conjoined(q, s.last()),
            failed => failed,
        }
    }
}

// ---------------------------------------------------------------------------
// Predicates of plans
// ---------------------------------------------------------------------------

/// The tables, the fields and the filters of a plan.
pub struct CollectedView {
    pub tables: Seq<TableReferenceView>,
    pub fields: Seq<FieldView>,
    pub filters: Seq<ExprView>,
}

/// The expression without aliases, which do not bear on a filter.
pub open spec fn unaliased(e: ExprView) -> ExprView {
    normal(Seq::empty(), e)
}

/// What is collected from a plan of filters and projections over one table,
/// from the root down. Each filter is brought to speak of the table: its columns
/// are replaced by what they stand for. A plan whose table has a filter on a
/// column of another table is not supported. It is `None` where a column of
/// another filter stands for nothing, or a node has another number of inputs than
/// its kind has.
pub open spec fn collected(plan: PlanView) -> Option<Result<CollectedView, ErrorView>>
    decreases plan,
{
    match plan.node {
        PlanNodeView::TableScan { table_name, source, filters, .. } => {
            let fields = qualified(table_name, source);
            match first_repeated(schema_columns(fields)) {
                Some(c) => Some(Err(ErrorView::DuplicateField(c))),
                None => if plan.inputs.len() == 0 {
                    match collect(flats(filters, scan_scope(fields))) {
                        Some(Ok(filters)) => Some(
                            Ok(CollectedView { tables: seq![table_name], fields, filters }),
                        ),
                        Some(Err(e)) => Some(Err(e)),
                        None => Some(Err(ErrorView::UnsupportedPlan(plan.display))),
                    }
                } else {
                    None
                },
            }
        },
        PlanNodeView::Filter { predicate } => if plan.inputs.len() == 1 {
            match collected(plan.inputs[0]) {
                Some(Ok(rest)) => match flattened(
                    seq![predicate],
                    plan,
                    collect(all_outputs(plan.inputs)),
                ) {
                    Some(Ok(flat)) => Some(
                        Ok(
                            CollectedView {
                                filters: seq![unaliased(flat[0])] + rest.filters,
                                ..rest
                            },
                        ),
                    ),
                    Some(Err(e)) => Some(Err(e)),
                    None => None,
                },
                failed => failed,
            }
        } else {
            None
        },
        PlanNodeView::Projection { .. } => if plan.inputs.len() == 1 {
            collected(plan.inputs[0])
        } else {
            None
        },
        PlanNodeView::Join { .. } => Some(Err(ErrorView::JoinNotSupported)),
        _ => Some(Err(ErrorView::UnsupportedPlan(plan.display))),
    }
}

/// The predicate of a table without filters: each column is equal to itself
/// alone, and has every value of its type.
pub open spec fn initial(tables: Seq<TableReferenceView>, fields: Seq<FieldView>) -> PredicateView {
    PredicateView {
        schema: fields,
        classes: Seq::new(fields.len(), |i: int| seq![fields[i].column]),
        ranges: Seq::new(fields.len(), |i: int| Some(unbounded(fields[i].data_type))),
        residuals: Seq::empty(),
        tables,
    }
}

/// The predicate of a plan.
pub open spec fn predicate_of(plan: PlanView) -> Option<Result<PredicateView, ErrorView>> {
    match collected(plan) {
        Some(Ok(c)) => all_conjoined(initial(c.tables, c.fields), all_conjuncts(c.filters)),
        Some(Err(e)) => Some(Err(e)),
        None => None,
    }
}

// ---------------------------------------------------------------------------
// Normal expressions
// ---------------------------------------------------------------------------

/// The first column of the class of a column.
pub open spec fn representative(classes: Seq<Seq<ColumnView>>, c: ColumnView) -> ColumnView {
    match class_index(classes, c) {
        Some(i) => classes[i][0],
        None => c,
    }
}

/// The expression without aliases, with each column replaced by the first of
/// its class.
pub open spec fn normal(classes: Seq<Seq<ColumnView>>, e: ExprView) -> ExprView
    decreases e,
{
    match e {
        ExprView::Column(c) => ExprView::Column(representative(classes, c)),
        ExprView::Literal(_, _) => e,
        ExprView::BinaryExpr { left, op, right } => ExprView::BinaryExpr {
            left: Box::new(normal(classes, *left)),
            op,
            right: Box::new(normal(classes, *right)),
        },
        ExprView::Not(x) => ExprView::Not(Box::new(normal(classes, *x))),
        ExprView::Alias { expr, .. } => normal(classes, *expr),
        ExprView::Other { id, children } => ExprView::Other {
            id,
            children: all_normal(classes, children),
        },
    }
}

pub open spec fn all_normal(classes: Seq<Seq<ColumnView>>, s: Seq<ExprView>) -> Seq<ExprView>
    decreases s,
{
    Seq::new(
        s.len(),
        |i: int|
            if 0 <= i < s.len() {
                normal(classes, s[i])
            } else {
                arbitrary()
            },
    )
}

// ---------------------------------------------------------------------------
// Subsumption
// ---------------------------------------------------------------------------

/// The first place in a list of a column that is in one of the classes.
pub open spec fn first_known(classes: Seq<Seq<ColumnView>>, s: Seq<ColumnView>) -> Option<int>
    decreases s.len(),
{
    if s.len() == 0 {
        None
    } else {
        match first_known(classes, s.drop_last()) {
            Some(i) => Some(i),
            None => if class_index(classes, s.last()) is Some {
                Some(s.len() - 1)
            } else {
                None
            },
        }
    }
}

/// The filters that a column is equal to each of some others.
pub open spec fn equalities(c: ColumnView, others: Seq<ColumnView>) -> Seq<ExprView> {
    Seq::new(
        others.len(),
        |i: int| comparison(ExprView::Column(c), Operator::Eq, ExprView::Column(others[i])),
    )
}

/// The equalities that the classes have beyond one class of another predicate;
/// `None` where they do not have all that the other class says. A class of one
/// column, which the classes do not have, says nothing.
pub open spec fn class_filters(classes: Seq<Seq<ColumnView>>, other: Seq<ColumnView>) -> Option<
    Seq<ExprView>,
> {
    match first_known(classes, other) {
        None => if other.len() == 1 {
            Some(Seq::empty())
        } else {
            None
        },
        Some(k) => {
            let class = classes[class_index(classes, other[k])->0];
            if subset(other, class) {
                Some(equalities(other[k], difference(class, other)))
            } else {
                None
            }
        },
    }
}

/// The equalities that the classes have beyond those of another predicate;
/// `None` where they do not have all of those.
pub open spec fn equality_filters(
    classes: Seq<Seq<ColumnView>>,
    others: Seq<Seq<ColumnView>>,
) -> Option<Seq<ExprView>>
    decreases others.len(),
{
    if others.len() == 0 {
        Some(Seq::empty())
    } else {
        match equality_filters(classes, others.drop_last()) {
            Some(front) => match class_filters(classes, others.last()) {
                Some(more) => Some(front + more),
                None => None,
            },
            None => None,
        }
    }
}

/// The class of another predicate, with a range that is not empty, to which the
/// first such column of a list belongs.
pub open spec fn ranged_class(other: PredicateView, s: Seq<ColumnView>) -> Option<int>
    decreases s.len(),
{
    if s.len() == 0 {
        None
    } else {
        match ranged_class(other, s.drop_last()) {
            Some(i) => Some(i),
            None => match class_index(other.classes, s.last()) {
                Some(i) => if other.ranges[i] is Some {
                    Some(i)
                } else {
                    None
                },
                None => None,
            },
        }
    }
}

/// The literal `false`.
pub open spec fn never() -> ExprView {
    ExprView::Literal(
        ScalarView { data_type: DataTypeView::Boolean, value: Some(Datum::Boolean(false)) },
        None,
    )
}

/// The filters that a column lies in a range.
pub open spec fn within(c: ColumnView, range: IntervalView) -> Seq<ExprView> {
    let column = ExprView::Column(c);
    let lower = ExprView::Literal(range.lower, None);
    let upper = ExprView::Literal(range.upper, None);
    if range.is_point() {
        seq![comparison(column, Operator::Eq, lower)]
    } else {
        (if range.lower.is_null() {
            Seq::empty()
        } else {
            seq![comparison(column, Operator::GtEq, lower)]
        }) + (if range.upper.is_null() {
            Seq::empty()
        } else {
            seq![comparison(column, Operator::LtEq, upper)]
        })
    }
}

/// The second range has no value that the first does not have.
pub open spec fn encloses(outer: Option<IntervalView>, inner: IntervalView) -> bool {
    &&& outer is Some
    &&& outer->0.data_type() == inner.data_type()
    &&& outer->0.contains(inner)
}

/// Every class of another predicate that has one of the columns has a range that
/// encloses the given one.
pub open spec fn all_enclose(
    other: PredicateView,
    columns: Seq<ColumnView>,
    range: IntervalView,
) -> bool {
    forall|k: int|
        0 <= k < columns.len() ==> (class_index(other.classes, #[trigger] columns[k]) matches Some(
            j,
        ) ==> encloses(other.ranges[j], range))
}

/// The filters that a class with a range adds to another predicate; `None`
/// where the other predicate says more of the range. One column of the other
/// predicate stands for the class.
pub open spec fn range_filter(
    class: Seq<ColumnView>,
    range: Option<IntervalView>,
    other: PredicateView,
) -> Result<Option<Seq<ExprView>>, ErrorView> {
    match range {
        None => Ok(Some(seq![never()])),
        Some(range) => match ranged_class(other, class) {
            None => Ok(None),
            Some(i) => {
                let outer = other.ranges[i]->0;
                if outer.data_type() != range.data_type() {
                    Err(ErrorView::IntervalTypes)
                } else if !all_enclose(other, class, range) {
                    Ok(None)
                } else if range.contains(outer) {
                    Ok(Some(Seq::empty()))
                } else {
                    Ok(Some(within(other.classes[i][0], range)))
                }
            },
        },
    }
}

/// The filters that the ranges of the first classes add to another predicate;
/// `None` where the other predicate says more of one of them.
pub open spec fn range_filters(p: PredicateView, other: PredicateView, n: nat) -> Result<
    Option<Seq<ExprView>>,
    ErrorView,
>
    decreases n,
{
    if n == 0 {
        Ok(Some(Seq::empty()))
    } else {
        match range_filters(p, other, (n - 1) as nat) {
            Ok(Some(front)) => match range_filter(p.classes[n - 1], p.ranges[n - 1], other) {
                Ok(Some(more)) => Ok(Some(front + more)),
                failed => failed,
            },
            failed => failed,
        }
    }
}

/// The range is one of all values.
pub open spec fn says_nothing(range: Option<IntervalView>) -> bool {
    range is Some && range->0 == unbounded(range->0.data_type())
}

/// The classes of another predicate that have none of the columns of this one
/// have ranges of all values.
pub open spec fn unknown_say_nothing(p: PredicateView, other: PredicateView) -> bool {
    forall|j: int|
        0 <= j < other.classes.len() && first_known(p.classes, #[trigger] other.classes[j]) is None
            ==> says_nothing(other.ranges[j])
}

/// Some range of the predicate is empty, so that no row is described by it.
pub open spec fn describes_nothing(p: PredicateView) -> bool {
    exists|i: int| 0 <= i < p.ranges.len() && (#[trigger] p.ranges[i]) is None
}

/// The filters that the ranges of a predicate add to another; `None` where the
/// other predicate says more of one of them, or of a column that the first does
/// not have. Where the first describes no row, what the other says of such a
/// column does not matter.
pub open spec fn all_range_filters(p: PredicateView, other: PredicateView) -> Result<
    Option<Seq<ExprView>>,
    ErrorView,
> {
    match range_filters(p, other, p.classes.len()) {
        Ok(Some(filters)) => if describes_nothing(p) || unknown_say_nothing(p, other) {
            Ok(Some(filters))
        } else {
            Ok(None)
        },
        failed => failed,
    }
}

/// The expressions of the first list that the second does not have.
pub open spec fn missing(a: Seq<ExprView>, b: Seq<ExprView>) -> Seq<ExprView>
    decreases a.len(),
{
    if a.len() == 0 {
        Seq::empty()
    } else if b.contains(a.last()) {
        missing(a.drop_last(), b)
    } else {
        missing(a.drop_last(), b).push(a.last())
    }
}

/// The residual filters that a predicate has beyond those of another; `None`
/// where it does not have all of those.
pub open spec fn residual_filters(p: PredicateView, other: PredicateView) -> Option<
    Seq<ExprView>,
> {
    let mine = all_normal(p.classes, p.residuals);
    let theirs = all_normal(p.classes, other.residuals);
    if forall|i: int| 0 <= i < theirs.len() ==> mine.contains(#[trigger] theirs[i]) {
        Some(missing(mine, theirs))
    } else {
        None
    }
}

// ---------------------------------------------------------------------------
// The invariant
// ---------------------------------------------------------------------------

/// A class that is found has the column; where none is found, none has it.
pub proof fn lemma_class_index(classes: Seq<Seq<ColumnView>>, c: ColumnView)
    ensures
        match class_index(classes, c) {
            Some(i) => 0 <= i < classes.len() && classes[i].contains(c),
            None => forall|i: int| 0 <= i < classes.len() ==> !(#[trigger] classes[i]).contains(c),
        },
    decreases classes.len(),
{
    if classes.len() > 0 {
        let front = classes.drop_last();
        lemma_class_index(front, c);
        if class_index(classes, c) is None {
            assert forall|i: int| 0 <= i < classes.len() implies !(
            #[trigger] classes[i]).contains(c) by {
                if i < front.len() {
                    assert(front[i] == classes[i]);
                }
            }
        }
    }
}

/// In a partition, a column is found in every class that has it.
pub proof fn lemma_class_index_unique(classes: Seq<Seq<ColumnView>>, c: ColumnView, i: int)
    requires
        partition(classes),
        0 <= i < classes.len(),
        classes[i].contains(c),
    ensures
        class_index(classes, c) == Some(i),
{
    lemma_class_index(classes, c);
}

/// The intervals that comparisons give are valid.
pub proof fn lemma_bound_valid(op: Operator, value: ScalarView)
    requires
        value.data_type.known(),
        value.well_typed(),
    ensures
        between(value, value).valid(),
        unbounded(value.data_type).valid(),
        between(null_of(value.data_type), value).valid(),
        between(value, null_of(value.data_type)).valid(),
        bound(op, value) matches Ok(Some(range)) ==> range.valid() && range.data_type()
            == value.data_type && range != unbounded(value.data_type),
{
    let point = between(value, value);
    let all = unbounded(value.data_type);
    if steps_down(value) && greater(point, all) is Some {
        lemma_greater_valid(point, all);
    }
    if steps_up(value) && greater(all, point) is Some {
        lemma_greater_valid(all, point);
    }
}

/// Comparing a column with a value of its type keeps the invariant.
pub proof fn lemma_confined_well_formed(
    p: PredicateView,
    c: ColumnView,
    op: Operator,
    value: ScalarView,
)
    requires
        p.well_formed(),
        value.data_type.known(),
        value.well_typed(),
    ensures
        confined(p, c, op, value) matches Ok(q) ==> q.well_formed(),
{
    if let Ok(q) = confined(p, c, op, value) {
        let i = class_index(p.classes, c)->0;
        lemma_class_index(p.classes, c);
        lemma_bound_valid(op, value);
        let new = bound(op, value)->Ok_0;
        if p.ranges[i] is Some && new is Some && common(p.ranges[i], new)->Ok_0 is Some {
            lemma_intersection_valid(p.ranges[i]->0, new->0);
        }
        assert forall|k: int|
            0 <= k < q.ranges.len() && (#[trigger] q.ranges[k]) is Some implies q.ranges[k]->0.valid() by {
            if k != i {
                assert(q.ranges[k] == p.ranges[k]);
            }
        }
    }
}

/// Comparing a column with a value keeps the invariant.
pub proof fn lemma_bounded_well_formed(p: PredicateView, c: ColumnView, op: Operator, v: ScalarView)
    requires
        p.well_formed(),
    ensures
        bounded(p, c, op, v) matches Ok(q) ==> q.well_formed(),
{
    if let Ok(q) = bounded(p, c, op, v) {
        let field = field_of(p.schema, c)->Ok_0;
        lemma_confined_well_formed(p, c, op, cast(v, field.data_type)->0);
    }
}

/// One more column in one class keeps a partition, where no class had it.
proof fn lemma_with_column_partition(classes: Seq<Seq<ColumnView>>, i: int, c: ColumnView)
    requires
        partition(classes),
        0 <= i < classes.len(),
        class_index(classes, c) is None,
    ensures
        partition(classes.update(i, with_column(classes[i], c))),
{
    let r = classes.update(i, with_column(classes[i], c));
    lemma_class_index(classes, c);
    lemma_with_column(classes[i], c);
    assert forall|a: int, b: int, x: ColumnView|
        0 <= a < r.len() && 0 <= b < r.len() && #[trigger] r[a].contains(x)
            && #[trigger] r[b].contains(x) implies a == b by {
        if x != c {
            assert(classes[a].contains(x));
            assert(classes[b].contains(x));
        }
    }
    assert forall|a: int| 0 <= a < r.len() implies (#[trigger] r[a]).len() > 0 by {
        if a == i {
            assert(r[i].contains(c));
        }
    }
}

/// Making one class of two keeps a partition.
proof fn lemma_merged_partition(classes: Seq<Seq<ColumnView>>, i: int, j: int)
    requires
        partition(classes),
        0 <= i < j < classes.len(),
    ensures
        partition(classes.update(i, union(classes[i], classes[j])).remove(j)),
{
    let both = union(classes[i], classes[j]);
    let r = classes.update(i, both).remove(j);
    lemma_union(classes[i], classes[j]);
    assert forall|a: int, b: int, x: ColumnView|
        0 <= a < r.len() && 0 <= b < r.len() && #[trigger] r[a].contains(x)
            && #[trigger] r[b].contains(x) implies a == b by {
        let a0 = if a < j {
            a
        } else {
            a + 1
        };
        let b0 = if b < j {
            b
        } else {
            b + 1
        };
        assert(a == i || classes[a0].contains(x));
        assert(b == i || classes[b0].contains(x));
        if a == i && b != i {
            assert(classes[i].contains(x) || classes[j].contains(x));
        }
        if b == i && a != i {
            assert(classes[i].contains(x) || classes[j].contains(x));
        }
    }
    assert forall|a: int| 0 <= a < r.len() implies (#[trigger] r[a]).len() > 0 && sorted(r[a]) by {
        if a == i {
            assert(classes[i].contains(classes[i][0]));
            assert(both.contains(classes[i][0]));
        } else if a < j {
            assert(r[a] == classes[a]);
        } else {
            assert(r[a] == classes[a + 1]);
        }
    }
}

/// Making two columns equal keeps the invariant.
pub proof fn lemma_equated_well_formed(p: PredicateView, c1: ColumnView, c2: ColumnView)
    requires
        p.well_formed(),
    ensures
        equated(p, c1, c2) matches Some(Ok(q)) ==> q.well_formed(),
{
    lemma_class_index(p.classes, c1);
    lemma_class_index(p.classes, c2);
    if let Some(Ok(q)) = equated(p, c1, c2) {
        match (class_index(p.classes, c1), class_index(p.classes, c2)) {
            (None, None) => {
                let class = with_column(seq![c1], c2);
                lemma_with_column(seq![c1], c2);
                assert(seq![c1].contains(seq![c1][0]));
                assert(class.contains(c1));
                let n = p.classes.len() as int;
                assert forall|a: int, b: int, x: ColumnView|
                    0 <= a < q.classes.len() && 0 <= b < q.classes.len()
                        && #[trigger] q.classes[a].contains(x)
                        && #[trigger] q.classes[b].contains(x) implies a == b by {
                    if a < n && b == n {
                        assert(p.classes[a].contains(x));
                        assert(seq![c1].contains(x) || x == c2);
                        assert(x == c1 || x == c2);
                    }
                    if b < n && a == n {
                        assert(p.classes[b].contains(x));
                        assert(seq![c1].contains(x) || x == c2);
                        assert(x == c1 || x == c2);
                    }
                    if a < n && b < n {
                        assert(p.classes[a].contains(x) && p.classes[b].contains(x));
                    }
                }
                assert forall|k: int|
                    0 <= k < q.ranges.len() && (
                    #[trigger] q.ranges[k]) is Some implies q.ranges[k]->0.valid() by {
                    if k < n {
                        assert(q.ranges[k] == p.ranges[k]);
                    }
                }
            },
            (None, Some(i)) => {
                lemma_with_column_partition(p.classes, i, c1);
            },
            (Some(i), None) => {
                lemma_with_column_partition(p.classes, i, c2);
            },
            (Some(a), Some(b)) => {
                if a != b {
                    let (i, j) = if a < b {
                        (a, b)
                    } else {
                        (b, a)
                    };
                    lemma_merged_partition(p.classes, i, j);
                    let range = common(p.ranges[i], p.ranges[j])->Ok_0;
                    if range is Some {
                        lemma_intersection_valid(p.ranges[i]->0, p.ranges[j]->0);
                    }
                    assert forall|k: int|
                        0 <= k < q.ranges.len() && (
                        #[trigger] q.ranges[k]) is Some implies q.ranges[k]->0.valid() by {
                        let k0 = if k < j {
                            k
                        } else {
                            k + 1
                        };
                        if k != i {
                            assert(q.ranges[k] == p.ranges[k0]);
                        }
                    }
                }
            },
        }
    }
}

/// A filter keeps the invariant.
pub proof fn lemma_conjoined_well_formed(p: PredicateView, e: ExprView)
    requires
        p.well_formed(),
    ensures
        conjoined(p, e) matches Some(Ok(q)) ==> q.well_formed(),
{
    let inner = match e {
        ExprView::Not(x) => *x,
        _ => e,
    };
    if let ExprView::BinaryExpr { left, op, right } = inner {
        match (*left, *right) {
            (ExprView::Column(c), ExprView::Literal(v, _)) => {
                lemma_bounded_well_formed(p, c, op, v);
                if negated(op) is Some {
                    lemma_bounded_well_formed(p, c, negated(op)->0, v);
                }
            },
            (ExprView::Literal(v, _), ExprView::Column(c)) => {
                if swapped(op) is Some {
                    lemma_bounded_well_formed(p, c, swapped(op)->0, v);
                }
                if negated(op) is Some && swapped(negated(op)->0) is Some {
                    lemma_bounded_well_formed(p, c, swapped(negated(op)->0)->0, v);
                }
            },
            (ExprView::Column(c1), ExprView::Column(c2)) => {
                lemma_equated_well_formed(p, c1, c2);
            },
            _ => {},
        }
    }
}

/// No residual filter is kept twice.
pub open spec fn distinct_residuals(p: PredicateView) -> bool {
    forall|i: int, j: int|
        0 <= i < j < p.residuals.len() ==> #[trigger] p.residuals[i] != #[trigger] p.residuals[j]
}

/// A filter that is added does not make a residual filter be kept twice.
pub proof fn conjoined_keeps_residuals_distinct(p: PredicateView, e: ExprView)
    requires
        distinct_residuals(p),
    ensures
        conjoined(p, e) matches Some(Ok(q)) ==> distinct_residuals(q),
{
    if let Some(Ok(q)) = conjoined(p, e) {
        if q.residuals != p.residuals {
            assert(q.residuals.len() == p.residuals.len() + 1);
            let new = q.residuals.last();
            assert(q.residuals == p.residuals.push(new));
            assert(!p.residuals.contains(new));
            assert forall|i: int, j: int| 0 <= i < j < q.residuals.len() implies #[trigger]
                q.residuals[i] != #[trigger] q.residuals[j] by {
                assert(q.residuals[i] == p.residuals[i]);
                if j < p.residuals.len() {
                    assert(q.residuals[j] == p.residuals[j]);
                }
            }
        }
    }
}

/// A table without filters meets the invariant.
pub proof fn lemma_initial_well_formed(tables: Seq<TableReferenceView>, fields: Seq<FieldView>)
    requires
        first_repeated(schema_columns(fields)) is None,
    ensures
        initial(tables, fields).well_formed(),
{
    let p = initial(tables, fields);
    let columns = schema_columns(fields);
    lemma_not_repeated(columns);
    assert forall|i: int, j: int, c: ColumnView|
        0 <= i < p.classes.len() && 0 <= j < p.classes.len() && #[trigger] p.classes[i].contains(c)
            && #[trigger] p.classes[j].contains(c) implies i == j by {
        assert(columns[i] == c);
        assert(columns[j] == c);
    }
}

/// The ranges of a list.
pub open spec fn ranges_view(s: Seq<Option<Interval>>) -> Seq<Option<IntervalView>> {
    Seq::new(s.len(), |i: int| range_view(s[i]))
}

/// Stores information on filters from a select-project plan.
#[derive(Debug, PartialEq, Eq, Hash)]
pub struct Predicate {
    /// Full table schema, including all possible columns.
    pub schema: DFSchema,
    /// List of column equivalence classes.
    pub eq_classes: Vec<ColumnEquivalenceClass>,
    /// Stores (possibly empty) intervals describing each equivalence class.
    pub ranges_by_equivalence_class: Vec<Option<Interval>>,
    /// Filter expressions that aren't column equality predicates or range filters.
    pub residuals: Vec<Expr>,
    /// Tables referenced in this plan.
    pub referenced_tables: Vec<TableReference>,
}

impl View for Predicate {
    type V = PredicateView;

    open spec fn view(&self) -> PredicateView {
        PredicateView {
            schema: self.schema@,
            classes: classes_view(self.eq_classes@),
            ranges: ranges_view(self.ranges_by_equivalence_class@),
            residuals: exprs_view(self.residuals@),
            tables: references_view(self.referenced_tables@),
        }
    }
}

/// The view of an outcome.
pub open spec fn predicate_outcome(r: Option<Result<Predicate, Error>>) -> Option<
    Result<PredicateView, ErrorView>,
> {
    match r {
        Some(Ok(p)) => Some(Ok(p@)),
        Some(Err(e)) => Some(Err(e@)),
        None => None,
    }
}

/// A class in the front of a list is one in the list.
proof fn lemma_class_index_prefix(classes: Seq<Seq<ColumnView>>, n: int, c: ColumnView)
    requires
        0 <= n <= classes.len(),
        class_index(classes.take(n), c) is Some,
    ensures
        class_index(classes, c) == class_index(classes.take(n), c),
    decreases classes.len() - n,
{
    if n == classes.len() {
        assert(classes.take(n) =~= classes);
    } else {
        assert(classes.take(n + 1).drop_last() =~= classes.take(n));
        lemma_class_index_prefix(classes, n + 1, c);
    }
}

/// Whether a range is one of all values.
fn is_unbounded(range: &Interval) -> (r: bool)
    requires
        range@.valid(),
    ensures
        r == (range@ == unbounded(range@.data_type())),
{
    let all = Interval::make_unbounded(&range.data_type());
    proof {
        if range@.data_type().known() {
            lemma_unbounded_intersection(range@, all@);
        }
    }
    match range.contains(&all) {
        Ok(r) => r,
        Err(_) => false,
    }
}

/// A range, where it is not one of all values.
fn bounding_range(range: Interval) -> (r: Result<Option<Interval>, Error>)
    requires
        range@.valid(),
    ensures
        r is Ok <==> bounding(range@) is Ok,
        r is Ok ==> range_view(r->Ok_0) == bounding(range@)->Ok_0,
        r is Err ==> r->Err_0@ == bounding(range@)->Err_0,
{
    if is_unbounded(&range) {
        Err(Error::NoBound)
    } else {
        Ok(Some(range))
    }
}

/// The range of the values that compare with a value as an operator says.
fn bound_of(op: Operator, value: &ScalarValue) -> (r: Result<Option<Interval>, Error>)
    requires
        value@.data_type.known(),
    ensures
        r is Ok <==> bound(op, value@) is Ok,
        r is Ok ==> range_view(r->Ok_0) == bound(op, value@)->Ok_0,
        r is Err ==> r->Err_0@ == bound(op, value@)->Err_0,
{
    proof {
        lemma_scalar_well_typed(*value);
        lemma_bound_valid(op, value@);
    }
    let data_type = value.data_type();
    let ranging = match op {
        Operator::Eq | Operator::Lt | Operator::LtEq | Operator::Gt | Operator::GtEq => true,
        _ => false,
    };
    if !ranging {
        return Err(Error::UnsupportedOperator);
    }
    if value.is_null() {
        return Ok(None);
    }
    let null = ScalarValue::null(&data_type);
    match op {
        Operator::Eq => bounding_range(Interval::try_new(value, value)?),
        Operator::LtEq => bounding_range(Interval::try_new(&null, value)?),
        Operator::GtEq => bounding_range(Interval::try_new(value, &null)?),
        Operator::Lt => {
            if !can_step_down(value) {
                return Err(Error::StrictBound);
            }
            let point = Interval::try_new(value, value)?;
            let all = Interval::make_unbounded(&data_type);
            match satisfy_greater(&point, &all)? {
                Some((_, range)) => {
                    proof {
                        lemma_greater_valid(point@, all@);
                    }
                    if range.upper.same(value) {
                        Err(Error::StrictBound)
                    } else if is_unbounded(&range) {
                        Ok(None)
                    } else {
                        Ok(Some(range))
                    }
                },
                None => Ok(None),
            }
        },
        _ => {
            if !can_step_up(value) {
                return Err(Error::StrictBound);
            }
            let point = Interval::try_new(value, value)?;
            let all = Interval::make_unbounded(&data_type);
            match satisfy_greater(&all, &point)? {
                Some((range, _)) => {
                    proof {
                        lemma_greater_valid(all@, point@);
                    }
                    if range.lower.same(value) {
                        Err(Error::StrictBound)
                    } else if is_unbounded(&range) {
                        Ok(None)
                    } else {
                        Ok(Some(range))
                    }
                },
                None => Ok(None),
            }
        },
    }
}

/// What two ranges have in common.
fn common_range(a: &Option<Interval>, b: &Option<Interval>) -> (r: Result<Option<Interval>, Error>)
    requires
        range_view(*a) matches Some(x) ==> x.valid(),
        range_view(*b) matches Some(y) ==> y.valid(),
    ensures
        r is Ok <==> common(range_view(*a), range_view(*b)) is Ok,
        r is Ok ==> range_view(r->Ok_0) == common(range_view(*a), range_view(*b))->Ok_0,
        r is Err ==> r->Err_0@ == common(range_view(*a), range_view(*b))->Err_0,
{
    match (a, b) {
        (Some(x), Some(y)) => x.intersect(y),
        _ => Ok(None),
    }
}

impl Predicate {
    /// The place of the class that has a column.
    pub fn class_for_column(&self, column: &Column) -> (r: Option<usize>)
        ensures
            r is Some <==> class_index(self@.classes, column@) is Some,
            r is Some ==> r->0 == class_index(self@.classes, column@)->0 && r->0
                < self.eq_classes@.len(),
    {
        let ghost classes = self@.classes;
        for i in 0..self.eq_classes.len()
            invariant
                classes == self@.classes,
                class_index(classes.take(i as int), column@) is None,
        {
            assert(classes.take(i + 1).drop_last() =~= classes.take(i as int));
            if self.eq_classes[i].contains(column) {
                proof {
                    lemma_class_index_prefix(classes, i + 1, column@);
                }
                return Some(i);
            }
        }
        assert(classes.take(classes.len() as int) =~= classes);
        None
    }

    /// Makes two columns equal.
    pub fn add_equivalence(self, c1: &Column, c2: &Column) -> (r: Option<Result<Self, Error>>)
        requires
            self@.well_formed(),
        ensures
            predicate_outcome(r) == equated(self@, c1@, c2@),
            r matches Some(Ok(p)) ==> p@.well_formed(),
    {
        let ghost before = self@;
        proof {
            lemma_class_index(before.classes, c1@);
            lemma_class_index(before.classes, c2@);
            lemma_equated_well_formed(before, c1@, c2@);
        }
        let mut p = self;
        match (p.class_for_column(c1), p.class_for_column(c2)) {
            (None, None) => {
                let data_type = match p.schema.data_type(c1) {
                    Ok(data_type) => data_type,
                    Err(_) => return None,
                };
                p.eq_classes.push(ColumnEquivalenceClass::new(c1.clone(), c2.clone()));
                p.ranges_by_equivalence_class.push(Some(Interval::make_unbounded(&data_type)));
                proof {
                    let q = equated(before, c1@, c2@)->0->Ok_0;
                    assert(p@.classes =~= q.classes);
                    assert(p@.ranges =~= q.ranges);
                }
            },
            (None, Some(i)) => {
                assert(sorted(before.classes[i as int]));
                p.eq_classes[i].insert(c1.clone());
                proof {
                    let q = equated(before, c1@, c2@)->0->Ok_0;
                    assert(p@.classes =~= q.classes);
                }
            },
            (Some(i), None) => {
                assert(sorted(before.classes[i as int]));
                p.eq_classes[i].insert(c2.clone());
                proof {
                    let q = equated(before, c1@, c2@)->0->Ok_0;
                    assert(p@.classes =~= q.classes);
                }
            },
            (Some(a), Some(b)) => {
                if a == b {
                    return Some(Ok(p));
                }
                let (i, j): (usize, usize) = if a < b {
                    (a, b)
                } else {
                    (b, a)
                };
                assert(before.ranges[i as int] == range_view(
                    p.ranges_by_equivalence_class@[i as int],
                ));
                assert(before.ranges[j as int] == range_view(
                    p.ranges_by_equivalence_class@[j as int],
                ));
                let absorbed = p.eq_classes.remove(j);
                assert(sorted(before.classes[i as int]));
                p.eq_classes[i].extend(absorbed);
                let other_range = p.ranges_by_equivalence_class.remove(j);
                match common_range(&p.ranges_by_equivalence_class[i], &other_range) {
                    Ok(range) => {
                        p.ranges_by_equivalence_class.set(i, range);
                    },
                    Err(e) => return Some(Err(e)),
                }
                proof {
                    let q = equated(before, c1@, c2@)->0->Ok_0;
                    assert(p@.classes =~= q.classes);
                    assert(p@.ranges =~= q.ranges);
                }
            },
        }
        Some(Ok(p))
    }

    /// Narrows the range of a column's class to the values that compare with a
    /// value as an operator says.
    pub fn add_range(&mut self, c: &Column, op: Operator, value: &ScalarValue) -> (r: Result<
        (),
        Error,
    >)
        requires
            old(self)@.well_formed(),
        ensures
            match bounded(old(self)@, c@, op, value@) {
                Ok(p) => r is Ok && final(self)@ == p,
                Err(e) => r matches Err(x) && x@ == e && *final(self) == *old(self),
            },
            final(self)@.well_formed(),
    {
        let data_type = match self.schema.data_type(c) {
            Ok(data_type) => data_type,
            Err(e) => return Err(e),
        };
        let value = match cast_to(value, &data_type) {
            Ok(value) => value,
            Err(e) => return Err(e),
        };
        self.add_cast_range(c, op, &value)
    }

    /// Narrows the range of a column's class to the values that compare with a
    /// value, which has the type of the column, as an operator says.
    pub fn add_cast_range(&mut self, c: &Column, op: Operator, value: &ScalarValue) -> (r: Result<
        (),
        Error,
    >)
        requires
            old(self)@.well_formed(),
            value@.data_type.known(),
        ensures
            match confined(old(self)@, c@, op, value@) {
                Ok(p) => r is Ok && final(self)@ == p,
                Err(e) => r matches Err(x) && x@ == e && *final(self) == *old(self),
            },
            final(self)@.well_formed(),
    {
        let ghost before = self@;
        let i = match self.class_for_column(c) {
            Some(i) => i,
            None => return Err(Error::NoEquivalenceClass(c.clone())),
        };
        proof {
            lemma_class_index(before.classes, c@);
            lemma_scalar_well_typed(*value);
            lemma_bound_valid(op, value@);
            lemma_confined_well_formed(before, c@, op, value@);
        }
        let new_range = match bound_of(op, value) {
            Ok(range) => range,
            Err(e) => return Err(e),
        };
        assert(before.ranges[i as int] == range_view(self.ranges_by_equivalence_class@[i as int]));
        let range = match common_range(&self.ranges_by_equivalence_class[i], &new_range) {
            Ok(range) => range,
            Err(e) => return Err(e),
        };
        self.ranges_by_equivalence_class.set(i, range);
        assert(self@.ranges =~= before.ranges.update(i as int, range_view(range)));
        Ok(())
    }
}

/// An expression that is flattened is one expression.
pub proof fn lemma_flattened_one(e: ExprView, plan: PlanView)
    requires
        !(plan.node is TableScan),
    ensures
        flattened(seq![e], plan, collect(all_outputs(plan.inputs))) matches Some(Ok(flat)) ==> {
            let scope = scope_of(plan, collect(all_outputs(plan.inputs))->0->Ok_0);
            &&& flat.len() == 1
            &&& crate::plan::flat(e, scope) == Some(Ok::<ExprView, ErrorView>(flat[0]))
        },
{
    if let Some(Ok(outputs)) = collect(all_outputs(plan.inputs)) {
        let s = flats(seq![e], scope_of(plan, outputs));
        assert(s.len() == 1);
        assert(s.drop_last() =~= Seq::empty());
        assert(collect(s.drop_last()) == Some(Ok::<Seq<ExprView>, ErrorView>(Seq::empty())));
        assert(s.last() == crate::plan::flat(seq![e][0], scope_of(plan, outputs)));
    }
}

/// An expression without its aliases.
fn strip_aliases(e: &Expr) -> (r: Expr)
    ensures
        r@ == unaliased(e@),
    decreases e,
{
    match e {
        Expr::Column(_) => e.clone(),
        Expr::Literal(_, _) => e.clone(),
        Expr::BinaryExpr { left, op, right } => {
            let l = strip_aliases(&**left);
            let r = strip_aliases(&**right);
            Expr::BinaryExpr { left: Box::new(l), op: *op, right: Box::new(r) }
        },
        Expr::Not(x) => {
            let y = strip_aliases(&**x);
            Expr::Not(Box::new(y))
        },
        Expr::Alias { expr, .. } => strip_aliases(&**expr),
        Expr::Other { id, children } => {
            let mut stripped: Vec<Expr> = Vec::new();
            for i in 0..children.len()
                invariant
                    decreases_to!(e => children),
                    stripped@.len() == i,
                    forall|j: int|
                        0 <= j < i ==> (#[trigger] stripped@[j])@ == unaliased(children@[j]@),
            {
                let c = strip_aliases(&children[i]);
                stripped.push(c);
            }
            assert(exprs_view(stripped@) =~= all_normal(Seq::empty(), exprs_view(children@)));
            Expr::Other { id: *id, children: stripped }
        },
    }
}

/// What is collected from a plan.
struct Collected {
    tables: Vec<TableReference>,
    schema: DFSchema,
    filters: Vec<Expr>,
}

impl Collected {
    spec fn view(&self) -> CollectedView {
        CollectedView {
            tables: references_view(self.tables@),
            fields: self.schema@,
            filters: exprs_view(self.filters@),
        }
    }

    spec fn outcome(r: Option<Result<Collected, Error>>) -> Option<Result<CollectedView, ErrorView>> {
        match r {
            Some(Ok(c)) => Some(Ok(c.view())),
            Some(Err(e)) => Some(Err(e@)),
            None => None,
        }
    }

    fn from_plan(plan: &LogicalPlan) -> (r: Option<Result<Collected, Error>>)
        ensures
            Collected::outcome(r) == collected(plan@),
            r matches Some(Ok(c)) ==> first_repeated(schema_columns(c.schema@)) is None,
        decreases plan,
    {
        match &plan.node {
            PlanNode::TableScan { table_name, source, filters, .. } => {
                let schema = match DFSchema::try_from_qualified_schema(table_name, source) {
                    Ok(schema) => schema,
                    Err(e) => return Some(Err(e)),
                };
                if plan.inputs.len() != 0 {
                    return None;
                }
                let filters = match flatten_scan_filters(filters, &schema) {
                    Some(Ok(filters)) => filters,
                    Some(Err(e)) => return Some(Err(e)),
                    None => return Some(Err(Error::UnsupportedPlan(plan.display.clone()))),
                };
                let mut tables: Vec<TableReference> = Vec::new();
                tables.push(table_name.clone());
                assert(references_view(tables@) =~= seq![table_name@]);
                Some(Ok(Collected { tables, schema, filters }))
            },
            PlanNode::Filter { predicate } => {
                if plan.inputs.len() != 1 {
                    return None;
                }
                assert(plan@.inputs[0] == plan.inputs@[0]@);
                assert(decreases_to!(plan => plan.inputs));
                let rest = match Collected::from_plan(&plan.inputs[0]) {
                    Some(Ok(rest)) => rest,
                    failed => return failed,
                };
                let mut exprs: Vec<Expr> = Vec::new();
                exprs.push(predicate.clone());
                assert(exprs_view(exprs@) =~= seq![predicate@]);
                let flat = match flatten_exprs(exprs, plan) {
                    Some(Ok(flat)) => flat,
                    Some(Err(e)) => return Some(Err(e)),
                    None => return None,
                };
                proof {
                    lemma_flattened_one(predicate@, plan@);
                }
                assert(exprs_view(flat@)[0] == flat@[0]@);
                let mut filters = rest.filters;
                let ghost before = filters@;
                let filter = strip_aliases(&flat[0]);
                filters.insert(0, filter);
                assert(exprs_view(filters@) =~= seq![filter@] + exprs_view(before));
                Some(Ok(Collected { tables: rest.tables, schema: rest.schema, filters }))
            },
            PlanNode::Projection { .. } => {
                if plan.inputs.len() != 1 {
                    return None;
                }
                assert(plan@.inputs[0] == plan.inputs@[0]@);
                assert(decreases_to!(plan => plan.inputs));
                Collected::from_plan(&plan.inputs[0])
            },
            PlanNode::Join { .. } => Some(Err(Error::JoinNotSupported)),
            _ => Some(Err(Error::UnsupportedPlan(plan.display.clone()))),
        }
    }
}

/// A filter that fails fails the list that it is the last of, and every longer
/// one.
proof fn lemma_all_conjoined_prefix(p: PredicateView, s: Seq<ExprView>, n: int)
    requires
        0 <= n <= s.len(),
        !(all_conjoined(p, s.take(n)) matches Some(Ok(_))),
    ensures
        all_conjoined(p, s) == all_conjoined(p, s.take(n)),
    decreases s.len() - n,
{
    if n == s.len() {
        assert(s.take(n) =~= s);
    } else {
        assert(s.take(n + 1).drop_last() =~= s.take(n));
        lemma_all_conjoined_prefix(p, s, n + 1);
    }
}

/// The conjuncts of a list of filters.
fn split_all(filters: &Vec<Expr>) -> (r: Vec<Expr>)
    ensures
        exprs_view(r@) == all_conjuncts(exprs_view(filters@)),
{
    let ghost all = exprs_view(filters@);
    let mut r: Vec<Expr> = Vec::new();
    assert(exprs_view(r@) =~= Seq::empty());
    for i in 0..filters.len()
        invariant
            all == exprs_view(filters@),
            exprs_view(r@) == all_conjuncts(all.take(i as int)),
    {
        assert(all.take(i + 1).drop_last() =~= all.take(i as int));
        let mut more = filters[i].split_conjunction();
        let ghost before = r@;
        let ghost added = more@;
        r.append(&mut more);
        assert(exprs_view(before + added) =~= exprs_view(before) + exprs_view(added));
    }
    assert(all.take(all.len() as int) =~= all);
    r
}

impl Predicate {
    /// Adds a residual filter, unless it is there.
    pub fn add_residual(&mut self, expr: Expr)
        ensures
            final(self)@ == with_residual(old(self)@, expr@),
    {
        let ghost before = self@;
        for i in 0..self.residuals.len()
            invariant
                before == self@,
                *self == *old(self),
                forall|j: int| 0 <= j < i ==> #[trigger] before.residuals[j] != expr@,
        {
            assert(before.residuals[i as int] == self.residuals@[i as int]@);
            if self.residuals[i].same(&expr) {
                return ;
            }
        }
        self.residuals.push(expr);
        assert(self@.residuals =~= before.residuals.push(expr@));
    }

    /// Adds a comparison of a column with a literal.
    fn insert_column_comparison(
        self,
        c: &Column,
        op: Operator,
        v: &ScalarValue,
        metadata: Option<u64>,
    ) -> (r: Self)
        requires
            self@.well_formed(),
        ensures
            r@ == column_compared(self@, c@, op, v@, metadata),
            r@.well_formed(),
    {
        let mut p = self;
        if p.add_range(c, op, v).is_err() {
            let left = Expr::Column(c.clone());
            let right = Expr::Literal(v.clone(), metadata);
            assert(left@ == ExprView::Column(c@));
            assert(right@ == ExprView::Literal(v@, metadata));
            p.add_residual(
                Expr::BinaryExpr { left: Box::new(left), op, right: Box::new(right) },
            );
        }
        p
    }

    /// Adds a binary expression to the filters.
    pub fn insert_binary_expr(self, left: &Expr, op: Operator, right: &Expr) -> (r: Option<
        Result<Self, Error>,
    >)
        requires
            self@.well_formed(),
        ensures
            predicate_outcome(r) == compared(self@, left@, op, right@),
            r matches Some(Ok(p)) ==> p@.well_formed(),
    {
        match (left, right) {
            (Expr::Column(c), Expr::Literal(v, metadata)) => {
                return Some(Ok(self.insert_column_comparison(c, op, v, *metadata)));
            },
            (Expr::Literal(v, metadata), Expr::Column(c)) => {
                if let Some(swapped) = op.swap() {
                    return Some(Ok(self.insert_column_comparison(c, swapped, v, *metadata)));
                }
            },
            (Expr::Column(c1), Expr::Column(c2)) => {
                if op == Operator::Eq && !c1.same(c2) {
                    return self.add_equivalence(c1, c2);
                }
            },
            _ => {},
        }
        let mut p = self;
        p.add_residual(
            Expr::BinaryExpr { left: Box::new(left.clone()), op, right: Box::new(right.clone()) },
        );
        Some(Ok(p))
    }

    /// Adds an expression to the filters.
    pub fn insert_conjunct(self, expr: &Expr) -> (r: Option<Result<Self, Error>>)
        requires
            self@.well_formed(),
        ensures
            predicate_outcome(r) == conjoined(self@, expr@),
            r matches Some(Ok(p)) ==> p@.well_formed(),
    {
        match expr {
            Expr::BinaryExpr { left, op, right } => {
                return self.insert_binary_expr(&**left, *op, &**right);
            },
            Expr::Not(inner) => {
                assert(match **inner {
                    Expr::BinaryExpr { left, op, right } => (**inner)@ == comparison(
                        (*left)@,
                        op,
                        (*right)@,
                    ),
                    _ => !((**inner)@ is BinaryExpr),
                });
                if let Expr::BinaryExpr { left, op, right } = &**inner {
                    if let Some(negated) = op.negate() {
                        return self.insert_binary_expr(&**left, negated, &**right);
                    }
                }
            },
            _ => {},
        }
        let mut p = self;
        p.add_residual(expr.clone());
        Some(Ok(p))
    }

    /// The predicate of a table without filters.
    fn initial(tables: Vec<TableReference>, schema: DFSchema) -> (r: Self)
        requires
            first_repeated(schema_columns(schema@)) is None,
        ensures
            r@ == initial(references_view(tables@), schema@),
            r@.well_formed(),
    {
        let ghost expected = initial(references_view(tables@), schema@);
        let mut eq_classes: Vec<ColumnEquivalenceClass> = Vec::new();
        let mut ranges: Vec<Option<Interval>> = Vec::new();
        for i in 0..schema.fields.len()
            invariant
                expected == initial(references_view(tables@), schema@),
                eq_classes@.len() == i,
                ranges@.len() == i,
                forall|j: int| 0 <= j < i ==> (#[trigger] eq_classes@[j])@ == expected.classes[j],
                forall|j: int|
                    0 <= j < i ==> range_view(#[trigger] ranges@[j]) == expected.ranges[j],
        {
            eq_classes.push(ColumnEquivalenceClass::new_singleton(schema.fields[i].column()));
            ranges.push(Some(Interval::make_unbounded(&schema.fields[i].data_type)));
        }
        let r = Predicate {
            schema,
            eq_classes,
            ranges_by_equivalence_class: ranges,
            residuals: Vec::new(),
            referenced_tables: tables,
        };
        proof {
            assert(r@.classes =~= expected.classes);
            assert(r@.ranges =~= expected.ranges);
            assert(r@.residuals =~= expected.residuals);
            lemma_initial_well_formed(references_view(tables@), r@.schema);
        }
        r
    }

    /// The predicate of a plan. It is `None` where the plan does not hang
    /// together.
    pub fn new(plan: &LogicalPlan) -> (r: Option<Result<Self, Error>>)
        ensures
            predicate_outcome(r) == predicate_of(plan@),
            r matches Some(Ok(p)) ==> p@.well_formed(),
    {
        let parts = match Collected::from_plan(plan) {
            Some(Ok(parts)) => parts,
            Some(Err(e)) => return Some(Err(e)),
            None => return None,
        };
        let ghost start = initial(parts.view().tables, parts.view().fields);
        let filters = split_all(&parts.filters);
        let ghost all = exprs_view(filters@);
        assert(predicate_of(plan@) == all_conjoined(start, all));
        let mut p = Predicate::initial(parts.tables, parts.schema);
        for i in 0..filters.len()
            invariant
                all == exprs_view(filters@),
                predicate_of(plan@) == all_conjoined(start, all),
                p@.well_formed(),
                all_conjoined(start, all.take(i as int)) == Some(
                    Ok::<PredicateView, ErrorView>(p@),
                ),
        {
            assert(all.take(i + 1).drop_last() =~= all.take(i as int));
            match p.insert_conjunct(&filters[i]) {
                Some(Ok(q)) => {
                    p = q;
                },
                failed => {
                    proof {
                        lemma_all_conjoined_prefix(start, all, i + 1);
                    }
                    return failed;
                },
            }
        }
        assert(all.take(all.len() as int) =~= all);
        Some(Ok(p))
    }

    /// Rewrites an expression in terms of the first columns of their classes.
    pub fn normalize_expr(&self, e: &Expr) -> (r: Expr)
        requires
            self@.well_formed(),
        ensures
            r@ == normal(self@.classes, e@),
        decreases e,
    {
        match e {
            Expr::Column(c) => match self.class_for_column(c) {
                Some(i) => {
                    assert(self@.classes[i as int].len() > 0);
                    Expr::Column(self.eq_classes[i].columns[0].clone())
                },
                None => Expr::Column(c.clone()),
            },
            Expr::Literal(_, _) => e.clone(),
            Expr::BinaryExpr { left, op, right } => {
                let l = self.normalize_expr(&**left);
                let r = self.normalize_expr(&**right);
                Expr::BinaryExpr { left: Box::new(l), op: *op, right: Box::new(r) }
            },
            Expr::Not(x) => {
                let y = self.normalize_expr(&**x);
                Expr::Not(Box::new(y))
            },
            Expr::Alias { expr, .. } => self.normalize_expr(&**expr),
            Expr::Other { id, children } => {
                let mut normal_children: Vec<Expr> = Vec::new();
                for i in 0..children.len()
                    invariant
                        self@.well_formed(),
                        decreases_to!(e => children),
                        normal_children@.len() == i,
                        forall|j: int|
                            0 <= j < i ==> (#[trigger] normal_children@[j])@ == normal(
                                self@.classes,
                                children@[j]@,
                            ),
                {
                    let c = self.normalize_expr(&children[i]);
                    normal_children.push(c);
                }
                assert(exprs_view(normal_children@) =~= all_normal(
                    self@.classes,
                    exprs_view(children@),
                ));
                Expr::Other { id: *id, children: normal_children }
            },
        }
    }

    /// Rewrites each expression of a list.
    pub fn normalize_all(&self, v: &Vec<Expr>) -> (r: Vec<Expr>)
        requires
            self@.well_formed(),
        ensures
            exprs_view(r@) == all_normal(self@.classes, exprs_view(v@)),
    {
        let mut r: Vec<Expr> = Vec::new();
        for i in 0..v.len()
            invariant
                self@.well_formed(),
                r@.len() == i,
                forall|j: int|
                    0 <= j < i ==> (#[trigger] r@[j])@ == normal(self@.classes, v@[j]@),
        {
            r.push(self.normalize_expr(&v[i]));
        }
        assert(exprs_view(r@) =~= all_normal(self@.classes, exprs_view(v@)));
        r
    }
}

proof fn lemma_first_known_prefix(classes: Seq<Seq<ColumnView>>, s: Seq<ColumnView>, n: int)
    requires
        0 <= n <= s.len(),
        first_known(classes, s.take(n)) is Some,
    ensures
        first_known(classes, s) == first_known(classes, s.take(n)),
    decreases s.len() - n,
{
    if n == s.len() {
        assert(s.take(n) =~= s);
    } else {
        assert(s.take(n + 1).drop_last() =~= s.take(n));
        lemma_first_known_prefix(classes, s, n + 1);
    }
}

proof fn lemma_ranged_class_prefix(other: PredicateView, s: Seq<ColumnView>, n: int)
    requires
        0 <= n <= s.len(),
        ranged_class(other, s.take(n)) is Some,
    ensures
        ranged_class(other, s) == ranged_class(other, s.take(n)),
    decreases s.len() - n,
{
    if n == s.len() {
        assert(s.take(n) =~= s);
    } else {
        assert(s.take(n + 1).drop_last() =~= s.take(n));
        lemma_ranged_class_prefix(other, s, n + 1);
    }
}

proof fn lemma_equality_filters_prefix(
    classes: Seq<Seq<ColumnView>>,
    others: Seq<Seq<ColumnView>>,
    n: int,
)
    requires
        0 <= n <= others.len(),
        equality_filters(classes, others.take(n)) is None,
    ensures
        equality_filters(classes, others) is None,
    decreases others.len() - n,
{
    if n == others.len() {
        assert(others.take(n) =~= others);
    } else {
        assert(others.take(n + 1).drop_last() =~= others.take(n));
        lemma_equality_filters_prefix(classes, others, n + 1);
    }
}

proof fn lemma_range_filters_prefix(p: PredicateView, other: PredicateView, n: nat, m: nat)
    requires
        n <= m,
        !(range_filters(p, other, n) matches Ok(Some(_))),
    ensures
        range_filters(p, other, m) == range_filters(p, other, n),
    decreases m,
{
    if n < m {
        lemma_range_filters_prefix(p, other, n, (m - 1) as nat);
    }
}

/// A comparison of a column with something else.
fn compare_column(c: &Column, op: Operator, other: Expr) -> (r: Expr)
    ensures
        r@ == comparison(ExprView::Column(c@), op, other@),
{
    let left = Expr::Column(c.clone());
    assert(left@ == ExprView::Column(c@));
    Expr::BinaryExpr { left: Box::new(left), op, right: Box::new(other) }
}

/// A comparison of a column with a value.
fn compare_value(c: &Column, op: Operator, value: &ScalarValue) -> (r: Expr)
    ensures
        r@ == comparison(ExprView::Column(c@), op, ExprView::Literal(value@, None)),
{
    let right = Expr::Literal(value.clone(), None);
    assert(right@ == ExprView::Literal(value@, None));
    compare_column(c, op, right)
}

/// The filters that a column is equal to each of some others.
fn equal_to_each(c: &Column, others: &Vec<Column>) -> (r: Vec<Expr>)
    ensures
        exprs_view(r@) == equalities(c@, crate::names::columns_view(others@)),
{
    let mut r: Vec<Expr> = Vec::new();
    for i in 0..others.len()
        invariant
            r@.len() == i,
            forall|j: int|
                0 <= j < i ==> (#[trigger] r@[j])@ == comparison(
                    ExprView::Column(c@),
                    Operator::Eq,
                    ExprView::Column(others@[j]@),
                ),
    {
        let other = Expr::Column(others[i].clone());
        assert(other@ == ExprView::Column(others@[i as int]@));
        r.push(compare_column(c, Operator::Eq, other));
    }
    assert(exprs_view(r@) =~= equalities(c@, crate::names::columns_view(others@)));
    r
}

/// The filters that a column lies in a range.
fn lies_within(c: &Column, range: &Interval) -> (r: Vec<Expr>)
    requires
        range@.valid(),
    ensures
        exprs_view(r@) == within(c@, range@),
{
    let mut r: Vec<Expr> = Vec::new();
    let lower_open = range.lower.is_null();
    let upper_open = range.upper.is_null();
    if !(lower_open || upper_open) && range.lower.same(&range.upper) {
        assert(range@.is_point());
        r.push(compare_value(c, Operator::Eq, &range.lower));
        assert(exprs_view(r@) =~= within(c@, range@));
    } else {
        assert(!range@.is_point());
        if !lower_open {
            r.push(compare_value(c, Operator::GtEq, &range.lower));
        }
        if !upper_open {
            r.push(compare_value(c, Operator::LtEq, &range.upper));
        }
        assert(exprs_view(r@) =~= within(c@, range@));
    }
    r
}

/// Appends the second list to the first.
fn extend_exprs(r: &mut Vec<Expr>, more: Vec<Expr>)
    ensures
        exprs_view(final(r)@) == exprs_view(old(r)@) + exprs_view(more@),
{
    let mut more = more;
    let ghost before = r@;
    let ghost added = more@;
    r.append(&mut more);
    assert(exprs_view(before + added) =~= exprs_view(before) + exprs_view(added));
}

impl Predicate {
    /// The first column of a class that is in a class of this predicate, with
    /// the place of the latter.
    fn first_known_column(&self, class: &ColumnEquivalenceClass) -> (r: Option<(usize, usize)>)
        ensures
            match (r, first_known(self@.classes, class@)) {
                (Some((k, i)), Some(known)) => k == known && k < class@.len() && Some(i as int)
                    == class_index(self@.classes, class@[k as int]) && i < self@.classes.len(),
                (None, None) => true,
                _ => false,
            },
    {
        let ghost s = class@;
        for k in 0..class.columns.len()
            invariant
                s == class@,
                first_known(self@.classes, s.take(k as int)) is None,
        {
            assert(s.take(k + 1).drop_last() =~= s.take(k as int));
            if let Some(i) = self.class_for_column(&class.columns[k]) {
                proof {
                    lemma_first_known_prefix(self@.classes, s, k + 1);
                }
                return Some((k, i));
            }
        }
        assert(s.take(s.len() as int) =~= s);
        None
    }

    /// Tests that all column equivalence classes of `other` are subsumed by one
    /// from `self`, and returns the equalities that `self` has beyond them.
    pub fn equijoin_subsumption_test(&self, other: &Self) -> (r: Option<Vec<Expr>>)
        ensures
            r is Some <==> equality_filters(self@.classes, other@.classes) is Some,
            r is Some ==> exprs_view(r->0@) == equality_filters(self@.classes, other@.classes)->0,
    {
        let ghost mine = self@.classes;
        let ghost theirs = other@.classes;
        let mut r: Vec<Expr> = Vec::new();
        assert(exprs_view(r@) =~= Seq::empty());
        for n in 0..other.eq_classes.len()
            invariant
                mine == self@.classes,
                theirs == other@.classes,
                equality_filters(mine, theirs.take(n as int)) == Some(exprs_view(r@)),
        {
            assert(theirs.take(n + 1).drop_last() =~= theirs.take(n as int));
            let class = &other.eq_classes[n];
            assert(theirs.take(n + 1).last() == class@);
            match self.first_known_column(class) {
                None => {
                    if class.columns.len() != 1 {
                        proof {
                            lemma_equality_filters_prefix(mine, theirs, n + 1);
                        }
                        return None;
                    }
                    assert(exprs_view(r@) =~= exprs_view(r@) + Seq::<ExprView>::empty());
                },
                Some((k, i)) => {
                    let wider = &self.eq_classes[i];
                    if !class.is_subset(wider) {
                        proof {
                            lemma_equality_filters_prefix(mine, theirs, n + 1);
                        }
                        return None;
                    }
                    let more = equal_to_each(&class.columns[k], &wider.difference(class));
                    extend_exprs(&mut r, more);
                },
            }
        }
        assert(theirs.take(theirs.len() as int) =~= theirs);
        Some(r)
    }

    /// The class of this predicate, with a range that is not empty, of the
    /// first such column of another class.
    fn first_ranged_class(&self, class: &ColumnEquivalenceClass) -> (r: Option<usize>)
        requires
            self@.well_formed(),
        ensures
            match (r, ranged_class(self@, class@)) {
                (Some(i), Some(j)) => i == j && i < self@.classes.len() && self@.ranges[i as int] is Some,
                (None, None) => true,
                _ => false,
            },
    {
        let ghost s = class@;
        for k in 0..class.columns.len()
            invariant
                s == class@,
                self@.well_formed(),
                ranged_class(self@, s.take(k as int)) is None,
        {
            assert(s.take(k + 1).drop_last() =~= s.take(k as int));
            if let Some(i) = self.class_for_column(&class.columns[k]) {
                assert(self@.ranges[i as int] == range_view(
                    self.ranges_by_equivalence_class@[i as int],
                ));
                if self.ranges_by_equivalence_class[i].is_some() {
                    proof {
                        lemma_ranged_class_prefix(self@, s, k + 1);
                    }
                    return Some(i);
                }
            }
        }
        assert(s.take(s.len() as int) =~= s);
        None
    }

    /// Whether every class of this predicate that has a column of another class
    /// has a range that encloses a range.
    fn encloses_range(&self, class: &ColumnEquivalenceClass, range: &Interval) -> (r: bool)
        requires
            self@.well_formed(),
            range@.valid(),
        ensures
            r == all_enclose(self@, class@, range@),
    {
        let ghost s = class@;
        for k in 0..class.columns.len()
            invariant
                s == class@,
                self@.well_formed(),
                range@.valid(),
                forall|m: int|
                    0 <= m < k ==> (class_index(self@.classes, #[trigger] s[m]) matches Some(j)
                        ==> encloses(self@.ranges[j], range@)),
        {
            assert(s[k as int] == class.columns@[k as int]@);
            if let Some(j) = self.class_for_column(&class.columns[k]) {
                assert(self@.ranges[j as int] == range_view(
                    self.ranges_by_equivalence_class@[j as int],
                ));
                let enclosed = match &self.ranges_by_equivalence_class[j] {
                    Some(outer) => match outer.contains(range) {
                        Ok(r) => r,
                        Err(_) => false,
                    },
                    None => false,
                };
                if !enclosed {
                    return false;
                }
            }
        }
        true
    }

    /// Whether the classes of another predicate that have none of the columns of
    /// this one have ranges of all values.
    fn knows_all_bounded(&self, other: &Self) -> (r: bool)
        requires
            other@.well_formed(),
        ensures
            r == unknown_say_nothing(self@, other@),
    {
        for j in 0..other.eq_classes.len()
            invariant
                other@.well_formed(),
                forall|m: int|
                    0 <= m < j && first_known(self@.classes, #[trigger] other@.classes[m]) is None
                        ==> says_nothing(other@.ranges[m]),
        {
            assert(other@.classes[j as int] == other.eq_classes@[j as int]@);
            if self.first_known_column(&other.eq_classes[j]).is_none() {
                assert(other@.ranges[j as int] == range_view(
                    other.ranges_by_equivalence_class@[j as int],
                ));
                let silent = match &other.ranges_by_equivalence_class[j] {
                    Some(range) => is_unbounded(range),
                    None => false,
                };
                if !silent {
                    return false;
                }
            }
        }
        true
    }

    /// Whether some range is empty.
    fn has_empty_range(&self) -> (r: bool)
        ensures
            r == describes_nothing(self@),
    {
        for i in 0..self.ranges_by_equivalence_class.len()
            invariant
                forall|j: int| 0 <= j < i ==> (#[trigger] self@.ranges[j]) is Some,
        {
            assert(self@.ranges[i as int] == range_view(
                self.ranges_by_equivalence_class@[i as int],
            ));
            if self.ranges_by_equivalence_class[i].is_none() {
                return true;
            }
        }
        false
    }

    /// The filters that one class with a range adds to this predicate.
    fn narrowing_filters(&self, class: &ColumnEquivalenceClass, range: &Option<Interval>) -> (r:
        Result<Option<Vec<Expr>>, Error>)
        requires
            self@.well_formed(),
            range_view(*range) matches Some(x) ==> x.valid(),
        ensures
            filters_result(r) == range_filter(class@, range_view(*range), self@),
    {
        let range = match range {
            None => {
                let mut r: Vec<Expr> = Vec::new();
                r.push(Expr::Literal(ScalarValue::Boolean(Some(false)), None));
                assert(exprs_view(r@) =~= seq![never()]);
                return Ok(Some(r));
            },
            Some(range) => range,
        };
        let i = match self.first_ranged_class(class) {
            None => return Ok(None),
            Some(i) => i,
        };
        assert(self@.ranges[i as int] == range_view(self.ranges_by_equivalence_class@[i as int]));
        let outer = match &self.ranges_by_equivalence_class[i] {
            Some(outer) => outer,
            None => return Ok(None),
        };
        if !outer.data_type().same(&range.data_type()) {
            return Err(Error::IntervalTypes);
        }
        if !self.encloses_range(class, range) {
            return Ok(None);
        }
        match range.contains(outer) {
            Ok(true) => {
                let r: Vec<Expr> = Vec::new();
                assert(exprs_view(r@) =~= Seq::empty());
                Ok(Some(r))
            },
            Ok(false) => {
                assert(self@.classes[i as int].len() > 0);
                Ok(Some(lies_within(&self.eq_classes[i].columns[0], range)))
            },
            Err(e) => Err(e),
        }
    }

    /// Tests that all range filters of `self` are contained in those from
    /// `other`, and returns the bounds that `self` has beyond them.
    pub fn range_subsumption_test(&self, other: &Self) -> (r: Result<Option<Vec<Expr>>, Error>)
        requires
            self@.well_formed(),
            other@.well_formed(),
        ensures
            filters_result(r) == all_range_filters(self@, other@),
    {
        let mut r: Vec<Expr> = Vec::new();
        assert(exprs_view(r@) =~= Seq::empty());
        for n in 0..self.eq_classes.len()
            invariant
                self@.well_formed(),
                other@.well_formed(),
                range_filters(self@, other@, n as nat) == Ok::<Option<Seq<ExprView>>, ErrorView>(
                    Some(exprs_view(r@)),
                ),
        {
            let ghost next = range_filter(
                self@.classes[n as int],
                self@.ranges[n as int],
                other@,
            );
            assert(self@.ranges[n as int] == range_view(
                self.ranges_by_equivalence_class@[n as int],
            ));
            match other.narrowing_filters(
                &self.eq_classes[n],
                &self.ranges_by_equivalence_class[n],
            ) {
                Ok(Some(more)) => {
                    extend_exprs(&mut r, more);
                },
                failed => {
                    proof {
                        lemma_range_filters_prefix(
                            self@,
                            other@,
                            (n + 1) as nat,
                            self@.classes.len(),
                        );
                    }
                    return failed;
                },
            }
        }
        if !(self.has_empty_range() || self.knows_all_bounded(other)) {
            return Ok(None);
        }
        Ok(Some(r))
    }

    /// Tests that any residual filters from `other` have matching entries in
    /// `self`, and returns the ones that `self` has beyond them.
    pub fn residual_subsumption_test(&self, other: &Self) -> (r: Option<Vec<Expr>>)
        requires
            self@.well_formed(),
        ensures
            r is Some <==> residual_filters(self@, other@) is Some,
            r is Some ==> exprs_view(r->0@) == residual_filters(self@, other@)->0,
    {
        let mine = self.normalize_all(&self.residuals);
        let theirs = self.normalize_all(&other.residuals);
        let ghost a = exprs_view(mine@);
        let ghost b = exprs_view(theirs@);
        for i in 0..theirs.len()
            invariant
                a == exprs_view(mine@),
                b == exprs_view(theirs@),
                a == all_normal(self@.classes, self@.residuals),
                b == all_normal(self@.classes, other@.residuals),
                forall|j: int| 0 <= j < i ==> a.contains(#[trigger] b[j]),
        {
            proof {
                crate::expr::lemma_position(a, b[i as int]);
            }
            if crate::expr::find_expr(&mine, &theirs[i]).is_none() {
                return None;
            }
        }
        let mut r: Vec<Expr> = Vec::new();
        assert(exprs_view(r@) =~= Seq::empty());
        for i in 0..mine.len()
            invariant
                a == exprs_view(mine@),
                b == exprs_view(theirs@),
                exprs_view(r@) == missing(a.take(i as int), b),
        {
            assert(a.take(i + 1).drop_last() =~= a.take(i as int));
            proof {
                crate::expr::lemma_position(b, a[i as int]);
            }
            if crate::expr::find_expr(&theirs, &mine[i]).is_none() {
                let ghost before = r@;
                r.push(mine[i].clone());
                assert(exprs_view(r@) =~= exprs_view(before).push(a[i as int]));
            }
        }
        assert(a.take(a.len() as int) =~= a);
        Some(r)
    }
}

/// The view of the result of a subsumption test.
pub open spec fn filters_result(r: Result<Option<Vec<Expr>>, Error>) -> Result<
    Option<Seq<ExprView>>,
    ErrorView,
> {
    match r {
        Ok(Some(v)) => Ok(Some(exprs_view(v@))),
        Ok(None) => Ok(None),
        Err(e) => Err(e@),
    }
}

} // verus!
