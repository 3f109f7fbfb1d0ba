//! A rewritten query gives the rows of the query.
use vstd::prelude::*;

use crate::error::ErrorView;
use crate::expr::{lemma_position, position, ExprView, Operator};
use crate::interval::{unbounded, IntervalView};
use crate::names::ColumnView;
use crate::rewrite::class::{difference, lemma_difference, subset};
use crate::rewrite::normal_form::{
    all_over_output, conjunction, extra_filters, over_output, projection, rewritten, RewriteView,
    SpjView,
};
use crate::rewrite::predicate::{
    all_enclose, all_normal, all_range_filters, class_filters, class_index, comparison,
    describes_nothing, equalities, equality_filters, first_known, lemma_class_index,
    lemma_class_index_unique, missing, never, normal, partition, range_filter, range_filters,
    ranged_class, representative, residual_filters, unknown_say_nothing, within, PredicateView,
};
use crate::rewrite::semantics::{
    all_hold, class_holds, classes_typed, compares, eval, evals, holds, intersection_is_conjunction,
    member, range_holds, satisfies, Engine, Row,
};
use crate::scalar::{null_of, DataTypeView, Datum, ScalarView};

verus! {

// ---------------------------------------------------------------------------
// Normal expressions
// ---------------------------------------------------------------------------

/// A column has the value of the first of its class, on a row on which the
/// classes hold.
proof fn lemma_representative(row: Row, classes: Seq<Seq<ColumnView>>, c: ColumnView)
    requires
        forall|i: int| 0 <= i < classes.len() ==> class_holds(row, #[trigger] classes[i]),
    ensures
        row(representative(classes, c)) == row(c),
{
    lemma_class_index(classes, c);
    if let Some(i) = class_index(classes, c) {
        let class = classes[i];
        assert(class_holds(row, classes[i]));
        if class.len() == 1 {
            let k = choose|k: int| 0 <= k < class.len() && class[k] == c;
            assert(k == 0);
        }
    }
}

/// A normal expression has the value of the expression, on every row on which
/// the classes hold.
pub proof fn normal_keeps_value(
    engine: Engine,
    row: Row,
    classes: Seq<Seq<ColumnView>>,
    e: ExprView,
)
    requires
        forall|i: int| 0 <= i < classes.len() ==> class_holds(row, #[trigger] classes[i]),
    ensures
        eval(engine, row, normal(classes, e)) == eval(engine, row, e),
    decreases e,
{
    match e {
        ExprView::Column(c) => {
            lemma_representative(row, classes, c);
        },
        ExprView::Literal(_, _) => {},
        ExprView::BinaryExpr { left, right, .. } => {
            normal_keeps_value(engine, row, classes, *left);
            normal_keeps_value(engine, row, classes, *right);
        },
        ExprView::Not(x) => {
            normal_keeps_value(engine, row, classes, *x);
        },
        ExprView::Alias { expr, .. } => {
            normal_keeps_value(engine, row, classes, *expr);
        },
        ExprView::Other { id, children } => {
            let n = all_normal(classes, children);
            assert forall|i: int| 0 <= i < children.len() implies evals(engine, row, n)[i]
                == #[trigger] evals(engine, row, children)[i] by {
                normal_keeps_value(engine, row, classes, children[i]);
                assert(n[i] == normal(classes, children[i]));
            }
            assert(evals(engine, row, n) =~= evals(engine, row, children));
            assert(normal(classes, e) == (ExprView::Other { id, children: n }));
        },
    }
}

/// An expression that is normal stays as it is.
pub proof fn normal_is_idempotent(classes: Seq<Seq<ColumnView>>, e: ExprView)
    requires
        partition(classes),
    ensures
        normal(classes, normal(classes, e)) == normal(classes, e),
    decreases e,
{
    match e {
        ExprView::Column(c) => {
            lemma_class_index(classes, c);
            if let Some(i) = class_index(classes, c) {
                assert(classes[i].contains(classes[i][0]));
                lemma_class_index_unique(classes, classes[i][0], i);
            }
        },
        ExprView::Literal(_, _) => {},
        ExprView::BinaryExpr { left, right, .. } => {
            normal_is_idempotent(classes, *left);
            normal_is_idempotent(classes, *right);
        },
        ExprView::Not(x) => {
            normal_is_idempotent(classes, *x);
        },
        ExprView::Alias { expr, .. } => {
            normal_is_idempotent(classes, *expr);
        },
        ExprView::Other { id, children } => {
            let n = all_normal(classes, children);
            assert forall|i: int| 0 <= i < children.len() implies all_normal(classes, n)[i]
                == #[trigger] n[i] by {
                normal_is_idempotent(classes, children[i]);
            }
            assert(all_normal(classes, n) =~= n);
        },
    }
}

// ---------------------------------------------------------------------------
// Expressions over the output of a view
// ---------------------------------------------------------------------------

/// Some column of the expression does not name its table.
pub open spec fn has_bare_column(e: ExprView) -> bool
    decreases e,
{
    match e {
        ExprView::Column(c) => c.relation is None,
        ExprView::Literal(_, _) => false,
        ExprView::BinaryExpr { left, right, .. } => has_bare_column(*left) || has_bare_column(
            *right,
        ),
        ExprView::Not(x) => has_bare_column(*x),
        ExprView::Alias { expr, .. } => has_bare_column(*expr),
        ExprView::Other { children, .. } => have_bare_columns(children).contains(true),
    }
}

pub open spec fn have_bare_columns(s: Seq<ExprView>) -> Seq<bool>
    decreases s,
{
    Seq::new(
        s.len(),
        |i: int|
            if 0 <= i < s.len() {
                has_bare_column(s[i])
            } else {
                arbitrary()
            },
    )
}

/// No two outputs of a view have one name.
pub open spec fn distinct_names(view: SpjView) -> bool {
    forall|i: int, j: int|
        0 <= i < j < view.output_exprs.len() ==> (#[trigger] view.output_schema[i]).column.name != (
        #[trigger] view.output_schema[j]).column.name
}

/// The row that a view outputs for a row of the table: each output under its
/// name.
pub open spec fn output_row(engine: Engine, row: Row, view: SpjView) -> Row {
    |c: ColumnView|
        if exists|i: int|
            0 <= i < view.output_exprs.len() && (#[trigger] view.output_schema[i]).column.name
                == c.name {
            let i = choose|i: int|
                0 <= i < view.output_exprs.len() && (#[trigger] view.output_schema[i]).column.name
                    == c.name;
            eval(engine, row, view.output_exprs[i])
        } else {
            null_of(DataTypeView::Null)
        }
}

/// An expression over the output of a view has, on the row that the view
/// outputs, the value of the expression on the row of the table.
pub proof fn over_output_keeps_value(engine: Engine, row: Row, view: SpjView, e: ExprView)
    requires
        view.aligned(),
        distinct_names(view),
        !has_bare_column(e),
        !over_output(view, e).has_qualified_column(),
    ensures
        eval(engine, output_row(engine, row, view), over_output(view, e)) == eval(engine, row, e),
    decreases e,
{
    let out = output_row(engine, row, view);
    lemma_position(view.output_exprs, e);
    match position(view.output_exprs, e) {
        Some(i) => {
            let c = ColumnView { relation: None, name: view.output_schema[i].column.name };
            assert(view.output_schema[i].column.name == c.name);
            let k = choose|k: int|
                0 <= k < view.output_exprs.len() && (#[trigger] view.output_schema[k]).column.name
                    == c.name;
            assert(k == i);
            assert(out(c) == eval(engine, row, view.output_exprs[i]));
        },
        None => match e {
            ExprView::Column(_) => {},
            ExprView::Literal(_, _) => {},
            ExprView::BinaryExpr { left, right, .. } => {
                over_output_keeps_value(engine, row, view, *left);
                over_output_keeps_value(engine, row, view, *right);
            },
            ExprView::Not(x) => {
                over_output_keeps_value(engine, row, view, *x);
            },
            ExprView::Alias { expr, .. } => {
                over_output_keeps_value(engine, row, view, *expr);
            },
            ExprView::Other { id, children } => {
                let n = all_over_output(view, children);
                let r = over_output(view, e);
                assert(r == (ExprView::Other { id, children: n }));
                assert forall|i: int| 0 <= i < children.len() implies evals(engine, out, n)[i]
                    == #[trigger] evals(engine, row, children)[i] by {
                    assert(n[i] == over_output(view, children[i]));
                    assert(!has_bare_column(children[i])) by {
                        assert(have_bare_columns(children)[i] == has_bare_column(children[i]));
                    }
                    assert(!n[i].has_qualified_column()) by {
                        assert(crate::expr::have_qualified_columns(n)[i]
                            == n[i].has_qualified_column());
                    }
                    over_output_keeps_value(engine, row, view, children[i]);
                }
                assert(evals(engine, out, n) =~= evals(engine, row, children));
            },
        },
    }
}

/// A normal expression names the table of each column where the expression and
/// the classes do.
pub proof fn lemma_normal_qualified(classes: Seq<Seq<ColumnView>>, e: ExprView)
    requires
        partition(classes),
        forall|i: int, c: ColumnView|
            0 <= i < classes.len() && #[trigger] classes[i].contains(c) ==> c.relation is Some,
        !has_bare_column(e),
    ensures
        !has_bare_column(normal(classes, e)),
    decreases e,
{
    match e {
        ExprView::Column(c) => {
            lemma_class_index(classes, c);
            if let Some(i) = class_index(classes, c) {
                assert(classes[i].contains(classes[i][0]));
            }
        },
        ExprView::Literal(_, _) => {},
        ExprView::BinaryExpr { left, right, .. } => {
            lemma_normal_qualified(classes, *left);
            lemma_normal_qualified(classes, *right);
        },
        ExprView::Not(x) => {
            lemma_normal_qualified(classes, *x);
        },
        ExprView::Alias { expr, .. } => {
            lemma_normal_qualified(classes, *expr);
        },
        ExprView::Other { id, children } => {
            let n = all_normal(classes, children);
            assert forall|i: int| 0 <= i < n.len() implies !(
            #[trigger] have_bare_columns(n)[i]) by {
                assert(n[i] == normal(classes, children[i]));
                assert(have_bare_columns(children)[i] == has_bare_column(children[i]));
                lemma_normal_qualified(classes, children[i]);
            }
            assert(!have_bare_columns(n).contains(true));
            assert(normal(classes, e) == (ExprView::Other { id, children: n }));
        },
    }
}

// ---------------------------------------------------------------------------
// Filters that a query has beyond those of a view
// ---------------------------------------------------------------------------

/// Two lists of filters hold where each of them does.
pub proof fn lemma_all_hold_add(engine: Engine, row: Row, a: Seq<ExprView>, b: Seq<ExprView>)
    ensures
        all_hold(engine, row, a + b) <==> all_hold(engine, row, a) && all_hold(engine, row, b),
{
    let s = a + b;
    if all_hold(engine, row, s) {
        assert forall|i: int| 0 <= i < a.len() implies holds(engine, row, #[trigger] a[i]) by {
            assert(s[i] == a[i]);
        }
        assert forall|i: int| 0 <= i < b.len() implies holds(engine, row, #[trigger] b[i]) by {
            assert(s[a.len() + i] == b[i]);
        }
    }
    if all_hold(engine, row, a) && all_hold(engine, row, b) {
        assert forall|i: int| 0 <= i < s.len() implies holds(engine, row, #[trigger] s[i]) by {
            if i < a.len() {
                assert(s[i] == a[i]);
            } else {
                assert(s[i] == b[i - a.len()]);
            }
        }
    }
}

/// The equalities of all classes hold where those of each class do.
proof fn lemma_equality_filters(
    engine: Engine,
    row: Row,
    classes: Seq<Seq<ColumnView>>,
    others: Seq<Seq<ColumnView>>,
)
    requires
        equality_filters(classes, others) is Some,
    ensures
        forall|j: int|
            0 <= j < others.len() ==> class_filters(classes, #[trigger] others[j]) is Some,
        all_hold(engine, row, equality_filters(classes, others)->0) <==> forall|j: int|
            0 <= j < others.len() ==> all_hold(
                engine,
                row,
                class_filters(classes, #[trigger] others[j])->0,
            ),
    decreases others.len(),
{
    if others.len() > 0 {
        let front = others.drop_last();
        lemma_equality_filters(engine, row, classes, front);
        let a = equality_filters(classes, front)->0;
        let b = class_filters(classes, others.last())->0;
        lemma_all_hold_add(engine, row, a, b);
        let n = others.len() - 1;
        assert(others[n] == others.last());
        assert forall|j: int| 0 <= j < others.len() implies class_filters(
            classes,
            #[trigger] others[j],
        ) is Some by {
            if j < n {
                assert(front[j] == others[j]);
            }
        }
        if all_hold(engine, row, a + b) {
            assert forall|j: int| 0 <= j < others.len() implies all_hold(
                engine,
                row,
                class_filters(classes, #[trigger] others[j])->0,
            ) by {
                if j < n {
                    assert(front[j] == others[j]);
                }
            }
        }
        if forall|j: int|
            0 <= j < others.len() ==> all_hold(
                engine,
                row,
                class_filters(classes, #[trigger] others[j])->0,
            ) {
            assert forall|j: int| 0 <= j < front.len() implies all_hold(
                engine,
                row,
                class_filters(classes, #[trigger] front[j])->0,
            ) by {
                assert(front[j] == others[j]);
            }
            assert(all_hold(engine, row, class_filters(classes, others[n])->0));
        }
    }
}

/// The filter that the range of one class adds.
pub open spec fn filter_of(q: PredicateView, v: PredicateView, i: int) -> Result<
    Option<Seq<ExprView>>,
    ErrorView,
> {
    range_filter(q.classes[i], q.ranges[i], v)
}

/// The bounds of all ranges hold where those of each range do.
proof fn lemma_range_filters(
    engine: Engine,
    row: Row,
    q: PredicateView,
    v: PredicateView,
    n: nat,
)
    requires
        range_filters(q, v, n) matches Ok(Some(_)),
    ensures
        forall|i: int| 0 <= i < n ==> (#[trigger] filter_of(q, v, i)) matches Ok(Some(_)),
        all_hold(engine, row, range_filters(q, v, n)->Ok_0->0) <==> forall|i: int|
            0 <= i < n ==> all_hold(engine, row, (#[trigger] filter_of(q, v, i))->Ok_0->0),
    decreases n,
{
    if n > 0 {
        let m = (n - 1) as nat;
        lemma_range_filters(engine, row, q, v, m);
        assert(filter_of(q, v, n - 1) matches Ok(Some(_)));
        let a = range_filters(q, v, m)->Ok_0->0;
        let b = filter_of(q, v, n - 1)->Ok_0->0;
        lemma_all_hold_add(engine, row, a, b);
        assert(range_filters(q, v, n)->Ok_0->0 == a + b);
    }
}

/// A column is in a list that it is found in.
pub proof fn lemma_first_known(classes: Seq<Seq<ColumnView>>, s: Seq<ColumnView>)
    ensures
        match first_known(classes, s) {
            Some(k) => 0 <= k < s.len() && class_index(classes, s[k]) is Some,
            None => forall|k: int|
                0 <= k < s.len() ==> class_index(classes, #[trigger] s[k]) is None,
        },
    decreases s.len(),
{
    if s.len() > 0 {
        let front = s.drop_last();
        lemma_first_known(classes, front);
        if first_known(classes, s) is None {
            assert forall|k: int| 0 <= k < s.len() implies class_index(
                classes,
                #[trigger] s[k],
            ) is None by {
                if k < front.len() {
                    assert(front[k] == s[k]);
                }
            }
        }
    }
}

/// A class that is found for a list of columns has one of them, and a range.
pub proof fn lemma_ranged_class(v: PredicateView, s: Seq<ColumnView>)
    ensures
        ranged_class(v, s) matches Some(j) ==> 0 <= j < v.classes.len() && v.ranges[j] is Some
            && exists|k: int| 0 <= k < s.len() && v.classes[j].contains(#[trigger] s[k]),
    decreases s.len(),
{
    if s.len() > 0 {
        let front = s.drop_last();
        lemma_ranged_class(v, front);
        if let Some(j) = ranged_class(v, s) {
            if ranged_class(v, front) is Some {
                let k = choose|k: int|
                    0 <= k < front.len() && v.classes[j].contains(#[trigger] front[k]);
                assert(s[k] == front[k]);
            } else {
                lemma_class_index(v.classes, s.last());
                assert(v.classes[j].contains(s[s.len() - 1]));
            }
        }
    }
}

/// A view's class that shares a column with a query's class is part of it.
proof fn lemma_class_within(
    q: PredicateView,
    v: PredicateView,
    i: int,
    j: int,
    c: ColumnView,
)
    requires
        q.well_formed(),
        v.well_formed(),
        0 <= i < q.classes.len(),
        0 <= j < v.classes.len(),
        q.classes[i].contains(c),
        v.classes[j].contains(c),
        class_filters(q.classes, v.classes[j]) is Some,
    ensures
        subset(v.classes[j], q.classes[i]),
        first_known(q.classes, v.classes[j]) is Some,
        ({
            let rep = v.classes[j][first_known(q.classes, v.classes[j])->0];
            &&& v.classes[j].contains(rep)
            &&& q.classes[i].contains(rep)
            &&& class_filters(q.classes, v.classes[j])->0 == equalities(
                rep,
                difference(q.classes[i], v.classes[j]),
            )
        }),
{
    let class = v.classes[j];
    lemma_first_known(q.classes, class);
    lemma_class_index_unique(q.classes, c, i);
    let n = choose|n: int| 0 <= n < class.len() && class[n] == c;
    assert(class_index(q.classes, class[n]) is Some);
    let k = first_known(q.classes, class)->0;
    let rep = class[k];
    let m = class_index(q.classes, rep)->0;
    lemma_class_index(q.classes, rep);
    assert(subset(class, q.classes[m]));
    assert(q.classes[m].contains(class[n]));
    assert(m == i);
}

/// A range that contains another has all its values.
proof fn lemma_contains(a: IntervalView, b: IntervalView, x: ScalarView)
    requires
        a.valid(),
        b.valid(),
        a.data_type() == b.data_type(),
        a.contains(b),
        x.data_type == a.data_type(),
        x.well_typed(),
    ensures
        member(b, x) ==> member(a, x),
{
    intersection_is_conjunction(a, b, x);
}

/// The range of all values contains every range of its type.
pub proof fn lemma_unbounded_contains(a: IntervalView)
    requires
        a.valid(),
    ensures
        unbounded(a.data_type()).contains(a),
{
    let t = a.data_type();
    let u = unbounded(t);
    if t.known() {
        if t is Boolean {
            assert(a.lower.value->0 is Boolean && a.upper.value->0 is Boolean);
        } else if t.unsigned() {
            assert(a.lower.value->0 is Integer);
            if !a.upper.is_null() {
                assert(a.upper.value->0 is Integer);
            }
        }
    }
    assert(u.intersection(a) == Some(a));
}

/// The filters that a column lies in a range that is not one of all values hold
/// exactly where it does.
proof fn lemma_within(engine: Engine, row: Row, c: ColumnView, range: IntervalView)
    requires
        engine.lawful(),
        range.valid(),
        range != unbounded(range.data_type()),
        row(c).data_type == range.data_type(),
        row(c).well_typed(),
    ensures
        all_hold(engine, row, within(c, range)) <==> member(range, row(c)),
{
    let column = ExprView::Column(c);
    let lower = ExprView::Literal(range.lower, None);
    let upper = ExprView::Literal(range.upper, None);
    let s = within(c, range);
    let x = row(c);
    assert(eval(engine, row, column) == x);
    assert(eval(engine, row, lower) == range.lower);
    assert(eval(engine, row, upper) == range.upper);
    let eq = comparison(column, Operator::Eq, lower);
    let ge = comparison(column, Operator::GtEq, lower);
    let le = comparison(column, Operator::LtEq, upper);
    assert(eval(engine, row, eq) == (engine.binary)(Operator::Eq, x, range.lower));
    assert(eval(engine, row, ge) == (engine.binary)(Operator::GtEq, x, range.lower));
    assert(eval(engine, row, le) == (engine.binary)(Operator::LtEq, x, range.upper));
    assert(holds(engine, row, eq) <==> compares(Operator::Eq, x, range.lower));
    assert(holds(engine, row, ge) <==> compares(Operator::GtEq, x, range.lower));
    assert(holds(engine, row, le) <==> compares(Operator::LtEq, x, range.upper));
    if range.is_point() {
        assert(s =~= seq![eq]);
        assert(all_hold(engine, row, s) <==> holds(engine, row, s[0]));
        if !x.is_null() {
            crate::rewrite::semantics::lemma_bounds_order(range.lower, range.upper, x);
        }
    } else {
        if !range.lower.is_null() && !range.upper.is_null() {
            assert(s =~= seq![ge, le]);
            assert(all_hold(engine, row, s) ==> holds(engine, row, s[0]) && holds(
                engine,
                row,
                s[1],
            ));
        } else if !range.lower.is_null() {
            assert(s =~= seq![ge]);
            assert(all_hold(engine, row, s) ==> holds(engine, row, s[0]));
        } else if !range.upper.is_null() {
            assert(s =~= seq![le]);
            assert(all_hold(engine, row, s) ==> holds(engine, row, s[0]));
        } else {
            assert(range == unbounded(range.data_type()));
        }
    }
}

/// A list holds where what another list lacks of it does, and the rest too.
proof fn lemma_missing(engine: Engine, row: Row, a: Seq<ExprView>, b: Seq<ExprView>)
    ensures
        all_hold(engine, row, a) ==> all_hold(engine, row, missing(a, b)),
        all_hold(engine, row, missing(a, b)) && (forall|i: int|
            0 <= i < a.len() && b.contains(#[trigger] a[i]) ==> holds(engine, row, a[i]))
            ==> all_hold(engine, row, a),
    decreases a.len(),
{
    if a.len() > 0 {
        let front = a.drop_last();
        let last = a.last();
        let n = a.len() - 1;
        assert(a[n] == last);
        lemma_missing(engine, row, front, b);
        assert(forall|i: int| 0 <= i < front.len() ==> #[trigger] front[i] == a[i]);
        let m = missing(front, b);
        lemma_all_hold_add(engine, row, m, seq![last]);
        assert(m + seq![last] =~= m.push(last));
        assert(all_hold(engine, row, seq![last]) <==> holds(engine, row, seq![last][0]));
        lemma_all_hold_add(engine, row, front, seq![last]);
        assert(front + seq![last] =~= a);
        if all_hold(engine, row, missing(a, b)) && (forall|i: int|
            0 <= i < a.len() && b.contains(#[trigger] a[i]) ==> holds(engine, row, a[i])) {
            assert forall|i: int|
                0 <= i < front.len() && b.contains(#[trigger] front[i]) implies holds(
                engine,
                row,
                front[i],
            ) by {
                assert(front[i] == a[i]);
            }
            if b.contains(last) {
                assert(b.contains(a[n]));
            }
        }
    }
}

/// Normal filters hold where the filters do, on every row on which the classes
/// hold.
proof fn lemma_all_normal(
    engine: Engine,
    row: Row,
    classes: Seq<Seq<ColumnView>>,
    s: Seq<ExprView>,
)
    requires
        forall|i: int| 0 <= i < classes.len() ==> class_holds(row, #[trigger] classes[i]),
    ensures
        all_hold(engine, row, all_normal(classes, s)) <==> all_hold(engine, row, s),
        forall|i: int|
            0 <= i < s.len() ==> (holds(engine, row, #[trigger] all_normal(classes, s)[i])
                <==> holds(engine, row, s[i])),
{
    let n = all_normal(classes, s);
    assert forall|i: int| 0 <= i < s.len() implies (holds(engine, row, #[trigger] n[i]) <==> holds(
        engine,
        row,
        s[i],
    )) by {
        normal_keeps_value(engine, row, classes, s[i]);
    }
    if all_hold(engine, row, n) {
        assert forall|i: int| 0 <= i < s.len() implies holds(engine, row, #[trigger] s[i]) by {
            assert(holds(engine, row, n[i]));
        }
    }
    if all_hold(engine, row, s) {
        assert forall|i: int| 0 <= i < n.len() implies holds(engine, row, #[trigger] n[i]) by {
            assert(holds(engine, row, s[i]));
        }
    }
}

/// An equality of two columns of one type is true where they have one value,
/// which is not null.
proof fn lemma_equality(engine: Engine, row: Row, a: ColumnView, b: ColumnView)
    requires
        engine.lawful(),
        row(a).data_type == row(b).data_type,
    ensures
        holds(
            engine,
            row,
            comparison(ExprView::Column(a), Operator::Eq, ExprView::Column(b)),
        ) <==> row(a) == row(b) && !row(a).is_null(),
{
    let e = comparison(ExprView::Column(a), Operator::Eq, ExprView::Column(b));
    assert(eval(engine, row, ExprView::Column(a)) == row(a));
    assert(eval(engine, row, ExprView::Column(b)) == row(b));
    assert(eval(engine, row, e) == (engine.binary)(Operator::Eq, row(a), row(b)));
    assert(holds(engine, row, e) <==> compares(Operator::Eq, row(a), row(b)));
}

/// The class of a view that a class of a query is compared with, and a column
/// that both have.
proof fn lemma_compared_class(
    engine: Engine,
    row: Row,
    q: PredicateView,
    v: PredicateView,
    i: int,
) -> (r: (int, ColumnView))
    requires
        q.well_formed(),
        v.well_formed(),
        0 <= i < q.classes.len(),
        q.ranges[i] is Some,
        equality_filters(q.classes, v.classes) is Some,
        filter_of(q, v, i) matches Ok(Some(_)),
    ensures
        ranged_class(v, q.classes[i]) == Some(r.0),
        0 <= r.0 < v.classes.len(),
        v.ranges[r.0] is Some,
        q.classes[i].contains(r.1),
        v.classes[r.0].contains(r.1),
        class_filters(q.classes, v.classes[r.0]) is Some,
        v.ranges[r.0]->0.data_type() == q.ranges[i]->0.data_type(),
        v.ranges[r.0]->0.contains(q.ranges[i]->0),
        filter_of(q, v, i)->Ok_0->0 == (if q.ranges[i]->0.contains(v.ranges[r.0]->0) {
            Seq::empty()
        } else {
            within(v.classes[r.0][0], q.ranges[i]->0)
        }),
{
    let class = q.classes[i];
    lemma_ranged_class(v, class);
    lemma_equality_filters(engine, row, q.classes, v.classes);
    let j = ranged_class(v, class)->0;
    let k = choose|k: int| 0 <= k < class.len() && v.classes[j].contains(#[trigger] class[k]);
    assert(class.contains(class[k]));
    assert(class_filters(q.classes, v.classes[j]) is Some);
    lemma_class_index_unique(v.classes, class[k], j);
    (j, class[k])
}

/// On a row that a view's predicate describes and that passes the filters that a
/// query has beyond it, the classes of the query hold.
proof fn lemma_query_class_holds(
    engine: Engine,
    row: Row,
    q: PredicateView,
    v: PredicateView,
    i: int,
)
    requires
        engine.lawful(),
        q.well_formed(),
        v.well_formed(),
        classes_typed(row, q),
        0 <= i < q.classes.len(),
        q.ranges[i] is Some,
        equality_filters(q.classes, v.classes) is Some,
        filter_of(q, v, i) matches Ok(Some(_)),
        satisfies(engine, row, v),
        all_hold(engine, row, equality_filters(q.classes, v.classes)->0),
    ensures
        class_holds(row, q.classes[i]),
{
    let wide = q.classes[i];
    let (j, c) = lemma_compared_class(engine, row, q, v, i);
    let class = v.classes[j];
    lemma_equality_filters(engine, row, q.classes, v.classes);
    lemma_class_within(q, v, i, j, c);
    let rep = class[first_known(q.classes, class)->0];
    let rest = difference(wide, class);
    lemma_difference(wide, class);
    assert(class_holds(row, v.classes[j]));
    assert(all_hold(engine, row, class_filters(q.classes, v.classes[j])->0));
    let filters = equalities(rep, rest);
    assert forall|x: ColumnView| #[trigger] rest.contains(x) implies row(x) == row(rep) && !row(
        rep,
    ).is_null() by {
        let n = choose|n: int| 0 <= n < rest.len() && rest[n] == x;
        assert(holds(engine, row, filters[n]));
        assert(q.classes[i].contains(x) && q.classes[i].contains(rep));
        lemma_equality(engine, row, rep, x);
    }
    if wide.len() > 1 {
        crate::rewrite::semantics::lemma_class_of_one_value(row, class, rep);
        assert forall|x: ColumnView| #[trigger] wide.contains(x) implies row(x) == row(rep) by {
            assert(class.contains(x) || rest.contains(x));
        }
        assert(wide.contains(wide[0]) && wide.contains(wide[1]));
        if class.len() == 1 {
            assert(wide[0].lt(wide[1]));
            crate::names::lemma_column_lt_irreflexive(wide[0]);
            if class.contains(wide[0]) && class.contains(wide[1]) {
                assert(wide[0] == class[0] && wide[1] == class[0]);
            }
            assert(rest.contains(wide[0]) || rest.contains(wide[1]));
        } else {
            assert(class.contains(class[0]));
        }
    }
}

/// Every row that a view's predicate describes and that passes the filters that
/// a query has beyond it is one that the query's predicate describes.
pub proof fn no_wrong_rows(engine: Engine, row: Row, q: PredicateView, v: PredicateView)
    requires
        engine.lawful(),
        q.well_formed(),
        v.well_formed(),
        classes_typed(row, q),
        classes_typed(row, v),
        extra_filters(q, v) matches Ok(Some(_)),
        satisfies(engine, row, v),
        all_hold(engine, row, extra_filters(q, v)->Ok_0->0),
    ensures
        satisfies(engine, row, q),
{
    let n = q.classes.len();
    let a = equality_filters(q.classes, v.classes)->0;
    let b = range_filters(q, v, n)->Ok_0->0;
    let c = residual_filters(q, v)->0;
    lemma_all_hold_add(engine, row, a + b, c);
    lemma_all_hold_add(engine, row, a, b);
    lemma_range_filters(engine, row, q, v, n);
    assert forall|i: int| 0 <= i < n implies q.ranges[i] is Some && class_holds(
        row,
        #[trigger] q.classes[i],
    ) by {
        assert(filter_of(q, v, i) matches Ok(Some(_)));
        if q.ranges[i] is None {
            assert(all_hold(engine, row, filter_of(q, v, i)->Ok_0->0));
            let f = seq![never()];
            assert(filter_of(q, v, i)->Ok_0->0 == f);
            assert(holds(engine, row, f[0]));
            assert(eval(engine, row, never()).value == Some(Datum::Boolean(false)));
        }
        lemma_query_class_holds(engine, row, q, v, i);
    }
    assert forall|i: int| 0 <= i < n implies range_holds(
        row,
        #[trigger] q.classes[i],
        q.ranges[i],
    ) by {
        assert(filter_of(q, v, i) matches Ok(Some(_)));
        assert(all_hold(engine, row, filter_of(q, v, i)->Ok_0->0));
        let (j, shared) = lemma_compared_class(engine, row, q, v, i);
        let inner = q.ranges[i]->0;
        let outer = v.ranges[j]->0;
        let class = v.classes[j];
        let first = class[0];
        assert(class.contains(first));
        assert(class_holds(row, v.classes[j]));
        assert(range_holds(row, v.classes[j], v.ranges[j]));
        crate::rewrite::semantics::lemma_class_of_one_value(row, class, shared);
        assert(v.classes[j].contains(first));
        assert(class_holds(row, q.classes[i]));
        crate::rewrite::semantics::lemma_class_of_one_value(row, q.classes[i], shared);
        if inner.contains(outer) {
            lemma_contains(inner, outer, row(first));
        } else {
            if inner == unbounded(inner.data_type()) {
                lemma_unbounded_contains(outer);
            }
            lemma_within(engine, row, first, inner);
        }
        assert(member(inner, row(first)));
    }
    let mine = all_normal(q.classes, q.residuals);
    let theirs = all_normal(q.classes, v.residuals);
    lemma_all_normal(engine, row, q.classes, q.residuals);
    lemma_all_normal(engine, row, q.classes, v.residuals);
    assert(all_hold(engine, row, v.residuals));
    assert forall|i: int|
        0 <= i < mine.len() && theirs.contains(#[trigger] mine[i]) implies holds(
        engine,
        row,
        mine[i],
    ) by {
        let k = choose|k: int| 0 <= k < theirs.len() && theirs[k] == mine[i];
        assert(holds(engine, row, theirs[k]));
    }
    lemma_missing(engine, row, mine, theirs);
}

/// Every range of a view that bears on a class of a query contains the range of
/// that class, and a class of a view that the query does not have says nothing,
/// where the query describes any row.
pub open spec fn ranges_contained(q: PredicateView, v: PredicateView) -> bool {
    &&& forall|i: int, j: int, c: ColumnView|
        0 <= i < q.classes.len() && 0 <= j < v.classes.len() && #[trigger] q.classes[i].contains(c)
            && #[trigger] v.classes[j].contains(c) && q.ranges[i] is Some ==> {
            &&& v.ranges[j] is Some
            &&& v.ranges[j]->0.data_type() == q.ranges[i]->0.data_type()
            &&& v.ranges[j]->0.contains(q.ranges[i]->0)
        }
    &&& forall|j: int|
        0 <= j < v.classes.len() && first_known(q.classes, #[trigger] v.classes[j]) is None
            && !describes_nothing(q) ==> {
            &&& v.ranges[j] is Some
            &&& v.ranges[j]->0 == unbounded(v.ranges[j]->0.data_type())
        }
}

/// Where a query can be answered from a view, the ranges of the view contain
/// those of the query.
pub proof fn answered_ranges_are_contained(q: PredicateView, v: PredicateView)
    requires
        q.well_formed(),
        v.well_formed(),
        all_range_filters(q, v) matches Ok(Some(_)),
    ensures
        ranges_contained(q, v),
{
    assert forall|i: int, j: int, c: ColumnView|
        0 <= i < q.classes.len() && 0 <= j < v.classes.len() && #[trigger] q.classes[i].contains(c)
            && #[trigger] v.classes[j].contains(c) && q.ranges[i] is Some implies {
        &&& v.ranges[j] is Some
        &&& v.ranges[j]->0.data_type() == q.ranges[i]->0.data_type()
        &&& v.ranges[j]->0.contains(q.ranges[i]->0)
    } by {
        let class = q.classes[i];
        lemma_each_range_filter(q, v, q.classes.len(), i);
        let k = choose|k: int| 0 <= k < class.len() && class[k] == c;
        lemma_class_index_unique(v.classes, class[k], j);
        assert(all_enclose(v, class, q.ranges[i]->0));
    }
    assert(describes_nothing(q) || unknown_say_nothing(q, v));
}

/// Where the ranges of the first classes add filters, each of them does.
pub proof fn lemma_each_range_filter(q: PredicateView, v: PredicateView, n: nat, i: int)
    requires
        range_filters(q, v, n) matches Ok(Some(_)),
        0 <= i < n,
    ensures
        range_filter(q.classes[i], q.ranges[i], v) matches Ok(Some(_)),
    decreases n,
{
    if i < n - 1 {
        lemma_each_range_filter(q, v, (n - 1) as nat, i);
    }
}

/// Every row that a query's predicate describes is one that the view's predicate
/// describes, and passes the filters that the query has beyond it.
pub proof fn no_missing_rows(engine: Engine, row: Row, q: PredicateView, v: PredicateView)
    requires
        engine.lawful(),
        q.well_formed(),
        v.well_formed(),
        classes_typed(row, q),
        classes_typed(row, v),
        extra_filters(q, v) matches Ok(Some(_)),
        satisfies(engine, row, q),
    ensures
        satisfies(engine, row, v),
        all_hold(engine, row, extra_filters(q, v)->Ok_0->0),
{
    let n = q.classes.len();
    let a = equality_filters(q.classes, v.classes)->0;
    let b = range_filters(q, v, n)->Ok_0->0;
    let c = residual_filters(q, v)->0;
    answered_ranges_are_contained(q, v);
    lemma_equality_filters(engine, row, q.classes, v.classes);
    lemma_range_filters(engine, row, q, v, n);
    lemma_all_hold_add(engine, row, a + b, c);
    lemma_all_hold_add(engine, row, a, b);
    assert forall|j: int| 0 <= j < v.classes.len() implies {
        &&& class_holds(row, #[trigger] v.classes[j])
        &&& range_holds(row, v.classes[j], v.ranges[j])
        &&& all_hold(engine, row, class_filters(q.classes, v.classes[j])->0)
    } by {
        lemma_view_class_holds(engine, row, q, v, j);
    }
    assert forall|i: int| 0 <= i < n implies all_hold(
        engine,
        row,
        (#[trigger] filter_of(q, v, i))->Ok_0->0,
    ) by {
        assert(range_holds(row, q.classes[i], q.ranges[i]));
        assert(class_holds(row, q.classes[i]));
        let (j, shared) = lemma_compared_class(engine, row, q, v, i);
        let inner = q.ranges[i]->0;
        let outer = v.ranges[j]->0;
        if !inner.contains(outer) {
            let first = v.classes[j][0];
            lemma_class_within(q, v, i, j, shared);
            assert(q.classes[i].contains(v.classes[j][0]));
            assert(member(inner, row(first)));
            if inner == unbounded(inner.data_type()) {
                lemma_unbounded_contains(outer);
            }
            lemma_within(engine, row, first, inner);
        }
    }
    let mine = all_normal(q.classes, q.residuals);
    let theirs = all_normal(q.classes, v.residuals);
    assert forall|i: int| 0 <= i < n implies class_holds(row, #[trigger] q.classes[i]) by {}
    lemma_all_normal(engine, row, q.classes, q.residuals);
    lemma_all_normal(engine, row, q.classes, v.residuals);
    assert forall|k: int| 0 <= k < theirs.len() implies holds(
        engine,
        row,
        #[trigger] theirs[k],
    ) by {
        assert(mine.contains(theirs[k]));
        let i = choose|i: int| 0 <= i < mine.len() && mine[i] == theirs[k];
        assert(holds(engine, row, mine[i]));
    }
    lemma_missing(engine, row, mine, theirs);
}

/// On a row that a query's predicate describes, what the classes of a view say
/// holds, and what the query says beyond them.
proof fn lemma_view_class_holds(
    engine: Engine,
    row: Row,
    q: PredicateView,
    v: PredicateView,
    j: int,
)
    requires
        engine.lawful(),
        q.well_formed(),
        v.well_formed(),
        classes_typed(row, q),
        classes_typed(row, v),
        ranges_contained(q, v),
        equality_filters(q.classes, v.classes) is Some,
        satisfies(engine, row, q),
        0 <= j < v.classes.len(),
    ensures
        class_holds(row, v.classes[j]),
        range_holds(row, v.classes[j], v.ranges[j]),
        all_hold(engine, row, class_filters(q.classes, v.classes[j])->0),
{
    let class = v.classes[j];
    lemma_equality_filters(engine, row, q.classes, v.classes);
    assert(class_filters(q.classes, v.classes[j]) is Some);
    lemma_first_known(q.classes, class);
    match first_known(q.classes, class) {
        None => {
            if describes_nothing(q) {
                let i = choose|i: int| 0 <= i < q.ranges.len() && (#[trigger] q.ranges[i]) is None;
                assert(range_holds(row, q.classes[i], q.ranges[i]));
            }
            assert(v.ranges[j] is Some);
        },
        Some(k) => {
            let rep = class[k];
            assert(class.contains(rep));
            lemma_class_index(q.classes, rep);
            let i = class_index(q.classes, rep)->0;
            let wide = q.classes[i];
            lemma_class_within(q, v, i, j, rep);
            assert(class_holds(row, q.classes[i]));
            assert(range_holds(row, q.classes[i], q.ranges[i]));
            crate::rewrite::semantics::lemma_class_of_one_value(row, wide, rep);
            assert forall|x: ColumnView| #[trigger] class.contains(x) implies wide.contains(x) by {
                let m = choose|m: int| 0 <= m < class.len() && class[m] == x;
                assert(wide.contains(class[m]));
            }
            if class.len() > 1 {
                assert(class[0].lt(class[1]));
                crate::names::lemma_column_lt_irreflexive(class[0]);
                assert(class.contains(class[0]) && class.contains(class[1]));
                lemma_two_columns(wide, class[0], class[1]);
                assert(wide.contains(wide[0]));
            }
            assert forall|x: ColumnView| #[trigger] class.contains(x) implies member(
                v.ranges[j]->0,
                row(x),
            ) by {
                assert(q.classes[i].contains(x));
                assert(v.classes[j].contains(x));
                lemma_contains(v.ranges[j]->0, q.ranges[i]->0, row(x));
            }
            let rest = difference(wide, class);
            let filters = equalities(rep, rest);
            lemma_difference(wide, class);
            assert forall|m: int| 0 <= m < filters.len() implies holds(
                engine,
                row,
                #[trigger] filters[m],
            ) by {
                let x = rest[m];
                assert(rest.contains(x));
                assert(q.classes[i].contains(x) && q.classes[i].contains(rep));
                assert(x != rep);
                lemma_two_columns(wide, x, rep);
                assert(wide.contains(wide[0]));
                lemma_equality(engine, row, rep, x);
            }
        },
    }
}

/// A list that has two columns has more than one.
proof fn lemma_two_columns(s: Seq<ColumnView>, a: ColumnView, b: ColumnView)
    requires
        s.contains(a),
        s.contains(b),
        a != b,
    ensures
        s.len() > 1,
{
    let i = choose|i: int| 0 <= i < s.len() && s[i] == a;
    let j = choose|j: int| 0 <= j < s.len() && s[j] == b;
    assert(i != j);
}

// ---------------------------------------------------------------------------
// Rewrites
// ---------------------------------------------------------------------------

/// Every column of the classes names its table.
pub open spec fn name_tables(classes: Seq<Seq<ColumnView>>) -> bool {
    forall|i: int, c: ColumnView|
        0 <= i < classes.len() && #[trigger] classes[i].contains(c) ==> c.relation is Some
}

/// What a query and a view must have for a rewrite to be judged: each output of
/// the view is a field under a name of its own, and each column names its table.
pub open spec fn matchable(query: SpjView, view: SpjView) -> bool {
    &&& query.aligned()
    &&& view.aligned()
    &&& distinct_names(view)
    &&& query.predicate.well_formed()
    &&& view.predicate.well_formed()
    &&& name_tables(query.predicate.classes)
    &&& name_tables(view.predicate.classes)
    &&& forall|i: int|
        0 <= i < query.predicate.residuals.len() ==> !has_bare_column(
            #[trigger] query.predicate.residuals[i],
        )
    &&& forall|i: int|
        0 <= i < query.output_exprs.len() ==> !has_bare_column(#[trigger] query.output_exprs[i])
}

/// The row passes the filter of a rewrite, where it has one.
pub open spec fn passes(engine: Engine, row: Row, rewrite: RewriteView) -> bool {
    rewrite.filter is Some ==> holds(engine, row, rewrite.filter->0)
}

/// A conjunction holds where every part does, and names a table where a part
/// does.
pub proof fn lemma_conjunction(engine: Engine, row: Row, s: Seq<ExprView>)
    requires
        engine.lawful(),
    ensures
        conjunction(s) is None <==> s.len() == 0,
        conjunction(s) is Some ==> (holds(engine, row, conjunction(s)->0) <==> all_hold(
            engine,
            row,
            s,
        )),
        conjunction(s) is Some && !conjunction(s)->0.has_qualified_column() ==> forall|i: int|
            0 <= i < s.len() ==> !(#[trigger] s[i]).has_qualified_column(),
    decreases s.len(),
{
    if s.len() > 0 {
        let front = s.drop_last();
        let last = s.last();
        lemma_conjunction(engine, row, front);
        lemma_all_hold_add(engine, row, front, seq![last]);
        assert(front + seq![last] =~= s);
        assert(all_hold(engine, row, seq![last]) <==> holds(engine, row, seq![last][0]));
        if let Some(e) = conjunction(front) {
            let both = comparison(e, Operator::And, last);
            assert(eval(engine, row, both) == (engine.binary)(
                Operator::And,
                eval(engine, row, e),
                eval(engine, row, last),
            ));
            assert(both.has_qualified_column() == (e.has_qualified_column()
                || last.has_qualified_column()));
            if !both.has_qualified_column() {
                assert forall|i: int| 0 <= i < s.len() implies !(
                #[trigger] s[i]).has_qualified_column() by {
                    if i < front.len() {
                        assert(front[i] == s[i]);
                    }
                }
            }
        } else {
            assert(front.len() == 0);
            assert(s =~= seq![last]);
        }
    }
}

/// Every filter that a query has beyond those of a view names the table of each
/// column.
proof fn lemma_extra_filters_qualified(q: PredicateView, v: PredicateView)
    requires
        q.well_formed(),
        v.well_formed(),
        name_tables(q.classes),
        name_tables(v.classes),
        forall|i: int| 0 <= i < q.residuals.len() ==> !has_bare_column(#[trigger] q.residuals[i]),
        extra_filters(q, v) matches Ok(Some(_)),
    ensures
        forall|i: int|
            0 <= i < extra_filters(q, v)->Ok_0->0.len() ==> !has_bare_column(
                #[trigger] (extra_filters(q, v)->Ok_0->0)[i],
            ),
{
    let a = equality_filters(q.classes, v.classes)->0;
    let b = range_filters(q, v, q.classes.len())->Ok_0->0;
    let c = residual_filters(q, v)->0;
    lemma_equalities_qualified(q, v, v.classes);
    lemma_ranges_qualified(q, v, q.classes.len());
    let mine = all_normal(q.classes, q.residuals);
    let theirs = all_normal(q.classes, v.residuals);
    assert forall|i: int| 0 <= i < mine.len() implies !has_bare_column(#[trigger] mine[i]) by {
        lemma_normal_qualified(q.classes, q.residuals[i]);
    }
    lemma_missing_qualified(mine, theirs);
    let s = a + b + c;
    assert forall|i: int| 0 <= i < s.len() implies !has_bare_column(#[trigger] s[i]) by {
        if i < a.len() {
            assert(s[i] == a[i]);
        } else if i < a.len() + b.len() {
            assert(s[i] == b[i - a.len()]);
        } else {
            assert(s[i] == c[i - a.len() - b.len()]);
        }
    }
}

/// A comparison of a column with something that has no bare column has none
/// where the column names its table.
proof fn lemma_comparison_qualified(c: ColumnView, op: Operator, e: ExprView)
    requires
        c.relation is Some,
        !has_bare_column(e),
    ensures
        !has_bare_column(comparison(ExprView::Column(c), op, e)),
{
    assert(!has_bare_column(ExprView::Column(c)));
}

proof fn lemma_equalities_qualified(
    q: PredicateView,
    v: PredicateView,
    others: Seq<Seq<ColumnView>>,
)
    requires
        q.well_formed(),
        name_tables(q.classes),
        forall|j: int, c: ColumnView|
            0 <= j < others.len() && #[trigger] others[j].contains(c) ==> c.relation is Some,
        equality_filters(q.classes, others) is Some,
    ensures
        forall|i: int|
            0 <= i < equality_filters(q.classes, others)->0.len() ==> !has_bare_column(
                #[trigger] (equality_filters(q.classes, others)->0)[i],
            ),
    decreases others.len(),
{
    if others.len() > 0 {
        let front = others.drop_last();
        let last = others.last();
        assert forall|j: int, c: ColumnView|
            0 <= j < front.len() && #[trigger] front[j].contains(c) implies c.relation is Some by {
            assert(others[j].contains(c));
        }
        lemma_equalities_qualified(q, v, front);
        let a = equality_filters(q.classes, front)->0;
        let b = class_filters(q.classes, last)->0;
        lemma_first_known(q.classes, last);
        assert forall|i: int| 0 <= i < b.len() implies !has_bare_column(#[trigger] b[i]) by {
            let k = first_known(q.classes, last)->0;
            let m = class_index(q.classes, last[k])->0;
            lemma_class_index(q.classes, last[k]);
            let rest = difference(q.classes[m], last);
            lemma_difference(q.classes[m], last);
            assert(last.contains(last[k]));
            assert(others[others.len() - 1].contains(last[k]));
            assert(rest.contains(rest[i]));
            assert(q.classes[m].contains(rest[i]));
            assert(!has_bare_column(ExprView::Column(rest[i])));
            lemma_comparison_qualified(last[k], Operator::Eq, ExprView::Column(rest[i]));
        }
        let s = a + b;
        assert forall|i: int| 0 <= i < s.len() implies !has_bare_column(#[trigger] s[i]) by {
            if i < a.len() {
                assert(s[i] == a[i]);
            } else {
                assert(s[i] == b[i - a.len()]);
            }
        }
    }
}

proof fn lemma_ranges_qualified(q: PredicateView, v: PredicateView, n: nat)
    requires
        v.well_formed(),
        name_tables(v.classes),
        range_filters(q, v, n) matches Ok(Some(_)),
    ensures
        forall|i: int|
            0 <= i < range_filters(q, v, n)->Ok_0->0.len() ==> !has_bare_column(
                #[trigger] (range_filters(q, v, n)->Ok_0->0)[i],
            ),
    decreases n,
{
    if n > 0 {
        lemma_ranges_qualified(q, v, (n - 1) as nat);
        let a = range_filters(q, v, (n - 1) as nat)->Ok_0->0;
        let b = range_filter(q.classes[n - 1], q.ranges[n - 1], v)->Ok_0->0;
        assert forall|i: int| 0 <= i < b.len() implies !has_bare_column(#[trigger] b[i]) by {
            if let Some(range) = q.ranges[n - 1] {
                lemma_ranged_class(v, q.classes[n - 1]);
                let j = ranged_class(v, q.classes[n - 1])->0;
                let first = v.classes[j][0];
                assert(v.classes[j].contains(first));
                let lower = ExprView::Literal(range.lower, None);
                let upper = ExprView::Literal(range.upper, None);
                assert(!has_bare_column(lower) && !has_bare_column(upper));
                lemma_comparison_qualified(first, Operator::Eq, lower);
                lemma_comparison_qualified(first, Operator::GtEq, lower);
                lemma_comparison_qualified(first, Operator::LtEq, upper);
            }
        }
        let s = a + b;
        assert forall|i: int| 0 <= i < s.len() implies !has_bare_column(#[trigger] s[i]) by {
            if i < a.len() {
                assert(s[i] == a[i]);
            } else {
                assert(s[i] == b[i - a.len()]);
            }
        }
    }
}

proof fn lemma_missing_qualified(a: Seq<ExprView>, b: Seq<ExprView>)
    requires
        forall|i: int| 0 <= i < a.len() ==> !has_bare_column(#[trigger] a[i]),
    ensures
        forall|i: int|
            0 <= i < missing(a, b).len() ==> !has_bare_column(#[trigger] missing(a, b)[i]),
    decreases a.len(),
{
    if a.len() > 0 {
        let front = a.drop_last();
        assert(forall|i: int| 0 <= i < front.len() ==> #[trigger] front[i] == a[i]);
        lemma_missing_qualified(front, b);
        assert(a[a.len() - 1] == a.last());
        let m = missing(front, b);
        assert forall|i: int| 0 <= i < missing(a, b).len() implies !has_bare_column(
            #[trigger] missing(a, b)[i],
        ) by {
            if i < m.len() {
                assert(missing(a, b)[i] == m[i]);
            }
        }
    }
}

/// The filter of a rewrite holds of the row that a view outputs where the
/// filters that the query has beyond the view hold of the row of the table.
proof fn lemma_filter_over_output(
    engine: Engine,
    row: Row,
    query: SpjView,
    view: SpjView,
    rewrite: RewriteView,
)
    requires
        engine.lawful(),
        matchable(query, view),
        rewritten(query, view) == Ok::<Option<RewriteView>, ErrorView>(Some(rewrite)),
    ensures
        passes(engine, output_row(engine, row, view), rewrite) <==> all_hold(
            engine,
            row,
            extra_filters(query.predicate, view.predicate)->Ok_0->0,
        ),
{
    let out = output_row(engine, row, view);
    let s = extra_filters(query.predicate, view.predicate)->Ok_0->0;
    let t = all_over_output(view, s);
    lemma_conjunction(engine, out, t);
    lemma_extra_filters_qualified(query.predicate, view.predicate);
    if s.len() > 0 {
        assert(!conjunction(t)->0.has_qualified_column());
        assert forall|i: int| 0 <= i < s.len() implies (holds(engine, out, #[trigger] t[i])
            <==> holds(engine, row, s[i])) by {
            assert(t[i] == over_output(view, s[i]));
            over_output_keeps_value(engine, row, view, s[i]);
        }
        if all_hold(engine, out, t) {
            assert forall|i: int| 0 <= i < s.len() implies holds(engine, row, #[trigger] s[i]) by {
                assert(holds(engine, out, t[i]));
            }
        }
        if all_hold(engine, row, s) {
            assert forall|i: int| 0 <= i < t.len() implies holds(engine, out, #[trigger] t[i]) by {
                assert(holds(engine, row, s[i]));
            }
        }
    }
}

/// The outputs of a rewrite are those of the query, over the output of the view
/// and each without a column of a table.
pub proof fn lemma_projection(query: SpjView, view: SpjView, n: nat)
    requires
        n <= query.output_exprs.len(),
        projection(query, view, n) is Some,
    ensures
        projection(query, view, n)->0.len() == n,
        forall|i: int|
            0 <= i < n ==> ({
                let e = over_output(
                    view,
                    normal(view.predicate.classes, query.output_exprs[i]),
                );
                &&& !e.has_qualified_column()
                &&& #[trigger] (projection(query, view, n)->0)[i] == (ExprView::Alias {
                    expr: Box::new(e),
                    relation: query.output_schema[i].column.relation,
                    name: query.output_schema[i].column.name,
                    metadata: None,
                })
            }),
    decreases n,
{
    if n > 0 {
        lemma_projection(query, view, (n - 1) as nat);
    }
}

/// A rewrite outputs, on the row that the view outputs for a row of the table,
/// what the query outputs for that row, under the names of the query's fields.
pub proof fn rewrite_outputs_query(
    engine: Engine,
    row: Row,
    query: SpjView,
    view: SpjView,
    rewrite: RewriteView,
)
    requires
        engine.lawful(),
        matchable(query, view),
        rewritten(query, view) == Ok::<Option<RewriteView>, ErrorView>(Some(rewrite)),
        satisfies(engine, row, view.predicate),
    ensures
        rewrite.projection.len() == query.output_exprs.len(),
        forall|i: int|
            0 <= i < query.output_exprs.len() ==> {
                &&& eval(
                    engine,
                    output_row(engine, row, view),
                    #[trigger] rewrite.projection[i],
                ) == eval(engine, row, query.output_exprs[i])
                &&& rewrite.projection[i] is Alias
                &&& rewrite.projection[i]->relation == query.output_schema[i].column.relation
                &&& rewrite.projection[i]->name == query.output_schema[i].column.name
            },
{
    let out = output_row(engine, row, view);
    let classes = view.predicate.classes;
    lemma_projection(query, view, query.output_exprs.len());
    assert forall|i: int| 0 <= i < query.output_exprs.len() implies {
        &&& eval(engine, out, #[trigger] rewrite.projection[i]) == eval(
            engine,
            row,
            query.output_exprs[i],
        )
        &&& rewrite.projection[i] is Alias
        &&& rewrite.projection[i]->relation == query.output_schema[i].column.relation
        &&& rewrite.projection[i]->name == query.output_schema[i].column.name
    } by {
        let e = query.output_exprs[i];
        let n = normal(classes, e);
        lemma_normal_qualified(classes, e);
        over_output_keeps_value(engine, row, view, n);
        normal_keeps_value(engine, row, classes, e);
        assert(eval(engine, out, rewrite.projection[i]) == eval(engine, out, over_output(view, n)));
    }
}

/// A rewrite gives no row that the query does not: of the rows of a view, those
/// that pass the filter of the rewrite are rows that the query's predicate
/// describes.
pub proof fn rewrite_gives_no_wrong_row(
    engine: Engine,
    row: Row,
    query: SpjView,
    view: SpjView,
    rewrite: RewriteView,
)
    requires
        engine.lawful(),
        matchable(query, view),
        classes_typed(row, query.predicate),
        classes_typed(row, view.predicate),
        rewritten(query, view) == Ok::<Option<RewriteView>, ErrorView>(Some(rewrite)),
        satisfies(engine, row, view.predicate),
        passes(engine, output_row(engine, row, view), rewrite),
    ensures
        satisfies(engine, row, query.predicate),
{
    lemma_filter_over_output(engine, row, query, view, rewrite);
    no_wrong_rows(engine, row, query.predicate, view.predicate);
}

/// A rewrite loses no row of the query: every row that the query's predicate
/// describes is one of the view, and passes the filter of the rewrite.
pub proof fn rewrite_loses_no_row(
    engine: Engine,
    row: Row,
    query: SpjView,
    view: SpjView,
    rewrite: RewriteView,
)
    requires
        engine.lawful(),
        matchable(query, view),
        classes_typed(row, query.predicate),
        classes_typed(row, view.predicate),
        rewritten(query, view) == Ok::<Option<RewriteView>, ErrorView>(Some(rewrite)),
        satisfies(engine, row, query.predicate),
    ensures
        satisfies(engine, row, view.predicate),
        passes(engine, output_row(engine, row, view), rewrite),
{
    lemma_filter_over_output(engine, row, query, view, rewrite);
    no_missing_rows(engine, row, query.predicate, view.predicate);
}

} // verus!
