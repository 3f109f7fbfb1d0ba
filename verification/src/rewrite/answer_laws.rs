//! When a view answers a query: a view that has all that a query needs is not
//! refused.
use vstd::prelude::*;

use crate::error::ErrorView;
use crate::expr::{
    all_conjuncts, have_qualified_columns, lemma_position, negated, position, swapped, ExprView,
    Operator,
};
use crate::interval::{cast, lemma_intersection_valid, unbounded, IntervalView};
use crate::names::{lemma_column_lt_irreflexive, lemma_column_lt_transitive, ColumnView};
use crate::plan::{outputs, PlanView};
use crate::rewrite::class::{lemma_union, subset};
use crate::rewrite::matching_laws::{
    added_equalities_bridge_classes, bridges, covers, equalities_are_included, equality, equates,
    lemma_conjoined_together, lies_in, together,
};
use crate::rewrite::normal_form::{
    all_over_output, conjunction, extra_filters, normal_form, over_output, projection, rewritten,
    SpjView,
};
use crate::rewrite::plan_laws::lemma_collected_fields;
use crate::rewrite::predicate::{
    all_conjoined, all_enclose, all_normal, all_range_filters, bound, bounded, class_filters,
    class_index, collected, common, comparison, conjoined, describes_nothing, encloses,
    equality_filters, equated, first_known, initial, lemma_bound_valid, lemma_class_index,
    lemma_class_index_unique, lemma_conjoined_well_formed, lemma_initial_well_formed, missing,
    never, normal, partition, range_filter, range_filters, ranged_class, residual_filters,
    says_nothing, unknown_say_nothing, PredicateView,
};
use crate::rewrite::soundness::{
    answered_ranges_are_contained, lemma_each_range_filter, lemma_first_known, lemma_ranged_class,
    lemma_unbounded_contains, ranges_contained,
};
use crate::rewrite::table_laws::{
    each_speaks_of, lemma_all_conjuncts_speak, lemma_equates_speaks, lemma_filters_speak,
    lemma_outputs_speak, lemma_speak_add, plans_over_one_table_cover_each_other,
    predicates_speak_of_table, speak_of, speaks_of, table_columns,
};
use crate::scalar::{DataTypeView, ScalarView};
use crate::schema::{field_of, lemma_not_repeated, schema_columns, FieldView};

verus! {

// ---------------------------------------------------------------------------
// Expressions over the output of a view
// ---------------------------------------------------------------------------

/// Each column of the expression that names its table lies in a part of it that
/// is one of the outputs.
pub open spec fn covered(outputs: Seq<ExprView>, e: ExprView) -> bool
    decreases e,
{
    outputs.contains(e) || match e {
        ExprView::Column(c) => c.relation is None,
        ExprView::Literal(_, _) => true,
        ExprView::BinaryExpr { left, right, .. } => covered(outputs, *left) && covered(
            outputs,
            *right,
        ),
        ExprView::Not(x) => covered(outputs, *x),
        ExprView::Alias { expr, .. } => covered(outputs, *expr),
        ExprView::Other { children, .. } => !each_covered(outputs, children).contains(false),
    }
}

pub open spec fn each_covered(outputs: Seq<ExprView>, s: Seq<ExprView>) -> Seq<bool>
    decreases s,
{
    Seq::new(
        s.len(),
        |i: int|
            if 0 <= i < s.len() {
                covered(outputs, s[i])
            } else {
                arbitrary()
            },
    )
}

/// An expression can be read from the output of a view exactly where each of its
/// columns lies in a part that the view outputs, at whatever depth that part
/// stands. An expression that the view outputs is read from the first column that
/// has it.
pub proof fn covered_expressions_are_read_from_the_output(view: SpjView, e: ExprView)
    ensures
        !over_output(view, e).has_qualified_column() <==> covered(view.output_exprs, e),
        view.output_exprs.contains(e) ==> exists|k: int|
            0 <= k < view.output_exprs.len() && #[trigger] view.output_exprs[k] == e && over_output(
                view,
                e,
            ) == ExprView::Column(
                ColumnView { relation: None, name: view.output_schema[k].column.name },
            ),
    decreases e,
{
    lemma_position(view.output_exprs, e);
    if position(view.output_exprs, e) is None {
        match e {
            ExprView::Column(_) => {},
            ExprView::Literal(_, _) => {},
            ExprView::BinaryExpr { left, right, .. } => {
                covered_expressions_are_read_from_the_output(view, *left);
                covered_expressions_are_read_from_the_output(view, *right);
            },
            ExprView::Not(x) => {
                covered_expressions_are_read_from_the_output(view, *x);
            },
            ExprView::Alias { expr, .. } => {
                covered_expressions_are_read_from_the_output(view, *expr);
            },
            ExprView::Other { id, children } => {
                let n = all_over_output(view, children);
                let a = have_qualified_columns(n);
                let b = each_covered(view.output_exprs, children);
                assert(over_output(view, e) == (ExprView::Other { id, children: n }));
                assert forall|i: int| 0 <= i < children.len() implies #[trigger] a[i] == !b[i] by {
                    assert(n[i] == over_output(view, children[i]));
                    covered_expressions_are_read_from_the_output(view, children[i]);
                }
                if a.contains(true) {
                    let i = choose|i: int| 0 <= i < a.len() && a[i];
                    assert(b[i] == false);
                }
                if b.contains(false) {
                    let i = choose|i: int| 0 <= i < b.len() && !b[i];
                    assert(a[i] == true);
                }
            },
        }
    }
}

/// An expression over columns each of which a view outputs can be read from the
/// output of the view, whatever it makes of them.
pub proof fn expressions_over_output_columns_are_covered(
    view: SpjView,
    columns: Seq<ColumnView>,
    e: ExprView,
)
    requires
        speaks_of(columns, e),
        forall|k: int|
            0 <= k < columns.len() ==> view.output_exprs.contains(
                ExprView::Column(#[trigger] columns[k]),
            ),
    ensures
        covered(view.output_exprs, e),
        !over_output(view, e).has_qualified_column(),
    decreases e,
{
    covered_expressions_are_read_from_the_output(view, e);
    match e {
        ExprView::Column(c) => {
            let k = choose|k: int| 0 <= k < columns.len() && columns[k] == c;
            assert(view.output_exprs.contains(ExprView::Column(columns[k])));
        },
        ExprView::Literal(_, _) => {},
        ExprView::BinaryExpr { left, right, .. } => {
            expressions_over_output_columns_are_covered(view, columns, *left);
            expressions_over_output_columns_are_covered(view, columns, *right);
        },
        ExprView::Not(x) => {
            expressions_over_output_columns_are_covered(view, columns, *x);
        },
        ExprView::Alias { expr, .. } => {
            expressions_over_output_columns_are_covered(view, columns, *expr);
        },
        ExprView::Other { children, .. } => {
            let b = each_covered(view.output_exprs, children);
            assert forall|i: int| 0 <= i < children.len() implies #[trigger] b[i] by {
                assert(each_speaks_of(columns, children)[i] == speaks_of(columns, children[i]));
                expressions_over_output_columns_are_covered(view, columns, children[i]);
            }
            assert(!b.contains(false));
        },
    }
}

// ---------------------------------------------------------------------------
// Ranges
// ---------------------------------------------------------------------------

/// Each class of a query that has a range shares a column with a class of a view.
pub open spec fn ranges_meet(q: PredicateView, v: PredicateView) -> bool {
    forall|i: int|
        0 <= i < q.classes.len() && q.ranges[i] is Some ==> exists|j: int, c: ColumnView|
            0 <= j < v.classes.len() && #[trigger] q.classes[i].contains(c)
                && #[trigger] v.classes[j].contains(c)
}

/// A class that shares a column with classes that have ranges finds one of them.
proof fn lemma_ranged_class_found(v: PredicateView, s: Seq<ColumnView>, k: int)
    requires
        0 <= k < s.len(),
        class_index(v.classes, s[k]) is Some,
        v.ranges[class_index(v.classes, s[k])->0] is Some,
    ensures
        ranged_class(v, s) is Some,
    decreases s.len(),
{
    if k < s.len() - 1 {
        assert(s.drop_last()[k] == s[k]);
        lemma_ranged_class_found(v, s.drop_last(), k);
    }
}

/// Where the ranges of a view contain those of a query, the range of one class of
/// the query adds filters, and none where it contains that of the view.
proof fn lemma_contained_range(q: PredicateView, v: PredicateView, i: int)
    requires
        q.well_formed(),
        v.well_formed(),
        ranges_contained(q, v),
        ranges_meet(q, v),
        0 <= i < q.classes.len(),
    ensures
        range_filter(q.classes[i], q.ranges[i], v) matches Ok(Some(_)),
        q.ranges[i] is Some && (forall|j: int, c: ColumnView|
            0 <= j < v.classes.len() && #[trigger] q.classes[i].contains(c)
                && #[trigger] v.classes[j].contains(c) ==> q.ranges[i]->0.contains(v.ranges[j]->0))
            ==> range_filter(q.classes[i], q.ranges[i], v) == Ok::<
            Option<Seq<ExprView>>,
            ErrorView,
        >(Some(Seq::empty())),
{
    if q.ranges[i] is Some {
        let class = q.classes[i];
        let range = q.ranges[i]->0;
        let (j, c) = choose|j: int, c: ColumnView|
            0 <= j < v.classes.len() && #[trigger] q.classes[i].contains(c)
                && #[trigger] v.classes[j].contains(c);
        let k = choose|k: int| 0 <= k < class.len() && class[k] == c;
        lemma_class_index_unique(v.classes, c, j);
        lemma_ranged_class_found(v, class, k);
        lemma_ranged_class(v, class);
        let n = ranged_class(v, class)->0;
        let m = choose|m: int| 0 <= m < class.len() && v.classes[n].contains(#[trigger] class[m]);
        assert(class.contains(class[m]));
        assert(q.classes[i].contains(class[m]) && v.classes[n].contains(class[m]));
        assert forall|x: int| 0 <= x < class.len() implies (class_index(
            v.classes,
            #[trigger] class[x],
        ) matches Some(y) ==> encloses(v.ranges[y], range)) by {
            if let Some(y) = class_index(v.classes, class[x]) {
                lemma_class_index(v.classes, class[x]);
                assert(q.classes[i].contains(class[x]) && v.classes[y].contains(class[x]));
            }
        }
        assert(all_enclose(v, class, range));
    }
}

proof fn lemma_contained_ranges(q: PredicateView, v: PredicateView, n: nat)
    requires
        q.well_formed(),
        v.well_formed(),
        ranges_contained(q, v),
        ranges_meet(q, v),
        n <= q.classes.len(),
    ensures
        range_filters(q, v, n) matches Ok(Some(_)),
    decreases n,
{
    if n > 0 {
        lemma_contained_ranges(q, v, (n - 1) as nat);
        lemma_contained_range(q, v, n - 1);
    }
}

/// The ranges of a query are answered from a view exactly where those of the view
/// contain them, and each of them is one that the view speaks of.
pub proof fn contained_ranges_are_answered(q: PredicateView, v: PredicateView)
    requires
        q.well_formed(),
        v.well_formed(),
    ensures
        all_range_filters(q, v) matches Ok(Some(_)) <==> ranges_contained(q, v) && ranges_meet(
            q,
            v,
        ),
{
    if all_range_filters(q, v) matches Ok(Some(_)) {
        answered_ranges_are_contained(q, v);
        assert forall|i: int| 0 <= i < q.classes.len() && q.ranges[i] is Some implies exists|
            j: int,
            c: ColumnView,
        |
            0 <= j < v.classes.len() && #[trigger] q.classes[i].contains(c)
                && #[trigger] v.classes[j].contains(c) by {
            lemma_each_range_filter(q, v, q.classes.len(), i);
            let class = q.classes[i];
            lemma_ranged_class(v, class);
            let j = ranged_class(v, class)->0;
            let k = choose|k: int| 0 <= k < class.len() && v.classes[j].contains(#[trigger] class[k]);
            assert(class.contains(class[k]));
            assert(q.classes[i].contains(class[k]) && v.classes[j].contains(class[k]));
        }
    }
    if ranges_contained(q, v) && ranges_meet(q, v) {
        lemma_contained_ranges(q, v, q.classes.len());
        if !describes_nothing(q) {
            assert forall|j: int|
                0 <= j < v.classes.len() && first_known(
                    q.classes,
                    #[trigger] v.classes[j],
                ) is None implies says_nothing(v.ranges[j]) by {}
            assert(unknown_say_nothing(q, v));
        }
    }
}

/// A query adds no filter for ranges that the view has already: where each range
/// of the query contains those of the view that it meets, and is contained in
/// them, there is none.
pub proof fn known_ranges_add_no_filter(q: PredicateView, v: PredicateView)
    requires
        q.well_formed(),
        v.well_formed(),
        ranges_contained(q, v),
        ranges_meet(q, v),
        forall|i: int| 0 <= i < q.ranges.len() ==> (#[trigger] q.ranges[i]) is Some,
        forall|i: int, j: int, c: ColumnView|
            0 <= i < q.classes.len() && 0 <= j < v.classes.len() && #[trigger] q.classes[i].contains(
                c,
            ) && #[trigger] v.classes[j].contains(c) ==> q.ranges[i]->0.contains(v.ranges[j]->0),
    ensures
        all_range_filters(q, v) == Ok::<Option<Seq<ExprView>>, ErrorView>(Some(Seq::empty())),
{
    contained_ranges_are_answered(q, v);
    lemma_known_ranges(q, v, q.classes.len());
}

proof fn lemma_known_ranges(q: PredicateView, v: PredicateView, n: nat)
    requires
        q.well_formed(),
        v.well_formed(),
        ranges_contained(q, v),
        ranges_meet(q, v),
        n <= q.classes.len(),
        forall|i: int| 0 <= i < q.ranges.len() ==> (#[trigger] q.ranges[i]) is Some,
        forall|i: int, j: int, c: ColumnView|
            0 <= i < q.classes.len() && 0 <= j < v.classes.len() && #[trigger] q.classes[i].contains(
                c,
            ) && #[trigger] v.classes[j].contains(c) ==> q.ranges[i]->0.contains(v.ranges[j]->0),
    ensures
        range_filters(q, v, n) == Ok::<Option<Seq<ExprView>>, ErrorView>(Some(Seq::empty())),
    decreases n,
{
    if n > 0 {
        lemma_known_ranges(q, v, (n - 1) as nat);
        assert(q.ranges[n - 1] is Some);
        assert forall|j: int, c: ColumnView|
            0 <= j < v.classes.len() && #[trigger] q.classes[n - 1].contains(c)
                && #[trigger] v.classes[j].contains(c) implies q.ranges[n - 1]->0.contains(
            v.ranges[j]->0,
        ) by {
            assert(0 <= n - 1 < q.classes.len());
        }
        lemma_contained_range(q, v, n - 1);
        assert(Seq::<ExprView>::empty() + Seq::<ExprView>::empty() =~= Seq::empty());
    }
}

// ---------------------------------------------------------------------------
// Residual filters
// ---------------------------------------------------------------------------

proof fn lemma_missing_contains(a: Seq<ExprView>, b: Seq<ExprView>, e: ExprView)
    ensures
        missing(a, b).contains(e) <==> a.contains(e) && !b.contains(e),
    decreases a.len(),
{
    if a.len() > 0 {
        let front = a.drop_last();
        let m = missing(front, b);
        lemma_missing_contains(front, b, e);
        assert(a =~= front.push(a.last()));
        lemma_push_contains(front, a.last(), e);
        lemma_push_contains(m, a.last(), e);
    }
}

proof fn lemma_push_contains(s: Seq<ExprView>, last: ExprView, e: ExprView)
    ensures
        s.push(last).contains(e) <==> s.contains(e) || e == last,
{
    let t = s.push(last);
    if s.contains(e) {
        let i = choose|i: int| 0 <= i < s.len() && s[i] == e;
        assert(t[i] == e);
    }
    if e == last {
        assert(t[s.len() as int] == e);
    }
    if t.contains(e) {
        let i = choose|i: int| 0 <= i < t.len() && t[i] == e;
        if i < s.len() {
            assert(s[i] == e);
        }
    }
}

/// Two filters say the same where the columns of each class are equal.
pub open spec fn same_for(classes: Seq<Seq<ColumnView>>, a: ExprView, b: ExprView) -> bool {
    normal(classes, a) == normal(classes, b)
}

/// The residual filters of a view are those of a query where each of them says the
/// same as one of the query, for columns that the query makes equal. Beyond them
/// the query has those of its own that say the same as none of the view.
pub proof fn residuals_of_the_view_are_found(q: PredicateView, v: PredicateView, e: ExprView)
    ensures
        residual_filters(q, v) is Some <==> forall|i: int|
            0 <= i < v.residuals.len() ==> exists|k: int|
                0 <= k < q.residuals.len() && same_for(
                    q.classes,
                    #[trigger] v.residuals[i],
                    #[trigger] q.residuals[k],
                ),
        residual_filters(q, v) matches Some(filters) ==> (filters.contains(e) <==> (exists|k: int|
            0 <= k < q.residuals.len() && e == normal(q.classes, #[trigger] q.residuals[k])) && !(
        exists|i: int|
            0 <= i < v.residuals.len() && e == normal(q.classes, #[trigger] v.residuals[i]))),
{
    let mine = all_normal(q.classes, q.residuals);
    let theirs = all_normal(q.classes, v.residuals);
    assert(forall|k: int|
        0 <= k < mine.len() ==> #[trigger] mine[k] == normal(q.classes, q.residuals[k]));
    assert(forall|k: int|
        0 <= k < theirs.len() ==> #[trigger] theirs[k] == normal(q.classes, v.residuals[k]));
    if forall|i: int| 0 <= i < theirs.len() ==> mine.contains(#[trigger] theirs[i]) {
        assert forall|i: int| 0 <= i < v.residuals.len() implies exists|k: int|
            0 <= k < q.residuals.len() && same_for(
                q.classes,
                #[trigger] v.residuals[i],
                #[trigger] q.residuals[k],
            ) by {
            assert(mine.contains(theirs[i]));
            let k = choose|k: int| 0 <= k < mine.len() && mine[k] == theirs[i];
            assert(same_for(q.classes, v.residuals[i], q.residuals[k]));
        }
    }
    if forall|i: int|
        0 <= i < v.residuals.len() ==> exists|k: int|
            0 <= k < q.residuals.len() && same_for(
                q.classes,
                #[trigger] v.residuals[i],
                #[trigger] q.residuals[k],
            ) {
        assert forall|i: int| 0 <= i < theirs.len() implies mine.contains(#[trigger] theirs[i]) by {
            let k = choose|k: int|
                0 <= k < q.residuals.len() && same_for(
                    q.classes,
                    v.residuals[i],
                    #[trigger] q.residuals[k],
                );
            assert(mine[k] == theirs[i]);
        }
    }
    lemma_missing_contains(mine, theirs, e);
    if mine.contains(e) {
        let k = choose|k: int| 0 <= k < mine.len() && mine[k] == e;
        assert(e == normal(q.classes, q.residuals[k]));
    }
    if theirs.contains(e) {
        let k = choose|k: int| 0 <= k < theirs.len() && theirs[k] == e;
        assert(e == normal(q.classes, v.residuals[k]));
    }
    if exists|k: int|
        0 <= k < q.residuals.len() && e == normal(q.classes, #[trigger] q.residuals[k]) {
        let k = choose|k: int|
            0 <= k < q.residuals.len() && e == normal(q.classes, #[trigger] q.residuals[k]);
        assert(mine[k] == e);
    }
    if exists|k: int|
        0 <= k < v.residuals.len() && e == normal(q.classes, #[trigger] v.residuals[k]) {
        let k = choose|k: int|
            0 <= k < v.residuals.len() && e == normal(q.classes, #[trigger] v.residuals[k]);
        assert(theirs[k] == e);
    }
}

// ---------------------------------------------------------------------------
// What predicates of plans speak of
// ---------------------------------------------------------------------------

/// The first column of each class.
pub open spec fn firsts(classes: Seq<Seq<ColumnView>>) -> Seq<ColumnView> {
    Seq::new(classes.len(), |i: int| classes[i][0])
}

/// A normal expression speaks of the first columns of the classes alone.
pub proof fn normal_expressions_speak_of_first_columns(
    classes: Seq<Seq<ColumnView>>,
    columns: Seq<ColumnView>,
    e: ExprView,
)
    requires
        partition(classes),
        speaks_of(columns, e),
        forall|c: ColumnView| #[trigger] columns.contains(c) ==> class_index(classes, c) is Some,
    ensures
        speaks_of(firsts(classes), normal(classes, e)),
    decreases e,
{
    match e {
        ExprView::Column(c) => {
            lemma_class_index(classes, c);
            let i = class_index(classes, c)->0;
            assert(firsts(classes)[i] == classes[i][0]);
        },
        ExprView::Literal(_, _) => {},
        ExprView::BinaryExpr { left, right, .. } => {
            normal_expressions_speak_of_first_columns(classes, columns, *left);
            normal_expressions_speak_of_first_columns(classes, columns, *right);
        },
        ExprView::Not(x) => {
            normal_expressions_speak_of_first_columns(classes, columns, *x);
        },
        ExprView::Alias { expr, .. } => {
            normal_expressions_speak_of_first_columns(classes, columns, *expr);
        },
        ExprView::Other { id, children } => {
            let n = all_normal(classes, children);
            let s = each_speaks_of(firsts(classes), n);
            assert forall|i: int| 0 <= i < n.len() implies #[trigger] s[i] by {
                assert(n[i] == normal(classes, children[i]));
                assert(each_speaks_of(columns, children)[i] == speaks_of(columns, children[i]));
                normal_expressions_speak_of_first_columns(classes, columns, children[i]);
            }
            assert(!s.contains(false));
            assert(normal(classes, e) == (ExprView::Other { id, children: n }));
        },
    }
}

/// A filter that speaks of some columns adds a residual filter that does, if any.
proof fn lemma_conjoined_residuals_speak(columns: Seq<ColumnView>, p: PredicateView, e: ExprView)
    requires
        speak_of(columns, p.residuals),
        speaks_of(columns, e),
    ensures
        conjoined(p, e) matches Some(Ok(q)) ==> speak_of(columns, q.residuals),
{
    if let Some(Ok(q)) = conjoined(p, e) {
        let inner = match e {
            ExprView::Not(x) => *x,
            _ => e,
        };
        assert(speaks_of(columns, inner));
        if let ExprView::BinaryExpr { left, op, right } = inner {
            assert(speaks_of(columns, *left) && speaks_of(columns, *right));
        }
        if q.residuals != p.residuals {
            let new = q.residuals.last();
            assert(q.residuals == p.residuals.push(new));
            assert(speaks_of(columns, new));
            assert forall|i: int| 0 <= i < q.residuals.len() implies speaks_of(
                columns,
                #[trigger] q.residuals[i],
            ) by {
                if i < p.residuals.len() {
                    assert(q.residuals[i] == p.residuals[i]);
                }
            }
        }
    }
}

/// The range of a class has the type of each column of the class.
pub open spec fn ranges_typed(fields: Seq<FieldView>, p: PredicateView) -> bool {
    forall|i: int, c: ColumnView|
        0 <= i < p.classes.len() && #[trigger] p.classes[i].contains(c) && p.ranges[i] is Some
            ==> has_type(fields, c, p.ranges[i]->0.data_type())
}

/// One of the fields is the column, and has the type.
pub open spec fn has_type(
    fields: Seq<FieldView>,
    c: ColumnView,
    t: DataTypeView,
) -> bool {
    exists|k: int|
        0 <= k < fields.len() && (#[trigger] fields[k]).column == c && fields[k].data_type == t
}

/// What two ranges of one type have in common is of that type.
proof fn lemma_common_type(
    a: Option<IntervalView>,
    b: Option<IntervalView>,
)
    requires
        a matches Some(x) ==> x.valid(),
        b matches Some(x) ==> x.valid(),
    ensures
        common(a, b) matches Ok(Some(r)) ==> a is Some && b is Some && r.data_type()
            == a->0.data_type() && r.data_type() == b->0.data_type(),
{
    if let Ok(Some(r)) = common(a, b) {
        lemma_intersection_valid(a->0, b->0);
    }
}

/// One more filter over the columns of the classes keeps the types of ranges.
proof fn lemma_conjoined_typed(
    fields: Seq<FieldView>,
    columns: Seq<ColumnView>,
    p: PredicateView,
    e: ExprView,
)
    requires
        p.well_formed(),
        ranges_typed(fields, p),
        speaks_of(columns, e),
        forall|c: ColumnView| #[trigger] columns.contains(c) ==> class_index(p.classes, c) is Some,
    ensures
        conjoined(p, e) matches Some(Ok(q)) ==> ranges_typed(fields, q),
{
    if let Some(Ok(q)) = conjoined(p, e) {
        let inner = match e {
            ExprView::Not(x) => *x,
            _ => e,
        };
        assert(speaks_of(columns, inner));
        if let ExprView::BinaryExpr { left, op, right } = inner {
            assert(speaks_of(columns, *left) && speaks_of(columns, *right));
        }
        if let Some((c1, c2)) = equates(e) {
            assert(conjoined(p, e) == equated(p, c1, c2));
            assert(columns.contains(c1) && columns.contains(c2)) by {
                lemma_equates_speaks(columns, e);
            }
            lemma_equated_typed(fields, p, c1, c2);
        } else if q.ranges != p.ranges {
            assert(q.classes == p.classes);
            lemma_narrowed_typed(fields, p, e);
        }
    }
}

proof fn lemma_equated_typed(
    fields: Seq<FieldView>,
    p: PredicateView,
    c1: ColumnView,
    c2: ColumnView,
)
    requires
        p.well_formed(),
        ranges_typed(fields, p),
        class_index(p.classes, c1) is Some,
        class_index(p.classes, c2) is Some,
    ensures
        equated(p, c1, c2) matches Some(Ok(q)) ==> ranges_typed(fields, q),
{
    lemma_class_index(p.classes, c1);
    lemma_class_index(p.classes, c2);
    if let Some(Ok(q)) = equated(p, c1, c2) {
        let a = class_index(p.classes, c1)->0;
        let b = class_index(p.classes, c2)->0;
        if a != b {
            let (i, j) = if a < b {
                (a, b)
            } else {
                (b, a)
            };
            lemma_union(p.classes[i], p.classes[j]);
            lemma_common_type(p.ranges[i], p.ranges[j]);
            assert forall|k: int, c: ColumnView|
                0 <= k < q.classes.len() && #[trigger] q.classes[k].contains(c)
                    && q.ranges[k] is Some implies has_type(
                fields,
                c,
                q.ranges[k]->0.data_type(),
            ) by {
                let k0 = if k < j {
                    k
                } else {
                    k + 1
                };
                if k == i {
                    assert(p.classes[i].contains(c) || p.classes[j].contains(c));
                } else {
                    assert(p.classes[k0].contains(c));
                }
            }
        }
    }
}

/// The range that a comparison narrows keeps its type.
proof fn lemma_narrowed_typed(fields: Seq<FieldView>, p: PredicateView, e: ExprView)
    requires
        p.well_formed(),
        ranges_typed(fields, p),
        equates(e) is None,
        conjoined(p, e) matches Some(Ok(_)),
    ensures
        ranges_typed(fields, conjoined(p, e)->0->Ok_0),
{
    let q = conjoined(p, e)->0->Ok_0;
    let inner = match e {
        ExprView::Not(x) => *x,
        _ => e,
    };
    if let ExprView::BinaryExpr { left, op, right } = inner {
        let op = match e {
            ExprView::Not(_) => negated(op),
            _ => Some(op),
        };
        if op is Some {
            match (*left, *right) {
                (ExprView::Column(c), ExprView::Literal(v, _)) => {
                    lemma_bounded_typed(fields, p, c, op->0, v);
                },
                (ExprView::Literal(v, _), ExprView::Column(c)) => {
                    if swapped(op->0) is Some {
                        lemma_bounded_typed(fields, p, c, swapped(op->0)->0, v);
                    }
                },
                _ => {},
            }
        }
    }
}

proof fn lemma_bounded_typed(
    fields: Seq<FieldView>,
    p: PredicateView,
    c: ColumnView,
    op: Operator,
    v: ScalarView,
)
    requires
        p.well_formed(),
        ranges_typed(fields, p),
    ensures
        bounded(p, c, op, v) matches Ok(q) ==> ranges_typed(fields, q),
{
    if let Ok(q) = bounded(p, c, op, v) {
        let field = field_of(p.schema, c)->Ok_0;
        let w = cast(v, field.data_type)->0;
        let i = class_index(p.classes, c)->0;
        lemma_class_index(p.classes, c);
        lemma_bound_valid(op, w);
        let new = bound(op, w)->Ok_0;
        lemma_common_type(p.ranges[i], new);
        assert forall|k: int, x: ColumnView|
            0 <= k < q.classes.len() && #[trigger] q.classes[k].contains(x)
                && q.ranges[k] is Some implies has_type(fields, x, q.ranges[k]->0.data_type()) by {
            assert(p.classes[k].contains(x));
        }
    }
}

/// What holds of the predicate that some filters over the columns of the classes
/// give: it meets its invariant, has each of the columns in a class, residual
/// filters that speak of them, and ranges of their types.
proof fn lemma_all_conjoined_speaks(
    fields: Seq<FieldView>,
    columns: Seq<ColumnView>,
    p: PredicateView,
    s: Seq<ExprView>,
)
    requires
        p.well_formed(),
        ranges_typed(fields, p),
        speak_of(columns, p.residuals),
        speak_of(columns, s),
        forall|c: ColumnView| #[trigger] columns.contains(c) ==> class_index(p.classes, c) is Some,
    ensures
        all_conjoined(p, s) matches Some(Ok(q)) ==> {
            &&& q.well_formed()
            &&& ranges_typed(fields, q)
            &&& speak_of(columns, q.residuals)
            &&& forall|c: ColumnView| #[trigger]
                columns.contains(c) ==> class_index(q.classes, c) is Some
        },
    decreases s.len(),
{
    if s.len() > 0 {
        let front = s.drop_last();
        assert(forall|i: int| 0 <= i < front.len() ==> #[trigger] front[i] == s[i]);
        lemma_all_conjoined_speaks(fields, columns, p, front);
        if let Some(Ok(mid)) = all_conjoined(p, front) {
            let e = s.last();
            assert(speaks_of(columns, s[s.len() - 1]));
            lemma_conjoined_residuals_speak(columns, mid, e);
            lemma_conjoined_typed(fields, columns, mid, e);
            lemma_conjoined_well_formed(mid, e);
            if let Some(Ok(q)) = conjoined(mid, e) {
                assert forall|c: ColumnView| #[trigger] columns.contains(c) implies class_index(
                    q.classes,
                    c,
                ) is Some by {
                    assert(class_index(mid.classes, c) is Some);
                    lemma_class_index(mid.classes, c);
                    let i = class_index(mid.classes, c)->0;
                    assert(mid.classes[i].contains(c) && mid.classes[i].contains(c));
                    assert(together(mid.classes, c, c));
                    lemma_conjoined_together(mid, e, c, c);
                    let k = choose|k: int|
                        0 <= k < q.classes.len() && #[trigger] q.classes[k].contains(c)
                            && q.classes[k].contains(c);
                    lemma_class_index_unique(q.classes, c, k);
                }
            }
        }
    }
}

/// The predicate of a plan speaks of the table: its residual filters and its
/// outputs of the columns of the table, and the range of each class is of the type
/// that each column of the class has in the table.
pub proof fn forms_speak_of_their_table(plan: PlanView, form: SpjView)
    requires
        normal_form(plan) == Some(Ok::<SpjView, ErrorView>(form)),
    ensures
        form.predicate.well_formed(),
        ranges_typed(collected(plan)->0->Ok_0.fields, form.predicate),
        speak_of(table_columns(plan), form.predicate.residuals),
        speak_of(table_columns(plan), form.output_exprs),
{
    let c = collected(plan)->0->Ok_0;
    let table = table_columns(plan);
    let start = initial(c.tables, c.fields);
    lemma_collected_fields(plan);
    lemma_initial_well_formed(c.tables, c.fields);
    lemma_filters_speak(plan);
    lemma_all_conjuncts_speak(table, c.filters);
    assert forall|x: ColumnView| #[trigger] table.contains(x) implies class_index(
        start.classes,
        x,
    ) is Some by {
        let i = choose|i: int| 0 <= i < table.len() && table[i] == x;
        assert(start.classes[i] == seq![x]);
        assert(start.classes[i][0] == x);
        assert(start.classes[i].contains(x));
        lemma_class_index_unique(start.classes, x, i);
    }
    assert forall|i: int, x: ColumnView|
        0 <= i < start.classes.len() && #[trigger] start.classes[i].contains(x)
            && start.ranges[i] is Some implies has_type(
        c.fields,
        x,
        start.ranges[i]->0.data_type(),
    ) by {
        assert(c.fields[i].column == x);
    }
    lemma_all_conjoined_speaks(c.fields, table, start, all_conjuncts(c.filters));
    predicates_speak_of_table(plan, form);
    lemma_outputs_speak(plan);
    let exprs = outputs(plan)->0->Ok_0;
    let classes = form.predicate.classes;
    assert forall|i: int| 0 <= i < form.output_exprs.len() implies speaks_of(
        table,
        #[trigger] form.output_exprs[i],
    ) by {
        assert(speaks_of(table, exprs[i]));
        normal_expressions_speak_of_first_columns(classes, table, exprs[i]);
        assert forall|x: ColumnView| #[trigger] firsts(classes).contains(x) implies table.contains(
            x,
        ) by {
            let k = choose|k: int| 0 <= k < firsts(classes).len() && firsts(classes)[k] == x;
            assert(classes[k].contains(classes[k][0]));
            lemma_class_index_unique(classes, x, k);
        }
        lemma_speaks_wider(firsts(classes), table, normal(classes, exprs[i]));
    }
}

/// An expression that speaks of some columns speaks of more.
proof fn lemma_speaks_wider(few: Seq<ColumnView>, more: Seq<ColumnView>, e: ExprView)
    requires
        speaks_of(few, e),
        forall|c: ColumnView| #[trigger] few.contains(c) ==> more.contains(c),
    ensures
        speaks_of(more, e),
    decreases e,
{
    match e {
        ExprView::Column(_) => {},
        ExprView::Literal(_, _) => {},
        ExprView::BinaryExpr { left, right, .. } => {
            lemma_speaks_wider(few, more, *left);
            lemma_speaks_wider(few, more, *right);
        },
        ExprView::Not(x) => {
            lemma_speaks_wider(few, more, *x);
        },
        ExprView::Alias { expr, .. } => {
            lemma_speaks_wider(few, more, *expr);
        },
        ExprView::Other { children, .. } => {
            let s = each_speaks_of(more, children);
            assert forall|i: int| 0 <= i < children.len() implies #[trigger] s[i] by {
                assert(each_speaks_of(few, children)[i] == speaks_of(few, children[i]));
                lemma_speaks_wider(few, more, children[i]);
            }
            assert(!s.contains(false));
        },
    }
}

// ---------------------------------------------------------------------------
// Answers
// ---------------------------------------------------------------------------

/// A query is answered from a view exactly where each of its outputs and each
/// filter that it has beyond the view can be read from the output of the view.
pub proof fn rewrites_exist_where_all_is_covered(query: SpjView, view: SpjView)
    ensures
        rewritten(query, view) matches Ok(Some(_)) <==> {
            &&& forall|i: int|
                0 <= i < query.output_exprs.len() ==> covered(
                    view.output_exprs,
                    normal(view.predicate.classes, #[trigger] query.output_exprs[i]),
                )
            &&& extra_filters(query.predicate, view.predicate) matches Ok(Some(s)) && forall|i: int|
                0 <= i < s.len() ==> covered(view.output_exprs, #[trigger] s[i])
        },
{
    let n = query.output_exprs.len();
    lemma_projection_exists(query, view, n);
    if let Ok(Some(s)) = extra_filters(query.predicate, view.predicate) {
        let t = all_over_output(view, s);
        lemma_conjunction_covered(t);
        assert forall|i: int| 0 <= i < s.len() implies ((#[trigger] t[i]).has_qualified_column()
            <==> !covered(view.output_exprs, s[i])) by {
            assert(t[i] == over_output(view, s[i]));
            covered_expressions_are_read_from_the_output(view, s[i]);
        }
        if forall|i: int| 0 <= i < s.len() ==> covered(view.output_exprs, #[trigger] s[i]) {
            assert forall|i: int| 0 <= i < t.len() implies !(
            #[trigger] t[i]).has_qualified_column() by {
                assert(covered(view.output_exprs, s[i]));
            }
        }
        if forall|i: int| 0 <= i < t.len() ==> !(#[trigger] t[i]).has_qualified_column() {
            assert forall|i: int| 0 <= i < s.len() implies covered(
                view.output_exprs,
                #[trigger] s[i],
            ) by {
                assert(!t[i].has_qualified_column());
            }
        }
    }
}

proof fn lemma_projection_exists(query: SpjView, view: SpjView, n: nat)
    requires
        n <= query.output_exprs.len(),
    ensures
        projection(query, view, n) is Some <==> forall|i: int|
            0 <= i < n ==> covered(
                view.output_exprs,
                normal(view.predicate.classes, #[trigger] query.output_exprs[i]),
            ),
    decreases n,
{
    if n > 0 {
        lemma_projection_exists(query, view, (n - 1) as nat);
        covered_expressions_are_read_from_the_output(
            view,
            normal(view.predicate.classes, query.output_exprs[n - 1]),
        );
    }
}

proof fn lemma_conjunction_covered(s: Seq<ExprView>)
    ensures
        conjunction(s) is None <==> s.len() == 0,
        conjunction(s) matches Some(e) ==> (e.has_qualified_column() <==> !(forall|i: int|
            0 <= i < s.len() ==> !(#[trigger] s[i]).has_qualified_column())),
    decreases s.len(),
{
    if s.len() > 0 {
        let front = s.drop_last();
        lemma_conjunction_covered(front);
        assert(s[s.len() - 1] == s.last());
        if forall|i: int| 0 <= i < s.len() ==> !(#[trigger] s[i]).has_qualified_column() {
            assert forall|i: int| 0 <= i < front.len() implies !(
            #[trigger] front[i]).has_qualified_column() by {
                assert(front[i] == s[i]);
            }
        }
        if !s.last().has_qualified_column() && (forall|i: int|
            0 <= i < front.len() ==> !(#[trigger] front[i]).has_qualified_column()) {
            assert forall|i: int| 0 <= i < s.len() implies !(
            #[trigger] s[i]).has_qualified_column() by {
                if i < front.len() {
                    assert(front[i] == s[i]);
                }
            }
        }
        if let Some(e) = conjunction(front) {
            let both = comparison(e, Operator::And, s.last());
            assert(both.has_qualified_column() == (e.has_qualified_column()
                || s.last().has_qualified_column()));
        }
    }
}

/// The plan outputs each column of its table.
pub open spec fn outputs_all_columns(plan: PlanView) -> bool {
    forall|c: ColumnView| #[trigger]
        table_columns(plan).contains(c) ==> outputs(plan)->0->Ok_0.contains(ExprView::Column(c))
}

/// A plan that outputs each column of its table has, in its normal form, the first
/// column of each class among its outputs.
proof fn lemma_first_columns_are_output(plan: PlanView, form: SpjView, j: int)
    requires
        normal_form(plan) == Some(Ok::<SpjView, ErrorView>(form)),
        outputs_all_columns(plan),
        0 <= j < form.predicate.classes.len(),
    ensures
        form.output_exprs.contains(ExprView::Column(form.predicate.classes[j][0])),
{
    let classes = form.predicate.classes;
    predicates_speak_of_table(plan, form);
    let c = classes[j][0];
    assert(classes[j].contains(c));
    lemma_class_index_unique(classes, c, j);
    assert(table_columns(plan).contains(c));
    let exprs = outputs(plan)->0->Ok_0;
    let k = choose|k: int| 0 <= k < exprs.len() && exprs[k] == ExprView::Column(c);
    assert(form.output_exprs[k] == normal(classes, ExprView::Column(c)));
    assert(normal(classes, ExprView::Column(c)) == ExprView::Column(c));
}

/// The filters that ranges add speak of the first columns of the classes of the
/// view.
proof fn lemma_range_filters_speak(q: PredicateView, v: PredicateView, n: nat)
    requires
        v.well_formed(),
        range_filters(q, v, n) matches Ok(Some(_)),
    ensures
        speak_of(firsts(v.classes), range_filters(q, v, n)->Ok_0->0),
    decreases n,
{
    let few = firsts(v.classes);
    if n > 0 {
        lemma_range_filters_speak(q, v, (n - 1) as nat);
        let a = range_filters(q, v, (n - 1) as nat)->Ok_0->0;
        let b = range_filter(q.classes[n - 1], q.ranges[n - 1], v)->Ok_0->0;
        assert forall|i: int| 0 <= i < b.len() implies speaks_of(few, #[trigger] b[i]) by {
            if let Some(range) = q.ranges[n - 1] {
                lemma_ranged_class(v, q.classes[n - 1]);
                let j = ranged_class(v, q.classes[n - 1])->0;
                let first = v.classes[j][0];
                assert(few[j] == first);
                assert(few.contains(first));
                lemma_comparison_speaks(few, first, Operator::Eq, range.lower);
                lemma_comparison_speaks(few, first, Operator::GtEq, range.lower);
                lemma_comparison_speaks(few, first, Operator::LtEq, range.upper);
            } else {
                assert(b[i] == never());
            }
        }
        lemma_speak_add(few, a, b);
    }
}

proof fn lemma_comparison_speaks(
    columns: Seq<ColumnView>,
    c: ColumnView,
    op: Operator,
    v: ScalarView,
)
    requires
        columns.contains(c),
    ensures
        speaks_of(columns, comparison(ExprView::Column(c), op, ExprView::Literal(v, None))),
{
    assert(speaks_of(columns, ExprView::Column(c)));
    assert(speaks_of(columns, ExprView::Literal(v, None)));
}

/// Each class of a view with more than one column has all columns of a class of
/// the query.
pub open spec fn whole_classes(q: PredicateView, v: PredicateView) -> bool {
    forall|j: int|
        0 <= j < v.classes.len() && (#[trigger] v.classes[j]).len() > 1 ==> exists|i: int|
            0 <= i < q.classes.len() && subset(#[trigger] q.classes[i], v.classes[j])
}

/// A column of a class of a view stands first in it, where the query makes it
/// equal to a column that is not in the class.
proof fn lemma_joined_columns_stand_first(
    q: PredicateView,
    v: PredicateView,
    i: int,
    j: int,
    a: ColumnView,
    b: ColumnView,
)
    requires
        q.well_formed(),
        v.well_formed(),
        whole_classes(q, v),
        lies_in(q.classes, v.classes[j]),
        0 <= i < q.classes.len(),
        0 <= j < v.classes.len(),
        q.classes[i].contains(a),
        q.classes[i].contains(b),
        v.classes[j].contains(a),
        !v.classes[j].contains(b),
    ensures
        a == v.classes[j][0],
{
    let class = v.classes[j];
    let m = choose|m: int| 0 <= m < q.classes.len() && subset(class, #[trigger] q.classes[m]);
    lemma_subset_contains(class, q.classes[m], a);
    assert(m == i);
    if class.len() > 1 {
        let k = choose|k: int| 0 <= k < q.classes.len() && subset(#[trigger] q.classes[k], class);
        let x = q.classes[k][0];
        assert(q.classes[k].contains(x));
        lemma_subset_contains(q.classes[k], class, x);
        lemma_subset_contains(class, q.classes[m], x);
        assert(k == i);
        lemma_subset_contains(q.classes[i], class, b);
    }
    let k = choose|k: int| 0 <= k < class.len() && class[k] == a;
}

proof fn lemma_subset_contains(a: Seq<ColumnView>, b: Seq<ColumnView>, c: ColumnView)
    requires
        subset(a, b),
        a.contains(c),
    ensures
        b.contains(c),
{
    let i = choose|i: int| 0 <= i < a.len() && a[i] == c;
    assert(b.contains(a[i]));
}

/// The first column of a class of a query stands first in its class of the view,
/// where that class lies in the query's.
proof fn lemma_first_of_both(q: PredicateView, v: PredicateView, i: int, j: int)
    requires
        q.well_formed(),
        v.well_formed(),
        0 <= i < q.classes.len(),
        0 <= j < v.classes.len(),
        v.classes[j].contains(q.classes[i][0]),
        lies_in(q.classes, v.classes[j]),
    ensures
        v.classes[j][0] == q.classes[i][0],
{
    let class = v.classes[j];
    let c = q.classes[i][0];
    let d = class[0];
    let m = choose|m: int| 0 <= m < q.classes.len() && subset(class, #[trigger] q.classes[m]);
    assert(q.classes[i].contains(c));
    lemma_subset_contains(class, q.classes[m], c);
    assert(m == i);
    assert(class.contains(d));
    lemma_subset_contains(class, q.classes[i], d);
    let x = choose|x: int| 0 <= x < q.classes[i].len() && q.classes[i][x] == d;
    let y = choose|y: int| 0 <= y < class.len() && class[y] == c;
    if x > 0 && y > 0 {
        assert(q.classes[i][0].lt(q.classes[i][x]));
        assert(class[0].lt(class[y]));
        lemma_column_lt_transitive(c, d, c);
        lemma_column_lt_irreflexive(c);
    }
}

/// A view over the table of a query answers it where the view has all that the
/// query needs: it outputs each column of the table; what it makes equal the query
/// makes equal, and no class of it is only a part of what the query makes equal;
/// its ranges contain those of the query; and each of its other filters is one of
/// the query. What the query makes of the columns does not matter.
pub proof fn views_with_all_that_is_needed_answer(
    query_plan: PlanView,
    view_plan: PlanView,
    query: SpjView,
    view: SpjView,
)
    requires
        normal_form(query_plan) == Some(Ok::<SpjView, ErrorView>(query)),
        normal_form(view_plan) == Some(Ok::<SpjView, ErrorView>(view)),
        collected(query_plan)->0->Ok_0.fields == collected(view_plan)->0->Ok_0.fields,
        outputs_all_columns(view_plan),
        forall|j: int|
            0 <= j < view.predicate.classes.len() ==> lies_in(
                query.predicate.classes,
                #[trigger] view.predicate.classes[j],
            ),
        whole_classes(query.predicate, view.predicate),
        ranges_contained(query.predicate, view.predicate),
        forall|i: int|
            0 <= i < view.predicate.residuals.len() ==> exists|k: int|
                0 <= k < query.predicate.residuals.len() && same_for(
                    query.predicate.classes,
                    #[trigger] view.predicate.residuals[i],
                    #[trigger] query.predicate.residuals[k],
                ),
    ensures
        rewritten(query, view) matches Ok(Some(_)),
{
    let q = query.predicate;
    let v = view.predicate;
    let table = table_columns(view_plan);
    let few = firsts(v.classes);
    assert(table_columns(query_plan) == table);
    plans_over_one_table_cover_each_other(query_plan, view_plan, query, view);
    predicates_speak_of_table(query_plan, query);
    predicates_speak_of_table(view_plan, view);
    forms_speak_of_their_table(query_plan, query);
    forms_speak_of_their_table(view_plan, view);
    assert forall|k: int| 0 <= k < few.len() implies view.output_exprs.contains(
        ExprView::Column(#[trigger] few[k]),
    ) by {
        lemma_first_columns_are_output(view_plan, view, k);
    }
    // The filters that the query has beyond the view.
    equalities_are_included(q.classes, v.classes);
    assert(equality_filters(q.classes, v.classes) is Some);
    assert forall|i: int| 0 <= i < q.classes.len() && q.ranges[i] is Some implies exists|
        j: int,
        c: ColumnView,
    |
        0 <= j < v.classes.len() && #[trigger] q.classes[i].contains(c)
            && #[trigger] v.classes[j].contains(c) by {
        let c = q.classes[i][0];
        assert(q.classes[i].contains(c));
        lemma_class_index_unique(q.classes, c, i);
        assert(table.contains(c));
        lemma_class_index(v.classes, c);
        let j = class_index(v.classes, c)->0;
        assert(q.classes[i].contains(c) && v.classes[j].contains(c));
    }
    contained_ranges_are_answered(q, v);
    residuals_of_the_view_are_found(q, v, never());
    let a = equality_filters(q.classes, v.classes)->0;
    let b = range_filters(q, v, q.classes.len())->Ok_0->0;
    let c = residual_filters(q, v)->0;
    let s = a + b + c;
    assert(extra_filters(q, v) == Ok::<Option<Seq<ExprView>>, ErrorView>(Some(s)));
    lemma_equalities_speak(q, v);
    lemma_range_filters_speak(q, v, q.classes.len());
    assert forall|i: int| 0 <= i < c.len() implies speaks_of(few, #[trigger] c[i]) by {
        assert(c.contains(c[i]));
        residuals_of_the_view_are_found(q, v, c[i]);
        let k = choose|k: int|
            0 <= k < q.residuals.len() && c[i] == normal(q.classes, #[trigger] q.residuals[k]);
        assert(speaks_of(table, q.residuals[k]));
        normal_expressions_speak_of_first_columns(q.classes, table, q.residuals[k]);
        assert forall|x: ColumnView| #[trigger] firsts(q.classes).contains(x) implies few.contains(
            x,
        ) by {
            let m = choose|m: int|
                0 <= m < firsts(q.classes).len() && firsts(q.classes)[m] == x;
            assert(q.classes[m].contains(x));
            lemma_class_index_unique(q.classes, x, m);
            assert(table.contains(x));
            lemma_class_index(v.classes, x);
            let j = class_index(v.classes, x)->0;
            assert(lies_in(q.classes, v.classes[j]));
            lemma_first_of_both(q, v, m, j);
            assert(few[j] == x);
        }
        lemma_speaks_wider(firsts(q.classes), few, c[i]);
    }
    lemma_speak_add(few, a, b);
    lemma_speak_add(few, a + b, c);
    assert forall|i: int| 0 <= i < s.len() implies covered(
        view.output_exprs,
        #[trigger] s[i],
    ) by {
        expressions_over_output_columns_are_covered(view, few, s[i]);
    }
    assert forall|i: int| 0 <= i < query.output_exprs.len() implies covered(
        view.output_exprs,
        normal(v.classes, #[trigger] query.output_exprs[i]),
    ) by {
        normal_expressions_speak_of_first_columns(v.classes, table, query.output_exprs[i]);
        expressions_over_output_columns_are_covered(
            view,
            few,
            normal(v.classes, query.output_exprs[i]),
        );
    }
    rewrites_exist_where_all_is_covered(query, view);
}

/// The filters that equalities add speak of the first columns of the classes of
/// the view.
proof fn lemma_equalities_speak(q: PredicateView, v: PredicateView)
    requires
        q.well_formed(),
        v.well_formed(),
        whole_classes(q, v),
        equality_filters(q.classes, v.classes) is Some,
        covers(v.classes, q.classes),
        forall|j: int|
            0 <= j < v.classes.len() ==> lies_in(q.classes, #[trigger] v.classes[j]),
    ensures
        speak_of(firsts(v.classes), equality_filters(q.classes, v.classes)->0),
{
    let few = firsts(v.classes);
    let s = equality_filters(q.classes, v.classes)->0;
    added_equalities_bridge_classes(q.classes, v.classes);
    assert forall|n: int| 0 <= n < s.len() implies speaks_of(few, #[trigger] s[n]) by {
        let (i, a, b) = choose|i: int, a: ColumnView, b: ColumnView|
            {
                &&& 0 <= i < q.classes.len()
                &&& #[trigger] q.classes[i].contains(a)
                &&& q.classes[i].contains(b)
                &&& class_index(v.classes, a) is Some
                &&& class_index(v.classes, a) != class_index(v.classes, b)
                &&& s[n] == #[trigger] equality(a, b)
            };
        assert(bridges(q.classes, v.classes, s[n]));
        assert(q.classes[i].contains(b));
        assert(class_index(v.classes, b) is Some);
        let x = class_index(v.classes, a)->0;
        let y = class_index(v.classes, b)->0;
        lemma_class_index(v.classes, a);
        lemma_class_index(v.classes, b);
        assert(lies_in(q.classes, v.classes[x]) && lies_in(q.classes, v.classes[y]));
        lemma_joined_columns_stand_first(q, v, i, x, a, b);
        lemma_joined_columns_stand_first(q, v, i, y, b, a);
        assert(few[x] == a && few[y] == b);
        assert(speaks_of(few, ExprView::Column(a)));
        assert(speaks_of(few, ExprView::Column(b)));
    }
}

/// A view that outputs each column of its table, and has no filter, answers every
/// query over that table.
pub proof fn unfiltered_views_answer_every_query(
    query_plan: PlanView,
    view_plan: PlanView,
    query: SpjView,
    view: SpjView,
)
    requires
        normal_form(query_plan) == Some(Ok::<SpjView, ErrorView>(query)),
        normal_form(view_plan) == Some(Ok::<SpjView, ErrorView>(view)),
        collected(query_plan)->0->Ok_0.fields == collected(view_plan)->0->Ok_0.fields,
        outputs_all_columns(view_plan),
        collected(view_plan)->0->Ok_0.filters.len() == 0,
    ensures
        rewritten(query, view) matches Ok(Some(_)),
{
    let q = query.predicate;
    let v = view.predicate;
    let c = collected(view_plan)->0->Ok_0;
    let fields = c.fields;
    let table = table_columns(view_plan);
    assert(all_conjuncts(c.filters).len() == 0);
    assert(v == initial(c.tables, fields));
    assert(table_columns(query_plan) == table);
    plans_over_one_table_cover_each_other(query_plan, view_plan, query, view);
    forms_speak_of_their_table(query_plan, query);
    lemma_collected_fields(view_plan);
    lemma_not_repeated(schema_columns(fields));
    assert forall|j: int| 0 <= j < v.classes.len() implies lies_in(
        q.classes,
        #[trigger] v.classes[j],
    ) by {
        let x = v.classes[j][0];
        assert(v.classes[j].contains(x));
        lemma_class_index(q.classes, x);
        let i = class_index(q.classes, x)->0;
        assert(subset(v.classes[j], q.classes[i]));
    }
    assert forall|i: int, j: int, x: ColumnView|
        0 <= i < q.classes.len() && 0 <= j < v.classes.len() && #[trigger] q.classes[i].contains(x)
            && #[trigger] v.classes[j].contains(x) && q.ranges[i] is Some implies {
        &&& v.ranges[j] is Some
        &&& v.ranges[j]->0.data_type() == q.ranges[i]->0.data_type()
        &&& v.ranges[j]->0.contains(q.ranges[i]->0)
    } by {
        let range = q.ranges[i]->0;
        assert(has_type(fields, x, range.data_type()));
        let k = choose|k: int|
            0 <= k < fields.len() && (#[trigger] fields[k]).column == x && fields[k].data_type
                == range.data_type();
        assert(schema_columns(fields)[j] == x && schema_columns(fields)[k] == x);
        assert(k == j);
        lemma_unbounded_contains(range);
    }
    assert forall|j: int|
        0 <= j < v.classes.len() && first_known(q.classes, #[trigger] v.classes[j]) is None
            && !describes_nothing(q) implies {
        &&& v.ranges[j] is Some
        &&& v.ranges[j]->0 == unbounded(v.ranges[j]->0.data_type())
    } by {}
    assert(ranges_contained(q, v));
    views_with_all_that_is_needed_answer(query_plan, view_plan, query, view);
}

/// A rewrite of a query over a view of the same table does not fail: it succeeds,
/// or the view is refused.
pub proof fn rewrites_over_one_table_do_not_fail(
    query_plan: PlanView,
    view_plan: PlanView,
    query: SpjView,
    view: SpjView,
)
    requires
        normal_form(query_plan) == Some(Ok::<SpjView, ErrorView>(query)),
        normal_form(view_plan) == Some(Ok::<SpjView, ErrorView>(view)),
        collected(query_plan)->0->Ok_0.fields == collected(view_plan)->0->Ok_0.fields,
    ensures
        rewritten(query, view) is Ok,
{
    let fields = collected(query_plan)->0->Ok_0.fields;
    forms_speak_of_their_table(query_plan, query);
    forms_speak_of_their_table(view_plan, view);
    lemma_collected_fields(query_plan);
    lemma_not_repeated(schema_columns(fields));
    lemma_range_filters_do_not_fail(
        fields,
        query.predicate,
        view.predicate,
        query.predicate.classes.len(),
    );
}

proof fn lemma_range_filters_do_not_fail(
    fields: Seq<FieldView>,
    q: PredicateView,
    v: PredicateView,
    n: nat,
)
    requires
        q.well_formed(),
        v.well_formed(),
        ranges_typed(fields, q),
        ranges_typed(fields, v),
        forall|i: int, j: int|
            0 <= i < j < schema_columns(fields).len() ==> schema_columns(fields)[i]
                != schema_columns(fields)[j],
        n <= q.classes.len(),
    ensures
        range_filters(q, v, n) is Ok,
    decreases n,
{
    if n > 0 {
        lemma_range_filters_do_not_fail(fields, q, v, (n - 1) as nat);
        let class = q.classes[n - 1];
        lemma_ranged_class(v, class);
        if q.ranges[n - 1] is Some && ranged_class(v, class) is Some {
            let j = ranged_class(v, class)->0;
            let k = choose|k: int| 0 <= k < class.len() && v.classes[j].contains(#[trigger] class[k]);
            let c = class[k];
            assert(q.classes[n - 1].contains(c));
            assert(v.classes[j].contains(c));
            assert(has_type(fields, c, q.ranges[n - 1]->0.data_type()));
            assert(has_type(fields, c, v.ranges[j]->0.data_type()));
            let x = choose|x: int|
                0 <= x < fields.len() && (#[trigger] fields[x]).column == c && fields[x].data_type
                    == q.ranges[n - 1]->0.data_type();
            let y = choose|y: int|
                0 <= y < fields.len() && (#[trigger] fields[y]).column == c && fields[y].data_type
                    == v.ranges[j]->0.data_type();
            assert(schema_columns(fields)[x] == c && schema_columns(fields)[y] == c);
            assert(x == y);
        }
    }
}

/// The filters of a plan make columns of one type equal, and no others.
pub open spec fn equals_are_of_one_type(plan: PlanView) -> bool {
    let c = collected(plan)->0->Ok_0;
    let s = all_conjuncts(c.filters);
    forall|i: int|
        0 <= i < s.len() ==> (equates(#[trigger] s[i]) matches Some((a, b)) ==> exists|k: int, l: int|
            0 <= k < c.fields.len() && 0 <= l < c.fields.len() && (
            #[trigger] c.fields[k]).column == a && (#[trigger] c.fields[l]).column == b
                && c.fields[k].data_type == c.fields[l].data_type)
}

/// A column of a table without repeated columns has one type.
proof fn lemma_one_type(
    fields: Seq<FieldView>,
    c: ColumnView,
    k: int,
    t: DataTypeView,
)
    requires
        forall|i: int, j: int|
            0 <= i < j < schema_columns(fields).len() ==> schema_columns(fields)[i]
                != schema_columns(fields)[j],
        0 <= k < fields.len(),
        fields[k].column == c,
        has_type(fields, c, t),
    ensures
        t == fields[k].data_type,
{
    let j = choose|j: int|
        0 <= j < fields.len() && (#[trigger] fields[j]).column == c && fields[j].data_type == t;
    assert(schema_columns(fields)[j] == c);
    assert(schema_columns(fields)[k] == c);
}

proof fn lemma_conjoined_exists(
    fields: Seq<FieldView>,
    columns: Seq<ColumnView>,
    p: PredicateView,
    e: ExprView,
)
    requires
        p.well_formed(),
        ranges_typed(fields, p),
        speaks_of(columns, e),
        forall|i: int, j: int|
            0 <= i < j < schema_columns(fields).len() ==> schema_columns(fields)[i]
                != schema_columns(fields)[j],
        forall|c: ColumnView| #[trigger] columns.contains(c) ==> class_index(p.classes, c) is Some,
        equates(e) matches Some((a, b)) ==> exists|k: int, l: int|
            0 <= k < fields.len() && 0 <= l < fields.len() && (#[trigger] fields[k]).column == a
                && (#[trigger] fields[l]).column == b && fields[k].data_type == fields[l].data_type,
    ensures
        conjoined(p, e) matches Some(Ok(_)),
{
    if let Some((a, b)) = equates(e) {
        lemma_equates_speaks(columns, e);
        lemma_class_index(p.classes, a);
        lemma_class_index(p.classes, b);
        let i = class_index(p.classes, a)->0;
        let j = class_index(p.classes, b)->0;
        let (k, l) = choose|k: int, l: int|
            0 <= k < fields.len() && 0 <= l < fields.len() && (#[trigger] fields[k]).column == a
                && (#[trigger] fields[l]).column == b && fields[k].data_type == fields[l].data_type;
        if p.ranges[i] is Some && p.ranges[j] is Some {
            lemma_one_type(fields, a, k, p.ranges[i]->0.data_type());
            lemma_one_type(fields, b, l, p.ranges[j]->0.data_type());
        }
        assert(equated(p, a, b) matches Some(Ok(_)));
    }
}

proof fn lemma_all_conjoined_exists(
    fields: Seq<FieldView>,
    columns: Seq<ColumnView>,
    p: PredicateView,
    s: Seq<ExprView>,
)
    requires
        p.well_formed(),
        ranges_typed(fields, p),
        speak_of(columns, p.residuals),
        speak_of(columns, s),
        forall|i: int, j: int|
            0 <= i < j < schema_columns(fields).len() ==> schema_columns(fields)[i]
                != schema_columns(fields)[j],
        forall|c: ColumnView| #[trigger] columns.contains(c) ==> class_index(p.classes, c) is Some,
        forall|i: int|
            0 <= i < s.len() ==> (equates(#[trigger] s[i]) matches Some((a, b)) ==> exists|
                k: int,
                l: int,
            |
                0 <= k < fields.len() && 0 <= l < fields.len() && (#[trigger] fields[k]).column == a
                    && (#[trigger] fields[l]).column == b && fields[k].data_type
                    == fields[l].data_type),
    ensures
        all_conjoined(p, s) matches Some(Ok(_)),
    decreases s.len(),
{
    if s.len() > 0 {
        let front = s.drop_last();
        assert(forall|i: int| 0 <= i < front.len() ==> #[trigger] front[i] == s[i]);
        lemma_all_conjoined_exists(fields, columns, p, front);
        lemma_all_conjoined_speaks(fields, columns, p, front);
        let mid = all_conjoined(p, front)->0->Ok_0;
        assert(s.last() == s[s.len() - 1]);
        lemma_conjoined_exists(fields, columns, mid, s.last());
    }
}

/// A plan of which the filters and the outputs are known has a normal form, unless
/// a filter makes columns of different types equal.
pub proof fn plans_have_a_normal_form(plan: PlanView)
    requires
        collected(plan) matches Some(Ok(_)),
        outputs(plan) matches Some(Ok(_)),
        equals_are_of_one_type(plan),
    ensures
        normal_form(plan) matches Some(Ok(_)),
{
    let c = collected(plan)->0->Ok_0;
    let table = table_columns(plan);
    let start = initial(c.tables, c.fields);
    lemma_collected_fields(plan);
    lemma_not_repeated(schema_columns(c.fields));
    lemma_initial_well_formed(c.tables, c.fields);
    lemma_filters_speak(plan);
    lemma_all_conjuncts_speak(table, c.filters);
    assert forall|x: ColumnView| #[trigger] table.contains(x) implies class_index(
        start.classes,
        x,
    ) is Some by {
        let i = choose|i: int| 0 <= i < table.len() && table[i] == x;
        assert(start.classes[i] == seq![x]);
        assert(start.classes[i][0] == x);
        assert(start.classes[i].contains(x));
        lemma_class_index_unique(start.classes, x, i);
    }
    assert forall|i: int, x: ColumnView|
        0 <= i < start.classes.len() && #[trigger] start.classes[i].contains(x)
            && start.ranges[i] is Some implies has_type(
        c.fields,
        x,
        start.ranges[i]->0.data_type(),
    ) by {
        assert(c.fields[i].column == x);
    }
    lemma_all_conjoined_exists(c.fields, table, start, all_conjuncts(c.filters));
}

/// The class says nothing to the other classes: it is one column that none of them
/// has.
pub open spec fn unknown_alone(classes: Seq<Seq<ColumnView>>, other: Seq<ColumnView>) -> bool {
    other.len() == 1 && forall|i: int|
        0 <= i < classes.len() ==> !(#[trigger] classes[i]).contains(other[0])
}

/// The equalities of a predicate include those of another, over whatever tables,
/// exactly where each class of the other lies in a class of the first, or is one
/// column that the first does not have. Such a column adds no filter.
pub proof fn equalities_are_included_over_any_tables(
    classes: Seq<Seq<ColumnView>>,
    others: Seq<Seq<ColumnView>>,
)
    requires
        partition(classes),
        partition(others),
    ensures
        equality_filters(classes, others) is Some <==> forall|j: int|
            0 <= j < others.len() ==> lies_in(classes, #[trigger] others[j]) || unknown_alone(
                classes,
                others[j],
            ),
        (forall|j: int| 0 <= j < others.len() ==> unknown_alone(classes, #[trigger] others[j]))
            ==> equality_filters(classes, others) == Some(Seq::<ExprView>::empty()),
    decreases others.len(),
{
    if others.len() > 0 {
        let front = others.drop_last();
        let last = others.last();
        let n = others.len() - 1;
        assert(others[n] == last);
        assert(forall|j: int| 0 <= j < front.len() ==> front[j] == #[trigger] others[j]);
        assert forall|a: int, b: int, x: ColumnView|
            0 <= a < front.len() && 0 <= b < front.len() && #[trigger] front[a].contains(x)
                && #[trigger] front[b].contains(x) implies a == b by {
            assert(others[a].contains(x) && others[b].contains(x));
        }
        assert(partition(front));
        equalities_are_included_over_any_tables(classes, front);
        lemma_class_is_included(classes, last);
        assert(last.len() > 0);
        if forall|j: int|
            0 <= j < front.len() ==> lies_in(classes, #[trigger] front[j]) || unknown_alone(
                classes,
                front[j],
            ) {
            assert forall|j: int| 0 <= j < n implies lies_in(classes, #[trigger] others[j])
                || unknown_alone(classes, others[j]) by {
                assert(front[j] == others[j]);
            }
        }
        if forall|j: int|
            0 <= j < others.len() ==> lies_in(classes, #[trigger] others[j]) || unknown_alone(
                classes,
                others[j],
            ) {
            assert forall|j: int| 0 <= j < front.len() implies lies_in(classes, #[trigger] front[j])
                || unknown_alone(classes, front[j]) by {
                assert(front[j] == others[j]);
            }
            assert(lies_in(classes, others[n]) || unknown_alone(classes, others[n]));
        }
        if forall|j: int| 0 <= j < others.len() ==> unknown_alone(classes, #[trigger] others[j]) {
            assert forall|j: int| 0 <= j < front.len() implies unknown_alone(
                classes,
                #[trigger] front[j],
            ) by {
                assert(front[j] == others[j]);
            }
            assert(unknown_alone(classes, others[n]));
            assert(Seq::<ExprView>::empty() + Seq::<ExprView>::empty() =~= Seq::empty());
        }
    }
}

proof fn lemma_class_is_included(classes: Seq<Seq<ColumnView>>, other: Seq<ColumnView>)
    requires
        partition(classes),
        other.len() > 0,
    ensures
        class_filters(classes, other) is Some <==> lies_in(classes, other) || unknown_alone(
            classes,
            other,
        ),
        unknown_alone(classes, other) ==> class_filters(classes, other) == Some(
            Seq::<ExprView>::empty(),
        ),
{
    lemma_first_known(classes, other);
    match first_known(classes, other) {
        None => {
            assert forall|k: int, i: int|
                0 <= k < other.len() && 0 <= i < classes.len() implies !(
            #[trigger] classes[i]).contains(#[trigger] other[k]) by {
                lemma_class_index(classes, other[k]);
            }
            if lies_in(classes, other) {
                let i = choose|i: int| 0 <= i < classes.len() && subset(other, #[trigger] classes[i]);
                assert(classes[i].contains(other[0]));
            }
        },
        Some(k) => {
            lemma_class_index(classes, other[k]);
            let i = class_index(classes, other[k])->0;
            if lies_in(classes, other) {
                let j = choose|j: int| 0 <= j < classes.len() && subset(other, #[trigger] classes[j]);
                assert(classes[j].contains(other[k]));
                assert(classes[i].contains(other[k]));
            }
            if unknown_alone(classes, other) {
                assert(classes[i].contains(other[0]));
            }
        },
    }
}

/// The ranges of a query are answered from a view exactly where three things hold.
/// Each range of the query lies in those of the view that bear on the same columns.
/// Each class of the query with a range has a column that the view has too. And,
/// unless some range of the query is empty, a class of the view of which the query
/// has no column has the range of all values.
pub proof fn ranges_are_answered_where_they_are_contained(q: PredicateView, v: PredicateView)
    requires
        q.well_formed(),
        v.well_formed(),
    ensures
        all_range_filters(q, v) matches Ok(Some(_)) <==> {
            &&& forall|i: int, j: int, c: ColumnView|
                0 <= i < q.classes.len() && 0 <= j < v.classes.len()
                    && #[trigger] q.classes[i].contains(c) && #[trigger] v.classes[j].contains(c)
                    && q.ranges[i] is Some ==> {
                    &&& v.ranges[j] is Some
                    &&& v.ranges[j]->0.data_type() == q.ranges[i]->0.data_type()
                    &&& v.ranges[j]->0.contains(q.ranges[i]->0)
                }
            &&& forall|i: int|
                0 <= i < q.classes.len() && q.ranges[i] is Some ==> exists|j: int, c: ColumnView|
                    0 <= j < v.classes.len() && #[trigger] q.classes[i].contains(c)
                        && #[trigger] v.classes[j].contains(c)
            &&& (forall|i: int| 0 <= i < q.ranges.len() ==> (#[trigger] q.ranges[i]) is Some)
                ==> forall|j: int|
                0 <= j < v.classes.len() && shares_none(q.classes, #[trigger] v.classes[j]) ==> (
                v.ranges[j] matches Some(r) && r == unbounded(r.data_type()))
        },
{
    contained_ranges_are_answered(q, v);
    assert(describes_nothing(q) <==> !(forall|i: int|
        0 <= i < q.ranges.len() ==> (#[trigger] q.ranges[i]) is Some));
    assert forall|j: int| 0 <= j < v.classes.len() implies (first_known(
        q.classes,
        #[trigger] v.classes[j],
    ) is None <==> shares_none(q.classes, v.classes[j])) by {
        let class = v.classes[j];
        lemma_first_known(q.classes, class);
        if first_known(q.classes, class) is None {
            assert forall|i: int, k: int|
                0 <= i < q.classes.len() && 0 <= k < class.len() implies !(
            #[trigger] q.classes[i]).contains(#[trigger] class[k]) by {
                lemma_class_index(q.classes, class[k]);
            }
        } else {
            let k = first_known(q.classes, class)->0;
            lemma_class_index(q.classes, class[k]);
            assert(q.classes[class_index(q.classes, class[k])->0].contains(class[k]));
        }
    }
    if all_range_filters(q, v) matches Ok(Some(_)) {
        if forall|i: int| 0 <= i < q.ranges.len() ==> (#[trigger] q.ranges[i]) is Some {
            assert forall|j: int|
                0 <= j < v.classes.len() && shares_none(
                    q.classes,
                    #[trigger] v.classes[j],
                ) implies (v.ranges[j] matches Some(r) && r == unbounded(r.data_type())) by {
                assert(first_known(q.classes, v.classes[j]) is None);
            }
        }
    }
}

/// None of the columns of a class is in one of the classes.
pub open spec fn shares_none(classes: Seq<Seq<ColumnView>>, class: Seq<ColumnView>) -> bool {
    forall|i: int, k: int|
        0 <= i < classes.len() && 0 <= k < class.len() ==> !(#[trigger] classes[i]).contains(
            #[trigger] class[k],
        )
}

/// What a query has to filter by beyond a view is what its equalities, its ranges
/// and its residual filters each add to those of the view, in that order. It is
/// nothing that can be said where the view has more than the query of any of them,
/// and a failure of the ranges is passed on.
pub proof fn each_kind_of_filter_adds_its_own(q: PredicateView, v: PredicateView)
    ensures
        all_range_filters(q, v) is Err ==> extra_filters(q, v) == Err::<
            Option<Seq<ExprView>>,
            ErrorView,
        >(all_range_filters(q, v)->Err_0),
        all_range_filters(q, v) matches Ok(ranges) ==> {
            let equal = equality_filters(q.classes, v.classes);
            let rest = residual_filters(q, v);
            &&& extra_filters(q, v) matches Ok(all) && (all is Some <==> equal is Some && ranges
                is Some && rest is Some)
            &&& equal is Some && ranges is Some && rest is Some ==> extra_filters(q, v) == Ok::<
                Option<Seq<ExprView>>,
                ErrorView,
            >(Some(equal->0 + ranges->0 + rest->0))
        },
{
}

} // verus!
