//! What holds of plans over one table: their predicates speak of the same
//! columns, so that their equalities can be compared.
use vstd::prelude::*;

use crate::error::ErrorView;
use crate::expr::{all_conjuncts, ExprView, Operator};
use crate::names::ColumnView;
use crate::plan::{
    all_outputs, collect, column_exprs, flat, flats, locate, node_outputs, outputs, scan_columns,
    scan_scope, PlanNodeView, PlanView, ScopeView,
};
use crate::rewrite::class::{lemma_union, lemma_with_column};
use crate::rewrite::matching_laws::{
    added_equalities_bridge_classes, added_equalities_complete_classes, bridges, constant_on, covers,
    equalities_are_included, equates, label_agrees, lemma_all_conjoined_well_formed,
    lemma_conjoined_together, lies_in, own_equalities_add_nothing, together,
};
use crate::rewrite::normal_form::{normal_form, SpjView};
use crate::rewrite::plan_laws::{
    input_scope, lemma_collect, lemma_collected_fields, lemma_input_scope, lemma_located,
    lemma_within_bounds,
};
use crate::rewrite::predicate::{
    all_conjoined, all_normal, class_index, collected, equality_filters, equated, initial,
    lemma_class_index, lemma_class_index_unique, lemma_flattened_one, lemma_initial_well_formed,
    partition, unaliased, PredicateView,
};
use crate::schema::{normalized_column, qualified, schema_columns};

verus! {

/// Every column of the expression is one of the list.
pub open spec fn speaks_of(columns: Seq<ColumnView>, e: ExprView) -> bool
    decreases e,
{
    match e {
        ExprView::Column(c) => columns.contains(c),
        ExprView::Literal(_, _) => true,
        ExprView::BinaryExpr { left, right, .. } => speaks_of(columns, *left) && speaks_of(
            columns,
            *right,
        ),
        ExprView::Not(x) => speaks_of(columns, *x),
        ExprView::Alias { expr, .. } => speaks_of(columns, *expr),
        ExprView::Other { children, .. } => !each_speaks_of(columns, children).contains(false),
    }
}

pub open spec fn each_speaks_of(columns: Seq<ColumnView>, s: Seq<ExprView>) -> Seq<bool>
    decreases s,
{
    Seq::new(
        s.len(),
        |i: int|
            if 0 <= i < s.len() {
                speaks_of(columns, s[i])
            } else {
                arbitrary()
            },
    )
}

/// Every column of the expressions is one of the list.
pub open spec fn speak_of(columns: Seq<ColumnView>, s: Seq<ExprView>) -> bool {
    forall|i: int| 0 <= i < s.len() ==> speaks_of(columns, #[trigger] s[i])
}

/// The columns of the table of a plan.
pub open spec fn table_columns(plan: PlanView) -> Seq<ColumnView> {
    schema_columns(collected(plan)->0->Ok_0.fields)
}

/// What an expression of a node stands for speaks of the columns that the outputs
/// of its inputs speak of.
proof fn lemma_flat_speaks(columns: Seq<ColumnView>, e: ExprView, scope: ScopeView)
    requires
        scope.alias is None,
        forall|k: int|
            0 <= k < scope.outputs.len() ==> speak_of(columns, #[trigger] scope.outputs[k]),
        flat(e, scope) matches Some(Ok(_)),
    ensures
        speaks_of(columns, flat(e, scope)->0->Ok_0),
    decreases e,
{
    match e {
        ExprView::Column(c) => {
            let d = normalized_column(c, scope.schemas, scope.using_columns)->Ok_0;
            lemma_located(scope.schemas, d);
            let (child, i) = locate(scope.schemas, d)->0;
            assert(speak_of(columns, scope.outputs[child]));
            assert(speaks_of(columns, scope.outputs[child][i]));
        },
        ExprView::Literal(_, _) => {},
        ExprView::BinaryExpr { left, right, .. } => {
            lemma_flat_speaks(columns, *left, scope);
            lemma_flat_speaks(columns, *right, scope);
        },
        ExprView::Not(x) => {
            lemma_flat_speaks(columns, *x, scope);
        },
        ExprView::Alias { expr, .. } => {
            lemma_flat_speaks(columns, *expr, scope);
        },
        ExprView::Other { id, children } => {
            let s = flats(children, scope);
            lemma_collect(s);
            let f = collect(s)->0->Ok_0;
            assert forall|i: int| 0 <= i < f.len() implies #[trigger] each_speaks_of(
                columns,
                f,
            )[i] by {
                assert(s[i] == flat(children[i], scope));
                lemma_flat_speaks(columns, children[i], scope);
            }
            assert(!each_speaks_of(columns, f).contains(false));
            assert(flat(e, scope)->0->Ok_0 == (ExprView::Other { id, children: f }));
        },
    }
}

/// The outputs of a plan speak of the columns of its table.
pub proof fn lemma_outputs_speak(plan: PlanView)
    requires
        collected(plan) matches Some(Ok(_)),
        outputs(plan) matches Some(Ok(_)),
    ensures
        speak_of(table_columns(plan), outputs(plan)->0->Ok_0),
    decreases plan,
{
    let table = table_columns(plan);
    match plan.node {
        PlanNodeView::Filter { .. } => {
            assert(all_outputs(plan.inputs)[0] == outputs(plan.inputs[0]));
            lemma_outputs_speak(plan.inputs[0]);
        },
        PlanNodeView::Projection { expr } => {
            lemma_input_scope(plan);
            lemma_outputs_speak(plan.inputs[0]);
            let scope = input_scope(plan);
            let s = flats(expr, scope);
            lemma_collect(s);
            let f = outputs(plan)->0->Ok_0;
            assert(node_outputs(plan) == collect(s));
            assert forall|i: int| 0 <= i < f.len() implies speaks_of(table, #[trigger] f[i]) by {
                assert(s[i] == flat(expr[i], scope));
                lemma_flat_speaks(table, expr[i], scope);
            }
        },
        PlanNodeView::TableScan { table_name, source, projection, .. } => {
            let columns = scan_columns(table_name, source, projection)->Ok_0;
            let f = outputs(plan)->0->Ok_0;
            assert(f == column_exprs(columns));
            if let Some(indices) = projection {
                lemma_within_bounds(indices, source.len());
            }
            assert forall|i: int| 0 <= i < f.len() implies speaks_of(table, #[trigger] f[i]) by {
                assert(f[i] == ExprView::Column(columns[i]));
                let k = match projection {
                    Some(indices) => indices[i] as int,
                    None => i,
                };
                assert(columns[i] == table[k]);
            }
        },
        _ => {},
    }
}

/// An expression without its aliases speaks of the same columns.
pub proof fn lemma_unaliased_speaks(columns: Seq<ColumnView>, e: ExprView)
    requires
        speaks_of(columns, e),
    ensures
        speaks_of(columns, unaliased(e)),
    decreases e,
{
    let none = Seq::<Seq<ColumnView>>::empty();
    match e {
        ExprView::Column(c) => {
            lemma_class_index(none, c);
        },
        ExprView::Literal(_, _) => {},
        ExprView::BinaryExpr { left, right, .. } => {
            lemma_unaliased_speaks(columns, *left);
            lemma_unaliased_speaks(columns, *right);
        },
        ExprView::Not(x) => {
            lemma_unaliased_speaks(columns, *x);
        },
        ExprView::Alias { expr, .. } => {
            lemma_unaliased_speaks(columns, *expr);
        },
        ExprView::Other { id, children } => {
            let n = all_normal(none, children);
            assert forall|i: int| 0 <= i < n.len() implies #[trigger] each_speaks_of(
                columns,
                n,
            )[i] by {
                assert(n[i] == unaliased(children[i]));
                assert(each_speaks_of(columns, children)[i] == speaks_of(columns, children[i]));
                lemma_unaliased_speaks(columns, children[i]);
            }
            assert(!each_speaks_of(columns, n).contains(false));
            assert(unaliased(e) == (ExprView::Other { id, children: n }));
        },
    }
}

pub proof fn lemma_speak_add(columns: Seq<ColumnView>, a: Seq<ExprView>, b: Seq<ExprView>)
    requires
        speak_of(columns, a),
        speak_of(columns, b),
    ensures
        speak_of(columns, a + b),
{
    let s = a + b;
    assert forall|i: int| 0 <= i < s.len() implies speaks_of(columns, #[trigger] s[i]) by {
        if i < a.len() {
            assert(s[i] == a[i]);
        } else {
            assert(s[i] == b[i - a.len()]);
        }
    }
}

proof fn lemma_conjuncts_speak(columns: Seq<ColumnView>, e: ExprView)
    requires
        speaks_of(columns, e),
    ensures
        speak_of(columns, e.conjuncts()),
    decreases e,
{
    match e {
        ExprView::BinaryExpr { left, op: Operator::And, right } => {
            lemma_conjuncts_speak(columns, *left);
            lemma_conjuncts_speak(columns, *right);
            lemma_speak_add(columns, (*left).conjuncts(), (*right).conjuncts());
        },
        ExprView::Alias { expr, .. } => {
            lemma_conjuncts_speak(columns, *expr);
        },
        _ => {
            assert(e.conjuncts() =~= seq![e]);
        },
    }
}

pub proof fn lemma_all_conjuncts_speak(columns: Seq<ColumnView>, s: Seq<ExprView>)
    requires
        speak_of(columns, s),
    ensures
        speak_of(columns, all_conjuncts(s)),
    decreases s.len(),
{
    if s.len() > 0 {
        let front = s.drop_last();
        assert(forall|i: int| 0 <= i < front.len() ==> #[trigger] front[i] == s[i]);
        lemma_all_conjuncts_speak(columns, front);
        assert(speaks_of(columns, s[s.len() - 1]));
        lemma_conjuncts_speak(columns, s.last());
        lemma_speak_add(columns, all_conjuncts(front), s.last().conjuncts());
    }
}

/// The filters that are collected from a plan speak of the columns of its table.
pub proof fn lemma_filters_speak(plan: PlanView)
    requires
        collected(plan) matches Some(Ok(_)),
    ensures
        speak_of(table_columns(plan), collected(plan)->0->Ok_0.filters),
    decreases plan,
{
    let table = table_columns(plan);
    match plan.node {
        PlanNodeView::Filter { predicate } => {
            lemma_filters_speak(plan.inputs[0]);
            lemma_flattened_one(predicate, plan);
            lemma_input_scope(plan);
            lemma_outputs_speak(plan.inputs[0]);
            let table_filter = flat(predicate, input_scope(plan))->0->Ok_0;
            lemma_flat_speaks(table, predicate, input_scope(plan));
            lemma_unaliased_speaks(table, table_filter);
            let e = unaliased(table_filter);
            let rest = collected(plan.inputs[0])->0->Ok_0.filters;
            assert(collected(plan)->0->Ok_0.filters == seq![e] + rest);
            lemma_speak_add(table, seq![e], rest);
        },
        PlanNodeView::Projection { .. } => {
            lemma_filters_speak(plan.inputs[0]);
        },
        PlanNodeView::TableScan { table_name, source, filters, .. } => {
            let scope = scan_scope(qualified(table_name, source));
            let s = flats(filters, scope);
            lemma_collect(s);
            let f = collected(plan)->0->Ok_0.filters;
            let columns = column_exprs(table);
            assert forall|k: int| 0 <= k < columns.len() implies speaks_of(
                table,
                #[trigger] columns[k],
            ) by {
                assert(table.contains(table[k]));
                assert(columns[k] == ExprView::Column(table[k]));
            }
            assert(speak_of(table, scope.outputs[0]));
            assert forall|i: int| 0 <= i < f.len() implies speaks_of(table, #[trigger] f[i]) by {
                assert(s[i] == flat(filters[i], scope));
                lemma_flat_speaks(table, filters[i], scope);
            }
        },
        _ => {},
    }
}

/// A filter speaks of the columns that it makes equal.
pub proof fn lemma_equates_speaks(columns: Seq<ColumnView>, e: ExprView)
    requires
        speaks_of(columns, e),
    ensures
        equates(e) matches Some((a, b)) ==> columns.contains(a) && columns.contains(b),
{
    let inner = match e {
        ExprView::Not(x) => *x,
        _ => e,
    };
    assert(speaks_of(columns, inner));
    if let ExprView::BinaryExpr { left, op, right } = inner {
        assert(speaks_of(columns, *left) && speaks_of(columns, *right));
    }
}

/// Every column of the classes is one of the list.
spec fn drawn_from(columns: Seq<ColumnView>, classes: Seq<Seq<ColumnView>>) -> bool {
    forall|i: int, c: ColumnView|
        0 <= i < classes.len() && #[trigger] classes[i].contains(c) ==> columns.contains(c)
}

/// One more equality of two columns of the list adds no other column.
proof fn lemma_equated_drawn(
    columns: Seq<ColumnView>,
    p: PredicateView,
    c1: ColumnView,
    c2: ColumnView,
)
    requires
        p.well_formed(),
        drawn_from(columns, p.classes),
        columns.contains(c1),
        columns.contains(c2),
    ensures
        equated(p, c1, c2) matches Some(Ok(q)) ==> drawn_from(columns, q.classes),
{
    if let Some(Ok(q)) = equated(p, c1, c2) {
        lemma_class_index(p.classes, c1);
        lemma_class_index(p.classes, c2);
        lemma_with_column(seq![c1], c2);
        assert forall|k: int, c: ColumnView|
            0 <= k < q.classes.len() && #[trigger] q.classes[k].contains(c) implies columns.contains(
            c,
        ) by {
            match (class_index(p.classes, c1), class_index(p.classes, c2)) {
                (None, None) => {
                    if k < p.classes.len() {
                        assert(p.classes[k].contains(c));
                    } else {
                        assert(seq![c1].contains(c) || c == c2);
                    }
                },
                (None, Some(i)) => {
                    lemma_with_column(p.classes[i], c1);
                    assert(c == c1 || p.classes[k].contains(c));
                },
                (Some(i), None) => {
                    lemma_with_column(p.classes[i], c2);
                    assert(c == c2 || p.classes[k].contains(c));
                },
                (Some(a), Some(b)) => {
                    if a == b {
                        assert(p.classes[k].contains(c));
                    } else {
                        let (i, j) = if a < b {
                            (a, b)
                        } else {
                            (b, a)
                        };
                        lemma_union(p.classes[i], p.classes[j]);
                        let n = if k < j {
                            k
                        } else {
                            k + 1
                        };
                        assert(p.classes[n].contains(c) || p.classes[j].contains(c));
                    }
                },
            }
        }
    }
}

/// Filters that speak of columns of the list add no other column.
proof fn lemma_all_conjoined_drawn(columns: Seq<ColumnView>, p: PredicateView, s: Seq<ExprView>)
    requires
        p.well_formed(),
        drawn_from(columns, p.classes),
        speak_of(columns, s),
    ensures
        all_conjoined(p, s) matches Some(Ok(q)) ==> drawn_from(columns, q.classes),
    decreases s.len(),
{
    if s.len() > 0 {
        let front = s.drop_last();
        assert(forall|i: int| 0 <= i < front.len() ==> #[trigger] front[i] == s[i]);
        lemma_all_conjoined_drawn(columns, p, front);
        lemma_all_conjoined_well_formed(p, front);
        let e = s[s.len() - 1];
        assert(speaks_of(columns, e));
        lemma_equates_speaks(columns, e);
        if let Some(Ok(q)) = all_conjoined(p, front) {
            if let Some((a, b)) = equates(e) {
                lemma_equated_drawn(columns, q, a, b);
            }
        }
    }
}

/// A column of a class is in a class whatever filters are added.
pub proof fn lemma_all_conjoined_keeps(p: PredicateView, s: Seq<ExprView>, c: ColumnView)
    requires
        p.well_formed(),
        together(p.classes, c, c),
        all_conjoined(p, s) matches Some(Ok(_)),
    ensures
        together(all_conjoined(p, s)->0->Ok_0.classes, c, c),
    decreases s.len(),
{
    if s.len() > 0 {
        let front = s.drop_last();
        lemma_all_conjoined_keeps(p, front, c);
        lemma_all_conjoined_well_formed(p, front);
        lemma_conjoined_together(all_conjoined(p, front)->0->Ok_0, s.last(), c, c);
    }
}

/// The predicate of a plan has each column of the table in a class, and no other
/// column.
pub proof fn predicates_speak_of_table(plan: PlanView, form: SpjView)
    requires
        normal_form(plan) == Some(Ok::<SpjView, ErrorView>(form)),
    ensures
        form.predicate.well_formed(),
        forall|c: ColumnView|
            class_index(form.predicate.classes, c) is Some
                <==> #[trigger] table_columns(plan).contains(c),
{
    let c = collected(plan)->0->Ok_0;
    let table = table_columns(plan);
    let start = initial(c.tables, c.fields);
    let filters = all_conjuncts(c.filters);
    let classes = form.predicate.classes;
    lemma_collected_fields(plan);
    lemma_initial_well_formed(c.tables, c.fields);
    lemma_filters_speak(plan);
    lemma_all_conjuncts_speak(table, c.filters);
    assert forall|i: int, x: ColumnView|
        0 <= i < start.classes.len() && #[trigger] start.classes[i].contains(x) implies table.contains(
        x,
    ) by {
        assert(table[i] == x);
    }
    lemma_all_conjoined_drawn(table, start, filters);
    lemma_all_conjoined_well_formed(start, filters);
    assert forall|x: ColumnView|
        class_index(classes, x) is Some <==> #[trigger] table.contains(x) by {
        lemma_class_index(classes, x);
        if table.contains(x) {
            let i = choose|i: int| 0 <= i < table.len() && table[i] == x;
            assert(start.classes[i] == seq![x]);
            assert(start.classes[i][0] == x);
            assert(start.classes[i].contains(x));
            lemma_all_conjoined_keeps(start, filters, x);
            let k = choose|k: int|
                0 <= k < classes.len() && #[trigger] classes[k].contains(x) && classes[k].contains(x);
            lemma_class_index_unique(classes, x, k);
        }
    }
}

/// The normal forms of two plans over one table speak of the same columns: the
/// classes of each have every column of the classes of the other.
pub proof fn plans_over_one_table_cover_each_other(
    first: PlanView,
    second: PlanView,
    one: SpjView,
    other: SpjView,
)
    requires
        normal_form(first) == Some(Ok::<SpjView, ErrorView>(one)),
        normal_form(second) == Some(Ok::<SpjView, ErrorView>(other)),
        table_columns(first) == table_columns(second),
    ensures
        partition(one.predicate.classes),
        partition(other.predicate.classes),
        covers(one.predicate.classes, other.predicate.classes),
        covers(other.predicate.classes, one.predicate.classes),
{
    predicates_speak_of_table(first, one);
    predicates_speak_of_table(second, other);
    let a = one.predicate.classes;
    let b = other.predicate.classes;
    assert forall|j: int, c: ColumnView| 0 <= j < b.len() && #[trigger] b[j].contains(c) implies class_index(
        a,
        c,
    ) is Some by {
        lemma_class_index_unique(b, c, j);
        assert(table_columns(second).contains(c));
    }
    assert forall|j: int, c: ColumnView| 0 <= j < a.len() && #[trigger] a[j].contains(c) implies class_index(
        b,
        c,
    ) is Some by {
        lemma_class_index_unique(a, c, j);
        assert(table_columns(first).contains(c));
    }
}

/// What the test of equalities says of two plans over one table. It fails exactly
/// where some class of the other plan lies in no class of the first. Else each
/// filter that it gives joins two columns which the first plan makes equal and
/// the other does not; and the equalities of the other plan say, with those
/// filters, exactly what the equalities of the first say. A plan adds nothing to
/// itself.
pub proof fn equalities_over_one_table(
    first: PlanView,
    second: PlanView,
    one: SpjView,
    other: SpjView,
    label: spec_fn(ColumnView) -> int,
)
    requires
        normal_form(first) == Some(Ok::<SpjView, ErrorView>(one)),
        normal_form(second) == Some(Ok::<SpjView, ErrorView>(other)),
        table_columns(first) == table_columns(second),
    ensures
        equality_filters(one.predicate.classes, other.predicate.classes) is None <==> exists|j: int|
            0 <= j < other.predicate.classes.len() && !lies_in(
                one.predicate.classes,
                #[trigger] other.predicate.classes[j],
            ),
        equality_filters(one.predicate.classes, other.predicate.classes) matches Some(filters) ==> {
            &&& forall|n: int|
                0 <= n < filters.len() ==> bridges(
                    one.predicate.classes,
                    other.predicate.classes,
                    #[trigger] filters[n],
                )
            &&& constant_on(label, one.predicate.classes) <==> constant_on(
                label,
                other.predicate.classes,
            ) && forall|n: int| 0 <= n < filters.len() ==> label_agrees(label, #[trigger] filters[n])
        },
        equality_filters(one.predicate.classes, one.predicate.classes) == Some(
            Seq::<ExprView>::empty(),
        ),
{
    plans_over_one_table_cover_each_other(first, second, one, other);
    let a = one.predicate.classes;
    let b = other.predicate.classes;
    equalities_are_included(a, b);
    if equality_filters(a, b) is Some {
        added_equalities_bridge_classes(a, b);
        added_equalities_complete_classes(a, b, label);
    }
    own_equalities_add_nothing(a);
}

} // verus!
