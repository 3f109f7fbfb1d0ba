//! What plans mean, and that a plan is answered by its rewrite.
use vstd::prelude::*;

use crate::error::ErrorView;
use crate::expr::{all_conjuncts, ExprView, Operator};
use crate::names::ColumnView;
use crate::plan::{
    all_outputs, collect, column_exprs, first_out_of_bounds, flat, flat_column, flats, locate,
    node_outputs, outputs, scan_columns, scan_scope, scope_of, PlanNodeView, PlanView, ScopeView,
};
use crate::rewrite::class::{lemma_union, lemma_with_column};
use crate::rewrite::normal_form::{normal_form, rewritten, RewriteView, SpjView};
use crate::rewrite::predicate::{
    all_conjoined, all_normal, class_index, collected, conjoined, equated, initial,
    lemma_class_index, lemma_conjoined_well_formed, lemma_flattened_one, lemma_initial_well_formed,
    predicate_of, unaliased, PredicateView,
};
use crate::rewrite::semantics::{
    all_comparable, all_hold, class_holds, classes_typed, eval, evals, holds,
    lemma_all_conjoined, lemma_initial, satisfies, typed, Engine, Row,
};
use crate::rewrite::soundness::{
    distinct_names, has_bare_column, have_bare_columns, lemma_normal_qualified, lemma_projection,
    matchable, name_tables, normal_keeps_value, output_row, passes, rewrite_gives_no_wrong_row,
    rewrite_loses_no_row, rewrite_outputs_query,
};
use crate::scalar::{null_of, DataTypeView, ScalarView};
use crate::schema::{
    first_repeated, lemma_index_of, normalized_column, qualified, schema_columns, FieldView,
};

verus! {

/// The row that a node's expressions see: each column has the value of the
/// expression that it stands for.
pub open spec fn scope_row(engine: Engine, row: Row, scope: ScopeView) -> Row {
    |c: ColumnView|
        match flat_column(c, scope) {
            Some(Ok(e)) => eval(engine, row, e),
            _ => null_of(DataTypeView::Null),
        }
}

/// The values of a list that was collected are those that it was collected from.
pub proof fn lemma_collect<T>(s: Seq<Option<Result<T, ErrorView>>>)
    requires
        collect(s) matches Some(Ok(_)),
    ensures
        collect(s)->0->Ok_0.len() == s.len(),
        forall|i: int|
            0 <= i < s.len() ==> #[trigger] s[i] == Some(
                Ok::<T, ErrorView>((collect(s)->0->Ok_0)[i]),
            ),
    decreases s.len(),
{
    if s.len() > 0 {
        let front = s.drop_last();
        lemma_collect(front);
        assert forall|i: int| 0 <= i < s.len() implies #[trigger] s[i] == Some(
            Ok::<T, ErrorView>((collect(s)->0->Ok_0)[i]),
        ) by {
            if i < front.len() {
                assert(front[i] == s[i]);
            }
        }
    }
}

/// An expression over tables has, on a row of the tables, the value that the
/// expression of the node has on the row that the node sees.
pub proof fn flattening_keeps_value(engine: Engine, row: Row, scope: ScopeView, e: ExprView)
    requires
        flat(e, scope) matches Some(Ok(_)),
    ensures
        eval(engine, row, flat(e, scope)->0->Ok_0) == eval(
            engine,
            scope_row(engine, row, scope),
            e,
        ),
    decreases e,
{
    match e {
        ExprView::Column(_) => {},
        ExprView::Literal(_, _) => {},
        ExprView::BinaryExpr { left, right, .. } => {
            flattening_keeps_value(engine, row, scope, *left);
            flattening_keeps_value(engine, row, scope, *right);
        },
        ExprView::Not(x) => {
            flattening_keeps_value(engine, row, scope, *x);
        },
        ExprView::Alias { expr, .. } => {
            flattening_keeps_value(engine, row, scope, *expr);
        },
        ExprView::Other { id, children } => {
            let s = flats(children, scope);
            lemma_collect(s);
            let f = collect(s)->0->Ok_0;
            let seen = scope_row(engine, row, scope);
            assert forall|i: int| 0 <= i < children.len() implies evals(engine, row, f)[i]
                == #[trigger] evals(engine, seen, children)[i] by {
                assert(s[i] == flat(children[i], scope));
                flattening_keeps_value(engine, row, scope, children[i]);
            }
            assert(evals(engine, row, f) =~= evals(engine, seen, children));
            assert(flat(e, scope)->0->Ok_0 == (ExprView::Other { id, children: f }));
        },
    }
}

/// What the expressions of a node with one input see.
pub open spec fn input_scope(plan: PlanView) -> ScopeView {
    scope_of(plan, collect(all_outputs(plan.inputs))->0->Ok_0)
}

/// The expressions of a projection over tables have, on a row of the tables, the
/// values that its expressions have on the row that its input outputs.
pub proof fn projection_outputs_its_expressions(
    engine: Engine,
    row: Row,
    plan: PlanView,
    exprs: Seq<ExprView>,
    i: int,
)
    requires
        plan.node == (PlanNodeView::Projection { expr: exprs }),
        outputs(plan) matches Some(Ok(_)),
        0 <= i < exprs.len(),
    ensures
        outputs(plan)->0->Ok_0.len() == exprs.len(),
        eval(engine, row, (outputs(plan)->0->Ok_0)[i]) == eval(
            engine,
            scope_row(engine, row, input_scope(plan)),
            exprs[i],
        ),
{
    let scope = input_scope(plan);
    let s = flats(exprs, scope);
    assert(node_outputs(plan) == collect(s));
    lemma_collect(s);
    assert(s[i] == flat(exprs[i], scope));
    flattening_keeps_value(engine, row, scope, exprs[i]);
}

/// A row of the table is one of a plan of filters and projections: it passes
/// each filter, evaluated on what the input of the filter outputs, and the filters
/// of the table on its fields.
pub open spec fn in_plan(engine: Engine, row: Row, plan: PlanView) -> bool
    decreases plan,
{
    match plan.node {
        PlanNodeView::TableScan { table_name, source, filters, .. } => all_hold(
            engine,
            scope_row(engine, row, scan_scope(qualified(table_name, source))),
            filters,
        ),
        PlanNodeView::Filter { predicate } => plan.inputs.len() == 1 && in_plan(
            engine,
            row,
            plan.inputs[0],
        ) && holds(engine, scope_row(engine, row, input_scope(plan)), predicate),
        PlanNodeView::Projection { .. } => plan.inputs.len() == 1 && in_plan(
            engine,
            row,
            plan.inputs[0],
        ),
        _ => false,
    }
}

/// The rows of a plan are those that pass all the filters that are collected
/// from it.
pub proof fn collected_filters_describe_plan(engine: Engine, row: Row, plan: PlanView)
    requires
        collected(plan) matches Some(Ok(_)),
    ensures
        in_plan(engine, row, plan) <==> all_hold(
            engine,
            row,
            collected(plan)->0->Ok_0.filters,
        ),
    decreases plan,
{
    match plan.node {
        PlanNodeView::Filter { predicate } => {
            let input = plan.inputs[0];
            collected_filters_describe_plan(engine, row, input);
            lemma_flattened_one(predicate, plan);
            let table_filter = flat(predicate, input_scope(plan))->0->Ok_0;
            flattening_keeps_value(engine, row, input_scope(plan), predicate);
            normal_keeps_value(engine, row, Seq::empty(), table_filter);
            let rest = collected(input)->0->Ok_0.filters;
            let s = seq![unaliased(table_filter)] + rest;
            assert(collected(plan)->0->Ok_0.filters == s);
            if all_hold(engine, row, s) {
                assert(holds(engine, row, s[0]));
                assert forall|i: int| 0 <= i < rest.len() implies holds(
                    engine,
                    row,
                    #[trigger] rest[i],
                ) by {
                    assert(s[i + 1] == rest[i]);
                }
            }
            if holds(engine, row, unaliased(table_filter)) && all_hold(engine, row, rest) {
                assert forall|i: int| 0 <= i < s.len() implies holds(
                    engine,
                    row,
                    #[trigger] s[i],
                ) by {
                    if i > 0 {
                        assert(s[i] == rest[i - 1]);
                    }
                }
            }
        },
        PlanNodeView::Projection { .. } => {
            collected_filters_describe_plan(engine, row, plan.inputs[0]);
        },
        PlanNodeView::TableScan { table_name, source, filters, .. } => {
            let scope = scan_scope(qualified(table_name, source));
            let seen = scope_row(engine, row, scope);
            let s = flats(filters, scope);
            lemma_collect(s);
            let f = collected(plan)->0->Ok_0.filters;
            assert forall|i: int| 0 <= i < filters.len() implies (holds(
                engine,
                row,
                #[trigger] f[i],
            ) <==> holds(engine, seen, filters[i])) by {
                assert(s[i] == flat(filters[i], scope));
                flattening_keeps_value(engine, row, scope, filters[i]);
            }
            if all_hold(engine, row, f) {
                assert forall|i: int| 0 <= i < filters.len() implies holds(
                    engine,
                    seen,
                    #[trigger] filters[i],
                ) by {
                    assert(holds(engine, row, f[i]));
                }
            }
            if all_hold(engine, seen, filters) {
                assert forall|i: int| 0 <= i < f.len() implies holds(
                    engine,
                    row,
                    #[trigger] f[i],
                ) by {
                    assert(holds(engine, seen, filters[i]));
                }
            }
        },
        _ => {},
    }
}

/// A filter holds where all its conjuncts do.
pub proof fn conjuncts_say_what_the_filter_says(engine: Engine, row: Row, e: ExprView)
    requires
        engine.lawful(),
    ensures
        holds(engine, row, e) <==> all_hold(engine, row, e.conjuncts()),
    decreases e,
{
    match e {
        ExprView::BinaryExpr { left, op: Operator::And, right } => {
            conjuncts_say_what_the_filter_says(engine, row, *left);
            conjuncts_say_what_the_filter_says(engine, row, *right);
            lemma_hold_both(engine, row, (*left).conjuncts(), (*right).conjuncts());
        },
        ExprView::Alias { expr, .. } => {
            conjuncts_say_what_the_filter_says(engine, row, *expr);
        },
        _ => {
            assert(e.conjuncts() =~= seq![e]);
            assert(all_hold(engine, row, seq![e]) <==> holds(engine, row, seq![e][0]));
        },
    }
}

proof fn lemma_hold_both(engine: Engine, row: Row, a: Seq<ExprView>, b: Seq<ExprView>)
    ensures
        all_hold(engine, row, a + b) <==> all_hold(engine, row, a) && all_hold(engine, row, b),
{
    crate::rewrite::soundness::lemma_all_hold_add(engine, row, a, b);
}

/// A list of filters holds where all their conjuncts do.
pub proof fn all_conjuncts_say_what_the_filters_say(engine: Engine, row: Row, s: Seq<ExprView>)
    requires
        engine.lawful(),
    ensures
        all_hold(engine, row, s) <==> all_hold(engine, row, all_conjuncts(s)),
    decreases s.len(),
{
    if s.len() > 0 {
        let front = s.drop_last();
        let last = s.last();
        all_conjuncts_say_what_the_filters_say(engine, row, front);
        conjuncts_say_what_the_filter_says(engine, row, last);
        lemma_hold_both(engine, row, all_conjuncts(front), last.conjuncts());
        lemma_hold_both(engine, row, front, seq![last]);
        assert(front + seq![last] =~= s);
        assert(all_hold(engine, row, seq![last]) <==> holds(engine, row, seq![last][0]));
    }
}

/// The engine can evaluate the filters of a plan on the row, and the row has
/// values of the types of the table.
pub open spec fn evaluable(engine: Engine, row: Row, plan: PlanView) -> bool {
    collected(plan) matches Some(Ok(c)) && typed(row, c.fields) && all_comparable(
        engine,
        row,
        c.fields,
        all_conjuncts(c.filters),
    )
}

/// What is collected from a plan has no column twice.
pub proof fn lemma_collected_fields(plan: PlanView)
    requires
        collected(plan) matches Some(Ok(_)),
    ensures
        first_repeated(schema_columns(collected(plan)->0->Ok_0.fields)) is None,
    decreases plan,
{
    match plan.node {
        PlanNodeView::Filter { .. } => {
            lemma_collected_fields(plan.inputs[0]);
        },
        PlanNodeView::Projection { .. } => {
            lemma_collected_fields(plan.inputs[0]);
        },
        _ => {},
    }
}

/// The predicate of a plan describes every row of the plan, and no other row.
pub proof fn predicate_describes_plan(engine: Engine, row: Row, plan: PlanView)
    requires
        engine.lawful(),
        predicate_of(plan) matches Some(Ok(_)),
        evaluable(engine, row, plan),
    ensures
        predicate_of(plan)->0->Ok_0.well_formed(),
        classes_typed(row, predicate_of(plan)->0->Ok_0),
        in_plan(engine, row, plan) <==> satisfies(engine, row, predicate_of(plan)->0->Ok_0),
{
    let c = collected(plan)->0->Ok_0;
    let start = initial(c.tables, c.fields);
    lemma_collected_fields(plan);
    collected_filters_describe_plan(engine, row, plan);
    all_conjuncts_say_what_the_filters_say(engine, row, c.filters);
    lemma_initial_well_formed(c.tables, c.fields);
    lemma_initial(engine, row, c.tables, c.fields);
    lemma_all_conjoined(engine, row, start, all_conjuncts(c.filters));
}

/// The outputs of a plan's normal form are those of the plan, on every row of
/// the plan.
pub proof fn normal_form_outputs_plan(engine: Engine, row: Row, plan: PlanView, i: int)
    requires
        engine.lawful(),
        normal_form(plan) matches Some(Ok(_)),
        evaluable(engine, row, plan),
        in_plan(engine, row, plan),
        0 <= i < outputs(plan)->0->Ok_0.len(),
    ensures
        outputs(plan) matches Some(Ok(_)),
        normal_form(plan)->0->Ok_0.output_exprs.len() == outputs(plan)->0->Ok_0.len(),
        eval(engine, row, normal_form(plan)->0->Ok_0.output_exprs[i]) == eval(
            engine,
            row,
            (outputs(plan)->0->Ok_0)[i],
        ),
{
    predicate_describes_plan(engine, row, plan);
    let p = predicate_of(plan)->0->Ok_0;
    let e = (outputs(plan)->0->Ok_0)[i];
    assert forall|k: int| 0 <= k < p.classes.len() implies class_holds(
        row,
        #[trigger] p.classes[k],
    ) by {}
    normal_keeps_value(engine, row, p.classes, e);
    assert(all_normal(p.classes, outputs(plan)->0->Ok_0)[i]
        == crate::rewrite::predicate::normal(p.classes, e));
}

/// Every expression of the list names the table of each column.
pub open spec fn none_bare(s: Seq<ExprView>) -> bool {
    forall|i: int| 0 <= i < s.len() ==> !has_bare_column(#[trigger] s[i])
}

/// A column that is located has a place in its schema.
pub proof fn lemma_located(schemas: Seq<Seq<FieldView>>, column: ColumnView)
    ensures
        locate(schemas, column) matches Some((child, i)) ==> 0 <= child < schemas.len() && 0 <= i
            < schemas[child].len(),
    decreases schemas.len(),
{
    if schemas.len() > 0 {
        lemma_located(schemas.drop_last(), column);
        lemma_index_of(schemas.last(), column);
    }
}

/// What an expression of a node stands for names the table of each column where
/// what the inputs output does.
proof fn lemma_flat_qualified(e: ExprView, scope: ScopeView)
    requires
        scope.alias is None,
        forall|k: int| 0 <= k < scope.outputs.len() ==> none_bare(#[trigger] scope.outputs[k]),
        flat(e, scope) matches Some(Ok(_)),
    ensures
        !has_bare_column(flat(e, scope)->0->Ok_0),
    decreases e,
{
    match e {
        ExprView::Column(c) => {
            let d = normalized_column(c, scope.schemas, scope.using_columns)->Ok_0;
            lemma_located(scope.schemas, d);
            let (child, i) = locate(scope.schemas, d)->0;
            assert(none_bare(scope.outputs[child]));
            assert(!has_bare_column(scope.outputs[child][i]));
        },
        ExprView::Literal(_, _) => {},
        ExprView::BinaryExpr { left, right, .. } => {
            lemma_flat_qualified(*left, scope);
            lemma_flat_qualified(*right, scope);
        },
        ExprView::Not(x) => {
            lemma_flat_qualified(*x, scope);
        },
        ExprView::Alias { expr, .. } => {
            lemma_flat_qualified(*expr, scope);
        },
        ExprView::Other { id, children } => {
            let s = flats(children, scope);
            lemma_collect(s);
            let f = collect(s)->0->Ok_0;
            assert forall|i: int| 0 <= i < f.len() implies !(
            #[trigger] have_bare_columns(f)[i]) by {
                assert(s[i] == flat(children[i], scope));
                lemma_flat_qualified(children[i], scope);
            }
            assert(!have_bare_columns(f).contains(true));
            assert(flat(e, scope)->0->Ok_0 == (ExprView::Other { id, children: f }));
        },
    }
}

/// What the expressions of a node with one input see names the table of each
/// column where what the input outputs does.
pub proof fn lemma_input_scope(plan: PlanView)
    requires
        plan.inputs.len() == 1,
        collect(all_outputs(plan.inputs)) matches Some(Ok(_)),
    ensures
        outputs(plan.inputs[0]) matches Some(Ok(_)),
        input_scope(plan).outputs.len() == 1,
        input_scope(plan).outputs[0] == outputs(plan.inputs[0])->0->Ok_0,
{
    let s = all_outputs(plan.inputs);
    lemma_collect(s);
    assert(s[0] == outputs(plan.inputs[0]));
}

/// The outputs of a plan of filters and projections over one table name the
/// table of each column.
proof fn lemma_outputs_qualified(plan: PlanView)
    requires
        collected(plan) matches Some(Ok(_)),
        outputs(plan) matches Some(Ok(_)),
    ensures
        none_bare(outputs(plan)->0->Ok_0),
    decreases plan,
{
    match plan.node {
        PlanNodeView::Filter { .. } => {
            assert(all_outputs(plan.inputs)[0] == outputs(plan.inputs[0]));
            lemma_outputs_qualified(plan.inputs[0]);
        },
        PlanNodeView::Projection { expr } => {
            lemma_input_scope(plan);
            lemma_outputs_qualified(plan.inputs[0]);
            let scope = input_scope(plan);
            let s = flats(expr, scope);
            lemma_collect(s);
            let f = outputs(plan)->0->Ok_0;
            assert(node_outputs(plan) == collect(s));
            assert forall|i: int| 0 <= i < f.len() implies !has_bare_column(#[trigger] f[i]) by {
                assert(s[i] == flat(expr[i], scope));
                lemma_flat_qualified(expr[i], scope);
            }
        },
        PlanNodeView::TableScan { table_name, source, projection, .. } => {
            let all = schema_columns(qualified(table_name, source));
            let columns = scan_columns(table_name, source, projection)->Ok_0;
            let f = outputs(plan)->0->Ok_0;
            assert(f == column_exprs(columns));
            if let Some(indices) = projection {
                lemma_within_bounds(indices, source.len());
            }
            assert forall|i: int| 0 <= i < f.len() implies !has_bare_column(#[trigger] f[i]) by {
                assert(f[i] == ExprView::Column(columns[i]));
            }
        },
        _ => {},
    }
}

pub proof fn lemma_within_bounds(indices: Seq<usize>, fields: nat)
    requires
        first_out_of_bounds(indices, fields) is None,
    ensures
        forall|i: int| 0 <= i < indices.len() ==> (#[trigger] indices[i]) < fields,
    decreases indices.len(),
{
    if indices.len() > 0 {
        let front = indices.drop_last();
        lemma_within_bounds(front, fields);
        assert forall|i: int| 0 <= i < indices.len() implies (#[trigger] indices[i]) < fields by {
            if i < front.len() {
                assert(front[i] == indices[i]);
            }
        }
    }
}

/// The filters that are collected from a plan name the table of each column.
proof fn lemma_filters_qualified(plan: PlanView)
    requires
        collected(plan) matches Some(Ok(_)),
    ensures
        none_bare(collected(plan)->0->Ok_0.filters),
    decreases plan,
{
    match plan.node {
        PlanNodeView::Filter { predicate } => {
            lemma_filters_qualified(plan.inputs[0]);
            lemma_flattened_one(predicate, plan);
            lemma_input_scope(plan);
            lemma_outputs_qualified(plan.inputs[0]);
            let table_filter = flat(predicate, input_scope(plan))->0->Ok_0;
            lemma_flat_qualified(predicate, input_scope(plan));
            lemma_normal_qualified(Seq::empty(), table_filter);
            let rest = collected(plan.inputs[0])->0->Ok_0.filters;
            let s = seq![unaliased(table_filter)] + rest;
            assert(collected(plan)->0->Ok_0.filters == s);
            assert forall|i: int| 0 <= i < s.len() implies !has_bare_column(#[trigger] s[i]) by {
                if i > 0 {
                    assert(s[i] == rest[i - 1]);
                }
            }
        },
        PlanNodeView::Projection { .. } => {
            lemma_filters_qualified(plan.inputs[0]);
        },
        PlanNodeView::TableScan { table_name, source, filters, .. } => {
            let fields = qualified(table_name, source);
            let scope = scan_scope(fields);
            let s = flats(filters, scope);
            lemma_collect(s);
            let f = collected(plan)->0->Ok_0.filters;
            let columns = column_exprs(schema_columns(fields));
            assert forall|k: int| 0 <= k < columns.len() implies !has_bare_column(
                #[trigger] columns[k],
            ) by {
                assert(columns[k] == ExprView::Column(fields[k].column));
            }
            assert(none_bare(scope.outputs[0]));
            assert forall|i: int| 0 <= i < f.len() implies !has_bare_column(#[trigger] f[i]) by {
                assert(s[i] == flat(filters[i], scope));
                lemma_flat_qualified(filters[i], scope);
            }
        },
        _ => {},
    }
}

proof fn lemma_none_bare_add(a: Seq<ExprView>, b: Seq<ExprView>)
    requires
        none_bare(a),
        none_bare(b),
    ensures
        none_bare(a + b),
{
    let s = a + b;
    assert forall|i: int| 0 <= i < s.len() implies !has_bare_column(#[trigger] s[i]) by {
        if i < a.len() {
            assert(s[i] == a[i]);
        } else {
            assert(s[i] == b[i - a.len()]);
        }
    }
}

proof fn lemma_conjuncts_qualified(e: ExprView)
    requires
        !has_bare_column(e),
    ensures
        none_bare(e.conjuncts()),
    decreases e,
{
    match e {
        ExprView::BinaryExpr { left, op: Operator::And, right } => {
            lemma_conjuncts_qualified(*left);
            lemma_conjuncts_qualified(*right);
            lemma_none_bare_add((*left).conjuncts(), (*right).conjuncts());
        },
        ExprView::Alias { expr, .. } => {
            lemma_conjuncts_qualified(*expr);
        },
        _ => {},
    }
}

proof fn lemma_all_conjuncts_qualified(s: Seq<ExprView>)
    requires
        none_bare(s),
    ensures
        none_bare(all_conjuncts(s)),
    decreases s.len(),
{
    if s.len() > 0 {
        let front = s.drop_last();
        assert(forall|i: int| 0 <= i < front.len() ==> #[trigger] front[i] == s[i]);
        lemma_all_conjuncts_qualified(front);
        assert(!has_bare_column(s[s.len() - 1]));
        lemma_conjuncts_qualified(s.last());
        lemma_none_bare_add(all_conjuncts(front), s.last().conjuncts());
    }
}

/// A predicate that names the table of each column does so with one more
/// equality that does.
proof fn lemma_equated_qualified(p: PredicateView, c1: ColumnView, c2: ColumnView)
    requires
        p.well_formed(),
        name_tables(p.classes),
        c1.relation is Some,
        c2.relation is Some,
    ensures
        equated(p, c1, c2) matches Some(Ok(q)) ==> name_tables(q.classes) && q.residuals
            == p.residuals,
{
    if let Some(Ok(q)) = equated(p, c1, c2) {
        lemma_class_index(p.classes, c1);
        lemma_class_index(p.classes, c2);
        lemma_with_column(seq![c1], c2);
        assert forall|k: int, c: ColumnView|
            0 <= k < q.classes.len() && #[trigger] q.classes[k].contains(c) implies c.relation
            is Some by {
            match (class_index(p.classes, c1), class_index(p.classes, c2)) {
                (None, None) => {
                    if k < p.classes.len() {
                        assert(p.classes[k].contains(c));
                    } else {
                        assert(seq![c1].contains(c) || c == c2);
                    }
                },
                (None, Some(i)) => {
                    lemma_with_column(p.classes[i], c1);
                    assert(c == c1 || p.classes[k].contains(c));
                },
                (Some(i), None) => {
                    lemma_with_column(p.classes[i], c2);
                    assert(c == c2 || p.classes[k].contains(c));
                },
                (Some(a), Some(b)) => {
                    if a == b {
                        assert(p.classes[k].contains(c));
                    } else {
                        let (i, j) = if a < b {
                            (a, b)
                        } else {
                            (b, a)
                        };
                        lemma_union(p.classes[i], p.classes[j]);
                        let n = if k < j {
                            k
                        } else {
                            k + 1
                        };
                        assert(p.classes[n].contains(c) || p.classes[j].contains(c));
                    }
                },
            }
        }
    }
}

/// A predicate that names the table of each column does so with one more filter
/// that does.
proof fn lemma_conjoined_qualified(p: PredicateView, e: ExprView)
    requires
        p.well_formed(),
        name_tables(p.classes),
        none_bare(p.residuals),
        !has_bare_column(e),
    ensures
        conjoined(p, e) matches Some(Ok(q)) ==> name_tables(q.classes) && none_bare(q.residuals),
{
    if let Some(Ok(q)) = conjoined(p, e) {
        let inner = match e {
            ExprView::Not(x) => *x,
            _ => e,
        };
        assert(!has_bare_column(inner));
        if let ExprView::BinaryExpr { left, op, right } = inner {
            assert(!has_bare_column(*left) && !has_bare_column(*right));
            if let (ExprView::Column(c1), ExprView::Column(c2)) = (*left, *right) {
                lemma_equated_qualified(p, c1, c2);
            }
        }
        if q.residuals != p.residuals {
            let new = q.residuals.last();
            assert(q.residuals == p.residuals.push(new));
            assert(!has_bare_column(new));
            assert forall|i: int| 0 <= i < q.residuals.len() implies !has_bare_column(
                #[trigger] q.residuals[i],
            ) by {
                if i < p.residuals.len() {
                    assert(q.residuals[i] == p.residuals[i]);
                }
            }
        }
    }
}

proof fn lemma_all_conjoined_qualified(p: PredicateView, s: Seq<ExprView>)
    requires
        p.well_formed(),
        name_tables(p.classes),
        none_bare(p.residuals),
        none_bare(s),
    ensures
        all_conjoined(p, s) matches Some(Ok(q)) ==> q.well_formed() && name_tables(q.classes)
            && none_bare(q.residuals),
    decreases s.len(),
{
    if s.len() > 0 {
        let front = s.drop_last();
        assert(forall|i: int| 0 <= i < front.len() ==> #[trigger] front[i] == s[i]);
        lemma_all_conjoined_qualified(p, front);
        assert(!has_bare_column(s[s.len() - 1]));
        if let Some(Ok(q)) = all_conjoined(p, front) {
            lemma_conjoined_qualified(q, s.last());
            lemma_conjoined_well_formed(q, s.last());
        }
    }
}

/// The normal form of a plan names the table of each column.
pub proof fn normal_forms_name_tables(plan: PlanView)
    ensures
        normal_form(plan) matches Some(Ok(form)) ==> {
            &&& form.aligned()
            &&& form.predicate.well_formed()
            &&& name_tables(form.predicate.classes)
            &&& none_bare(form.predicate.residuals)
            &&& none_bare(form.output_exprs)
        },
{
    if let Some(Ok(form)) = normal_form(plan) {
        let c = collected(plan)->0->Ok_0;
        let start = initial(c.tables, c.fields);
        lemma_collected_fields(plan);
        lemma_collected_columns(plan);
        lemma_initial_well_formed(c.tables, c.fields);
        lemma_filters_qualified(plan);
        lemma_all_conjuncts_qualified(c.filters);
        assert forall|i: int, x: ColumnView|
            0 <= i < start.classes.len() && #[trigger] start.classes[i].contains(x) implies x.relation
            is Some by {
            assert(x == c.fields[i].column);
        }
        lemma_all_conjoined_qualified(start, all_conjuncts(c.filters));
        lemma_outputs_qualified(plan);
        let exprs = outputs(plan)->0->Ok_0;
        assert forall|i: int| 0 <= i < form.output_exprs.len() implies !has_bare_column(
            #[trigger] form.output_exprs[i],
        ) by {
            assert(!has_bare_column(exprs[i]));
            lemma_normal_qualified(form.predicate.classes, exprs[i]);
        }
    }
}

/// The fields of the table of a plan name it.
proof fn lemma_collected_columns(plan: PlanView)
    requires
        collected(plan) matches Some(Ok(_)),
    ensures
        forall|i: int|
            0 <= i < collected(plan)->0->Ok_0.fields.len() ==> (
            #[trigger] collected(plan)->0->Ok_0.fields[i]).column.relation is Some,
    decreases plan,
{
    match plan.node {
        PlanNodeView::Filter { .. } => {
            lemma_collected_columns(plan.inputs[0]);
        },
        PlanNodeView::Projection { .. } => {
            lemma_collected_columns(plan.inputs[0]);
        },
        _ => {},
    }
}

/// A rewrite answers the query: a row of the table is one of the query exactly
/// where it is one of the view and the row that the view outputs for it passes
/// the filter of the rewrite; and the rewrite then outputs what the query
/// outputs.
pub proof fn rewrite_answers_query(
    engine: Engine,
    row: Row,
    query_plan: PlanView,
    view_plan: PlanView,
    query: SpjView,
    view: SpjView,
    rewrite: RewriteView,
)
    requires
        engine.lawful(),
        evaluable(engine, row, query_plan),
        evaluable(engine, row, view_plan),
        normal_form(query_plan) == Some(Ok::<SpjView, ErrorView>(query)),
        normal_form(view_plan) == Some(Ok::<SpjView, ErrorView>(view)),
        distinct_names(view),
        rewritten(query, view) == Ok::<Option<RewriteView>, ErrorView>(Some(rewrite)),
    ensures
        in_plan(engine, row, query_plan) <==> in_plan(engine, row, view_plan) && passes(
            engine,
            output_row(engine, row, view),
            rewrite,
        ),
        in_plan(engine, row, query_plan) ==> {
            &&& rewrite.projection.len() == outputs(query_plan)->0->Ok_0.len()
            &&& forall|i: int|
                0 <= i < rewrite.projection.len() ==> eval(
                    engine,
                    output_row(engine, row, view),
                    #[trigger] rewrite.projection[i],
                ) == eval(engine, row, (outputs(query_plan)->0->Ok_0)[i])
        },
{
    normal_forms_name_tables(query_plan);
    normal_forms_name_tables(view_plan);
    assert(matchable(query, view));
    predicate_describes_plan(engine, row, query_plan);
    predicate_describes_plan(engine, row, view_plan);
    if in_plan(engine, row, query_plan) {
        rewrite_loses_no_row(engine, row, query, view, rewrite);
        rewrite_outputs_query(engine, row, query, view, rewrite);
        assert forall|i: int| 0 <= i < rewrite.projection.len() implies eval(
            engine,
            output_row(engine, row, view),
            #[trigger] rewrite.projection[i],
        ) == eval(engine, row, (outputs(query_plan)->0->Ok_0)[i]) by {
            normal_form_outputs_plan(engine, row, query_plan, i);
        }
    }
    if in_plan(engine, row, view_plan) && passes(engine, output_row(engine, row, view), rewrite) {
        rewrite_gives_no_wrong_row(engine, row, query, view, rewrite);
    }
}

/// What a plan outputs for the rows of its table, one list of values for each row
/// that is one of the plan, in the order of the rows.
pub open spec fn plan_rows(engine: Engine, rows: Seq<Row>, plan: PlanView) -> Seq<Seq<ScalarView>>
    decreases rows.len(),
{
    if rows.len() == 0 {
        Seq::empty()
    } else {
        let front = plan_rows(engine, rows.drop_last(), plan);
        if in_plan(engine, rows.last(), plan) {
            front.push(evals(engine, rows.last(), outputs(plan)->0->Ok_0))
        } else {
            front
        }
    }
}

/// The row that a view holds for a row of its table: each field, by its name, has
/// the value that the view outputs.
pub open spec fn held_row(engine: Engine, row: Row, plan: PlanView) -> Row {
    |c: ColumnView|
        if exists|i: int|
            0 <= i < plan.schema.len() && (#[trigger] plan.schema[i]).column.name == c.name {
            let i = choose|i: int|
                0 <= i < plan.schema.len() && (#[trigger] plan.schema[i]).column.name == c.name;
            eval(engine, row, (outputs(plan)->0->Ok_0)[i])
        } else {
            null_of(DataTypeView::Null)
        }
}

/// The rows that a view holds, in the order of the rows of its table.
pub open spec fn held_rows(engine: Engine, rows: Seq<Row>, plan: PlanView) -> Seq<Row>
    decreases rows.len(),
{
    if rows.len() == 0 {
        Seq::empty()
    } else {
        let front = held_rows(engine, rows.drop_last(), plan);
        if in_plan(engine, rows.last(), plan) {
            front.push(held_row(engine, rows.last(), plan))
        } else {
            front
        }
    }
}

/// What a rewrite outputs for the rows of a view.
pub open spec fn rewrite_rows(engine: Engine, held: Seq<Row>, rewrite: RewriteView) -> Seq<
    Seq<ScalarView>,
>
    decreases held.len(),
{
    if held.len() == 0 {
        Seq::empty()
    } else {
        let front = rewrite_rows(engine, held.drop_last(), rewrite);
        if passes(engine, held.last(), rewrite) {
            front.push(evals(engine, held.last(), rewrite.projection))
        } else {
            front
        }
    }
}

/// The row that a view holds is the one that its normal form outputs.
pub proof fn lemma_held_row(engine: Engine, row: Row, plan: PlanView, view: SpjView)
    requires
        engine.lawful(),
        evaluable(engine, row, plan),
        normal_form(plan) == Some(Ok::<SpjView, ErrorView>(view)),
        distinct_names(view),
        in_plan(engine, row, plan),
    ensures
        held_row(engine, row, plan) == output_row(engine, row, view),
{
    let held = held_row(engine, row, plan);
    let out = output_row(engine, row, view);
    normal_forms_name_tables(plan);
    assert forall|c: ColumnView| #[trigger] held(c) == out(c) by {
        if exists|i: int|
            0 <= i < plan.schema.len() && (#[trigger] plan.schema[i]).column.name == c.name {
            let i = choose|i: int|
                0 <= i < plan.schema.len() && (#[trigger] plan.schema[i]).column.name == c.name;
            assert(view.output_schema[i].column.name == c.name);
            let j = choose|j: int|
                0 <= j < view.output_exprs.len() && (#[trigger] view.output_schema[j]).column.name
                    == c.name;
            assert(i == j);
            normal_form_outputs_plan(engine, row, plan, i);
        } else {
            assert forall|j: int| 0 <= j < view.output_exprs.len() implies (
            #[trigger] view.output_schema[j]).column.name != c.name by {
                assert(plan.schema[j].column.name != c.name);
            }
        }
    }
    assert(held =~= out);
}

/// A rewrite gives the rows of the query: over every table, what it outputs for
/// the rows that the view holds is what the query outputs, row by row and as
/// often, under the names of the query's fields.
pub proof fn rewrite_gives_the_rows_of_the_query(
    engine: Engine,
    rows: Seq<Row>,
    query_plan: PlanView,
    view_plan: PlanView,
    query: SpjView,
    view: SpjView,
    rewrite: RewriteView,
)
    requires
        engine.lawful(),
        forall|k: int|
            0 <= k < rows.len() ==> evaluable(engine, #[trigger] rows[k], query_plan) && evaluable(
                engine,
                rows[k],
                view_plan,
            ),
        normal_form(query_plan) == Some(Ok::<SpjView, ErrorView>(query)),
        normal_form(view_plan) == Some(Ok::<SpjView, ErrorView>(view)),
        distinct_names(view),
        rewritten(query, view) == Ok::<Option<RewriteView>, ErrorView>(Some(rewrite)),
    ensures
        rewrite_rows(engine, held_rows(engine, rows, view_plan), rewrite) == plan_rows(
            engine,
            rows,
            query_plan,
        ),
        rewrite.projection.len() == query_plan.schema.len(),
        forall|i: int|
            0 <= i < query_plan.schema.len() ==> {
                &&& (#[trigger] rewrite.projection[i]) is Alias
                &&& rewrite.projection[i]->relation == query_plan.schema[i].column.relation
                &&& rewrite.projection[i]->name == query_plan.schema[i].column.name
            },
    decreases rows.len(),
{
    normal_forms_name_tables(query_plan);
    lemma_projection(query, view, query.output_exprs.len());
    if rows.len() > 0 {
        let front = rows.drop_last();
        let row = rows.last();
        assert(rows[rows.len() - 1] == row);
        assert forall|k: int| 0 <= k < front.len() implies evaluable(
            engine,
            #[trigger] front[k],
            query_plan,
        ) && evaluable(engine, front[k], view_plan) by {
            assert(front[k] == rows[k]);
        }
        rewrite_gives_the_rows_of_the_query(
            engine,
            front,
            query_plan,
            view_plan,
            query,
            view,
            rewrite,
        );
        rewrite_answers_query(engine, row, query_plan, view_plan, query, view, rewrite);
        let held = held_rows(engine, rows, view_plan);
        let held_front = held_rows(engine, front, view_plan);
        if in_plan(engine, row, view_plan) {
            lemma_held_row(engine, row, view_plan, view);
            let out = output_row(engine, row, view);
            assert(held == held_front.push(out));
            assert(held.drop_last() =~= held_front);
            assert(held.last() == out);
            if in_plan(engine, row, query_plan) {
                assert(evals(engine, out, rewrite.projection) =~= evals(
                    engine,
                    row,
                    outputs(query_plan)->0->Ok_0,
                ));
            }
        }
    }
}

} // verus!
