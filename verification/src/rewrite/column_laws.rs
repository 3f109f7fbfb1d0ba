//! What the columns of a plan stand for, and what a plan shows for a row of its
//! tables.
use vstd::prelude::*;

use crate::error::ErrorView;
use crate::expr::{all_conjuncts, ExprView};
use crate::names::{ColumnView, TableReferenceView};
use crate::plan::{
    all_outputs, all_using_sets, bare_columns, collect, column_exprs, first_out_of_bounds, flat,
    flat_column, flats, flattened, join_columns, locate, node_outputs, outputs, scan_columns,
    scan_scope, scope_of, using_sets, JoinType, PlanNodeView, PlanView, ScopeView,
};
use crate::rewrite::answer_laws::{
    equals_are_of_one_type, plans_have_a_normal_form, unfiltered_views_answer_every_query,
};
use crate::rewrite::normal_form::{normal_form, rewritten, RewriteView, SpjView};
use crate::rewrite::plan_laws::{
    collected_filters_describe_plan, evaluable, flattening_keeps_value, held_row, in_plan,
    lemma_collect, lemma_held_row, rewrite_answers_query,
};
use crate::rewrite::predicate::{all_conjoined, collected, initial, PredicateView};
use crate::rewrite::semantics::{all_hold, eval, evals, holds, is_true, Engine, Row};
use crate::rewrite::soundness::distinct_names;
use crate::rewrite::table_laws::table_columns;
use crate::scalar::{null_of, DataTypeView, ScalarView};
use crate::schema::{
    all_in, all_named, first_repeated, goes_by, index_of, lemma_index_of, lemma_index_of_first,
    named, qualified, schema_columns, FieldView, SourceFieldView,
};

verus! {

// ---------------------------------------------------------------------------
// Names
// ---------------------------------------------------------------------------

/// A part of a name that both have is the same in both.
pub open spec fn agree(a: Option<Seq<char>>, b: Option<Seq<char>>) -> bool {
    match (a, b) {
        (Some(x), Some(y)) => x == y,
        _ => true,
    }
}

/// The parts of the name of a table: its own name, its schema and its catalog.
pub open spec fn name_parts(r: TableReferenceView) -> (
    Seq<char>,
    Option<Seq<char>>,
    Option<Seq<char>>,
) {
    match r {
        TableReferenceView::Bare { table } => (table, None, None),
        TableReferenceView::Partial { schema, table } => (table, Some(schema), None),
        TableReferenceView::Full { catalog, schema, table } => (table, Some(schema), Some(catalog)),
    }
}

/// A field is one that a column can mean: it has the name of the column and, where
/// the column names a table, it names that table, with more or fewer parts.
pub open spec fn meant(field: FieldView, c: ColumnView) -> bool {
    &&& field.column.name == c.name
    &&& c.relation matches Some(r) ==> field.column.relation matches Some(s) && {
        let (t, u) = (name_parts(r), name_parts(s));
        t.0 == u.0 && agree(t.1, u.1) && agree(t.2, u.2)
    }
}

/// A field goes by the names of the columns that can mean it.
pub proof fn fields_go_by_what_means_them(field: FieldView, c: ColumnView)
    ensures
        goes_by(field, c) <==> meant(field, c),
{
}

/// A column is looked up at the first field that it can mean, where there is one.
pub proof fn lookups_find_the_first_field(fields: Seq<FieldView>, c: ColumnView, i: int)
    ensures
        index_of(fields, c) == Some(i) <==> {
            &&& 0 <= i < fields.len()
            &&& meant(fields[i], c)
            &&& forall|k: int| 0 <= k < i ==> !meant(#[trigger] fields[k], c)
        },
        index_of(fields, c) is None <==> forall|k: int|
            0 <= k < fields.len() ==> !meant(#[trigger] fields[k], c),
{
    lemma_index_of(fields, c);
    if 0 <= i < fields.len() && meant(fields[i], c) {
        lemma_index_of_first(fields, c, i);
    }
    if let Some(j) = index_of(fields, c) {
        assert(meant(fields[j], c));
        assert forall|k: int| 0 <= k < j implies !meant(#[trigger] fields[k], c) by {
            if meant(fields[k], c) {
                lemma_index_of_first(fields, c, k);
            }
        }
    }
}

/// A schema has one field of the place that a column can mean.
pub open spec fn only(schemas: Seq<Seq<FieldView>>, c: ColumnView, k: int, i: int) -> bool {
    &&& 0 <= k < schemas.len()
    &&& 0 <= i < schemas[k].len()
    &&& meant(schemas[k][i], c)
    &&& forall|l: int, j: int|
        0 <= l < schemas.len() && 0 <= j < schemas[l].len() && #[trigger] meant(schemas[l][j], c)
            ==> l == k && j == i
}

proof fn lemma_named_none(fields: Seq<FieldView>, name: Seq<char>)
    requires
        forall|i: int| 0 <= i < fields.len() ==> (#[trigger] fields[i]).column.name != name,
    ensures
        named(fields, name).len() == 0,
    decreases fields.len(),
{
    if fields.len() > 0 {
        let front = fields.drop_last();
        assert forall|i: int| 0 <= i < front.len() implies (#[trigger] front[i]).column.name
            != name by {
            assert(front[i] == fields[i]);
        }
        lemma_named_none(front, name);
    }
}

proof fn lemma_named_one(fields: Seq<FieldView>, name: Seq<char>, i: int)
    requires
        0 <= i < fields.len(),
        fields[i].column.name == name,
        forall|k: int| 0 <= k < fields.len() && k != i ==> (#[trigger] fields[k]).column.name != name,
    ensures
        named(fields, name) == seq![fields[i]],
    decreases fields.len(),
{
    let front = fields.drop_last();
    if i == fields.len() - 1 {
        assert forall|k: int| 0 <= k < front.len() implies (#[trigger] front[k]).column.name
            != name by {
            assert(front[k] == fields[k]);
        }
        lemma_named_none(front, name);
        assert(named(fields, name) =~= seq![fields[i]]);
    } else {
        assert(front[i] == fields[i]);
        assert forall|k: int| 0 <= k < front.len() && k != i implies (
        #[trigger] front[k]).column.name != name by {
            assert(front[k] == fields[k]);
        }
        lemma_named_one(front, name, i);
    }
}

proof fn lemma_all_named_none(schemas: Seq<Seq<FieldView>>, name: Seq<char>)
    requires
        forall|k: int, i: int|
            0 <= k < schemas.len() && 0 <= i < schemas[k].len() ==> (
            #[trigger] schemas[k][i]).column.name != name,
    ensures
        all_named(schemas, name).len() == 0,
    decreases schemas.len(),
{
    if schemas.len() > 0 {
        let front = schemas.drop_last();
        assert forall|k: int, i: int| 0 <= k < front.len() && 0 <= i < front[k].len() implies (
        #[trigger] front[k][i]).column.name != name by {
            assert(front[k] == schemas[k]);
        }
        lemma_all_named_none(front, name);
        let last = schemas.last();
        assert forall|i: int| 0 <= i < last.len() implies (#[trigger] last[i]).column.name
            != name by {
            assert(last[i] == schemas[schemas.len() - 1][i]);
        }
        lemma_named_none(last, name);
    }
}

proof fn lemma_all_named_one(schemas: Seq<Seq<FieldView>>, c: ColumnView, k: int, i: int)
    requires
        c.relation is None,
        only(schemas, c, k, i),
    ensures
        all_named(schemas, c.name) == seq![schemas[k][i].column],
    decreases schemas.len(),
{
    let front = schemas.drop_last();
    let last = schemas.last();
    let n = schemas.len() - 1;
    if k == n {
        assert forall|l: int, j: int| 0 <= l < front.len() && 0 <= j < front[l].len() implies (
        #[trigger] front[l][j]).column.name != c.name by {
            assert(front[l] == schemas[l]);
            assert(meant(schemas[l][j], c) <==> schemas[l][j].column.name == c.name);
        }
        lemma_all_named_none(front, c.name);
        assert forall|j: int| 0 <= j < last.len() && j != i implies (#[trigger] last[j]).column.name
            != c.name by {
            assert(meant(schemas[n][j], c) <==> schemas[n][j].column.name == c.name);
        }
        lemma_named_one(last, c.name, i);
    } else {
        assert(front[k] == schemas[k]);
        assert forall|l: int, j: int|
            0 <= l < front.len() && 0 <= j < front[l].len() && #[trigger] meant(
                front[l][j],
                c,
            ) implies l == k && j == i by {
            assert(meant(schemas[l][j], c));
        }
        lemma_all_named_one(front, c, k, i);
        assert forall|j: int| 0 <= j < last.len() implies (#[trigger] last[j]).column.name
            != c.name by {
            assert(meant(schemas[n][j], c) <==> schemas[n][j].column.name == c.name);
        }
        lemma_named_none(last, c.name);
    }
    assert(all_named(schemas, c.name) =~= seq![schemas[k][i].column]);
}

proof fn lemma_located_only(schemas: Seq<Seq<FieldView>>, c: ColumnView, k: int, i: int)
    requires
        only(schemas, c, k, i),
    ensures
        locate(schemas, c) == Some((k, i)),
    decreases schemas.len(),
{
    let front = schemas.drop_last();
    let n = schemas.len() - 1;
    if k == n {
        lemma_located_none(front, c);
        lookups_find_the_first_field(schemas.last(), c, i);
        assert forall|j: int| 0 <= j < i implies !meant(#[trigger] schemas.last()[j], c) by {
            if meant(schemas.last()[j], c) {
                assert(meant(schemas[n][j], c));
            }
        }
    } else {
        assert(front[k] == schemas[k]);
        assert forall|l: int, j: int|
            0 <= l < front.len() && 0 <= j < front[l].len() && #[trigger] meant(
                front[l][j],
                c,
            ) implies l == k && j == i by {
            assert(meant(schemas[l][j], c));
        }
        lemma_located_only(front, c, k, i);
    }
}

proof fn lemma_located_none(schemas: Seq<Seq<FieldView>>, c: ColumnView)
    requires
        forall|l: int, j: int|
            0 <= l < schemas.len() && 0 <= j < schemas[l].len() ==> !(#[trigger] meant(
                schemas[l][j],
                c,
            )),
    ensures
        locate(schemas, c) is None,
    decreases schemas.len(),
{
    if schemas.len() > 0 {
        let front = schemas.drop_last();
        let last = schemas.last();
        assert forall|l: int, j: int| 0 <= l < front.len() && 0 <= j < front[l].len() implies !(
        #[trigger] meant(front[l][j], c)) by {
            assert(front[l] == schemas[l]);
            assert(!meant(schemas[l][j], c));
        }
        lemma_located_none(front, c);
        assert forall|j: int| 0 <= j < last.len() implies !meant(#[trigger] last[j], c) by {
            assert(!meant(schemas[schemas.len() - 1][j], c));
        }
        lookups_find_the_first_field(last, c, 0);
    }
}

// ---------------------------------------------------------------------------
// Columns
// ---------------------------------------------------------------------------

/// A column stands for what the input outputs in the place of the only field that
/// the column can mean, whether it names its table or not.
pub proof fn columns_stand_for_the_field_they_mean(c: ColumnView, scope: ScopeView, k: int, i: int)
    requires
        scope.alias is None,
        only(scope.schemas, c, k, i),
        k < scope.outputs.len(),
        i < scope.outputs[k].len(),
    ensures
        flat_column(c, scope) == Some(Ok::<ExprView, ErrorView>(scope.outputs[k][i])),
{
    if c.relation is None {
        lemma_all_named_one(scope.schemas, c, k, i);
        let d = scope.schemas[k][i].column;
        assert(all_named(scope.schemas, c.name)[0] == d);
        assert forall|l: int, j: int|
            0 <= l < scope.schemas.len() && 0 <= j < scope.schemas[l].len() && #[trigger] meant(
                scope.schemas[l][j],
                d,
            ) implies l == k && j == i by {
            assert(meant(scope.schemas[l][j], c));
        }
        lemma_located_only(scope.schemas, d, k, i);
    } else {
        lemma_located_only(scope.schemas, c, k, i);
    }
}

/// A column that names another table than the one that a subquery is called stays
/// as it is. One that names the subquery stands for what the only field of that
/// name stands for.
pub proof fn columns_of_a_subquery_stand_for_its_fields(
    c: ColumnView,
    scope: ScopeView,
    k: int,
    i: int,
)
    requires
        scope.alias is Some,
        only(scope.schemas, (ColumnView { relation: None, name: c.name }), k, i),
        k < scope.outputs.len(),
        i < scope.outputs[k].len(),
    ensures
        c.relation != scope.alias ==> flat_column(c, scope) == Some(
            Ok::<ExprView, ErrorView>(ExprView::Column(c)),
        ),
        c.relation == scope.alias ==> flat_column(c, scope) == Some(
            Ok::<ExprView, ErrorView>(scope.outputs[k][i]),
        ),
{
    if c.relation == scope.alias {
        let inner = ColumnView { relation: None, name: c.name };
        let plain = ScopeView { alias: None, ..scope };
        columns_stand_for_the_field_they_mean(inner, plain, k, i);
    }
}

/// A column that means no field stands for nothing: a column that does not name
/// its table is reported.
pub proof fn columns_without_a_field_stand_for_nothing(c: ColumnView, scope: ScopeView)
    requires
        scope.alias is None,
        forall|l: int, j: int|
            0 <= l < scope.schemas.len() && 0 <= j < scope.schemas[l].len() ==> !(#[trigger] meant(
                scope.schemas[l][j],
                c,
            )),
    ensures
        c.relation is None ==> flat_column(c, scope) == Some(
            Err::<ExprView, ErrorView>(ErrorView::FieldNotFound(c)),
        ),
        c.relation is Some ==> flat_column(c, scope) is None,
{
    lemma_located_none(scope.schemas, c);
    if c.relation is None {
        assert forall|k: int, i: int|
            0 <= k < scope.schemas.len() && 0 <= i < scope.schemas[k].len() implies (
        #[trigger] scope.schemas[k][i]).column.name != c.name by {
            assert(!meant(scope.schemas[k][i], c));
        }
        lemma_all_named_none(scope.schemas, c.name);
    }
}

// ---------------------------------------------------------------------------
// What plans show
// ---------------------------------------------------------------------------

/// The column means one field of the plans.
pub open spec fn clear_column(plans: Seq<PlanView>, c: ColumnView) -> bool {
    exists|k: int, i: int| #[trigger] only(fields_of(plans), c, k, i)
}

/// The fields of a list of plans.
pub open spec fn fields_of(plans: Seq<PlanView>) -> Seq<Seq<FieldView>> {
    Seq::new(plans.len(), |i: int| plans[i].schema)
}

/// Each column of an expression means one field of the plans.
pub open spec fn clear(plans: Seq<PlanView>, e: ExprView) -> bool
    decreases e,
{
    match e {
        ExprView::Column(c) => clear_column(plans, c),
        ExprView::Literal(_, _) => true,
        ExprView::BinaryExpr { left, right, .. } => clear(plans, *left) && clear(plans, *right),
        ExprView::Not(x) => clear(plans, *x),
        ExprView::Alias { expr, .. } => clear(plans, *expr),
        ExprView::Other { children, .. } => !each_clear(plans, children).contains(false),
    }
}

pub open spec fn each_clear(plans: Seq<PlanView>, s: Seq<ExprView>) -> Seq<bool>
    decreases s,
{
    Seq::new(
        s.len(),
        |i: int|
            if 0 <= i < s.len() {
                clear(plans, s[i])
            } else {
                arbitrary()
            },
    )
}

/// The row that the expressions over some plans see: each column has the value
/// that is shown for the field that it means.
pub open spec fn named_row(plans: Seq<PlanView>, values: Seq<Seq<ScalarView>>) -> Row {
    |c: ColumnView|
        {
            let (k, i) = choose|k: int, i: int| #[trigger] only(fields_of(plans), c, k, i);
            values[k][i]
        }
}

/// The values that a plan shows for a row of its tables, one for each field.
///
/// A scan shows the fields of the table that its projection names, or all of them,
/// and a node that only drops or orders rows shows what its input shows. Other
/// nodes show the values that their expressions have on what their inputs show.
pub open spec fn shows(engine: Engine, row: Row, plan: PlanView) -> Seq<ScalarView>
    decreases plan, 0nat,
{
    let values = all_show(engine, row, plan.inputs);
    let seen = named_row(plan.inputs, values);
    match plan.node {
        PlanNodeView::TableScan { table_name, source, projection: Some(indices), .. } => Seq::new(
            indices.len(),
            |i: int|
                row(
                    ColumnView {
                        relation: Some(table_name),
                        name: source[indices[i] as int].name,
                    },
                ),
        ),
        PlanNodeView::TableScan { table_name, source, projection: None, .. } => Seq::new(
            source.len(),
            |i: int| row(ColumnView { relation: Some(table_name), name: source[i].name }),
        ),
        PlanNodeView::Filter { .. }
        | PlanNodeView::Sort
        | PlanNodeView::Limit
        | PlanNodeView::Distinct { select_expr: None }
        | PlanNodeView::SubqueryAlias { .. } => values[0],
        PlanNodeView::Distinct { select_expr: Some(exprs) } => evals(engine, seen, exprs),
        PlanNodeView::Projection { expr } => evals(engine, seen, expr),
        PlanNodeView::Aggregate { group_expr, aggr_expr } => evals(engine, seen, group_expr)
            + evals(engine, seen, aggr_expr),
        PlanNodeView::Window { window_expr } => values[0] + evals(engine, seen, window_expr),
        PlanNodeView::Join { join_type } => match join_type {
            JoinType::Inner | JoinType::Left | JoinType::Right | JoinType::Full => values[0]
                + values[1],
            JoinType::LeftSemi | JoinType::LeftAnti | JoinType::LeftMark => values[0],
            JoinType::RightSemi | JoinType::RightAnti | JoinType::RightMark => values[1],
        },
        PlanNodeView::Unnest => Seq::new(plan.schema.len(), |i: int| seen(plan.schema[i].column)),
        PlanNodeView::Other => Seq::empty(),
    }
}

pub open spec fn all_show(engine: Engine, row: Row, plans: Seq<PlanView>) -> Seq<Seq<ScalarView>>
    decreases plans, 1nat,
{
    Seq::new(
        plans.len(),
        |i: int|
            if 0 <= i < plans.len() {
                shows(engine, row, plans[i])
            } else {
                arbitrary()
            },
    )
}

/// The fields of an input of a join can be told apart, by their names, from all
/// other fields of the inputs.
pub open spec fn side_clear(plans: Seq<PlanView>, k: int) -> bool {
    0 <= k < plans.len() && forall|i: int|
        0 <= i < plans[k].schema.len() ==> only(
            fields_of(plans),
            (#[trigger] plans[k].schema[i]).column,
            k,
            i,
        )
}

/// A plan has the inputs of its node and a field for each value that it shows, and
/// every column in it means one field.
pub open spec fn readable(plan: PlanView) -> bool
    decreases plan,
{
    let inputs = plan.inputs;
    let fields = plan.schema.len();
    &&& !all_readable(inputs).contains(false)
    &&& match plan.node {
        PlanNodeView::TableScan { source, projection: Some(indices), .. } => {
            &&& fields == indices.len()
            &&& forall|i: int| 0 <= i < indices.len() ==> (#[trigger] indices[i]) < source.len()
        },
        PlanNodeView::TableScan { source, projection: None, .. } => fields == source.len(),
        PlanNodeView::Filter { predicate } => inputs.len() == 1 && fields == inputs[0].schema.len()
            && clear(inputs, predicate),
        PlanNodeView::Sort
        | PlanNodeView::Limit
        | PlanNodeView::Distinct { select_expr: None }
        | PlanNodeView::SubqueryAlias { .. } => inputs.len() > 0 && fields
            == inputs[0].schema.len(),
        PlanNodeView::Distinct { select_expr: Some(exprs) } => fields == exprs.len()
            && !each_clear(inputs, exprs).contains(false),
        PlanNodeView::Projection { expr } => fields == expr.len() && !each_clear(
            inputs,
            expr,
        ).contains(false),
        PlanNodeView::Aggregate { group_expr, aggr_expr } => {
            &&& fields == group_expr.len() + aggr_expr.len()
            &&& !each_clear(inputs, group_expr).contains(false)
            &&& !each_clear(inputs, aggr_expr).contains(false)
        },
        PlanNodeView::Window { window_expr } => {
            &&& inputs.len() == 1
            &&& fields == inputs[0].schema.len() + window_expr.len()
            &&& !each_clear(inputs, window_expr).contains(false)
            &&& forall|i: int|
                0 <= i < inputs[0].schema.len() ==> only(
                    fields_of(inputs),
                    (ColumnView {
                        relation: None,
                        name: (#[trigger] inputs[0].schema[i]).column.name,
                    }),
                    0,
                    i,
                )
        },
        PlanNodeView::Join { join_type } => inputs.len() == 2 && match join_type {
            JoinType::Inner | JoinType::Left | JoinType::Right | JoinType::Full => side_clear(
                inputs,
                0,
            ) && side_clear(inputs, 1) && fields == inputs[0].schema.len()
                + inputs[1].schema.len(),
            JoinType::LeftSemi | JoinType::LeftAnti | JoinType::LeftMark => side_clear(inputs, 0)
                && fields == inputs[0].schema.len(),
            JoinType::RightSemi | JoinType::RightAnti | JoinType::RightMark => side_clear(
                inputs,
                1,
            ) && fields == inputs[1].schema.len(),
        },
        PlanNodeView::Unnest => forall|i: int|
            0 <= i < plan.schema.len() ==> clear_column(
                inputs,
                (#[trigger] plan.schema[i]).column,
            ),
        PlanNodeView::Other => false,
    }
}

pub open spec fn all_readable(plans: Seq<PlanView>) -> Seq<bool>
    decreases plans,
{
    Seq::new(
        plans.len(),
        |i: int|
            if 0 <= i < plans.len() {
                readable(plans[i])
            } else {
                arbitrary()
            },
    )
}

proof fn lemma_collect_all<T>(s: Seq<Option<Result<T, ErrorView>>>)
    requires
        forall|i: int| 0 <= i < s.len() ==> ((#[trigger] s[i]) matches Some(Ok(_))),
    ensures
        collect(s) matches Some(Ok(_)),
    decreases s.len(),
{
    if s.len() > 0 {
        let front = s.drop_last();
        assert forall|i: int| 0 <= i < front.len() implies ((#[trigger] front[i]) matches Some(
            Ok(_),
        )) by {
            assert(front[i] == s[i]);
        }
        lemma_collect_all(front);
        assert(s[s.len() - 1] matches Some(Ok(_)));
    }
}

proof fn lemma_named_row(
    plans: Seq<PlanView>,
    values: Seq<Seq<ScalarView>>,
    c: ColumnView,
    k: int,
    i: int,
)
    requires
        only(fields_of(plans), c, k, i),
    ensures
        named_row(plans, values)(c) == values[k][i],
{
    let (l, j) = choose|l: int, j: int| #[trigger] only(fields_of(plans), c, l, j);
    assert(only(fields_of(plans), c, l, j));
    assert(meant(fields_of(plans)[k][i], c));
}

/// The scope sees what the plans show.
spec fn sees(
    engine: Engine,
    row: Row,
    scope: ScopeView,
    plans: Seq<PlanView>,
    values: Seq<Seq<ScalarView>>,
) -> bool {
    &&& scope.alias is None
    &&& scope.schemas == fields_of(plans)
    &&& scope.outputs.len() == plans.len()
    &&& values.len() == plans.len()
    &&& forall|k: int|
        0 <= k < plans.len() ==> (#[trigger] scope.outputs[k]).len() == plans[k].schema.len()
            && values[k] == evals(engine, row, scope.outputs[k])
}

proof fn lemma_clear_flat(
    engine: Engine,
    row: Row,
    scope: ScopeView,
    plans: Seq<PlanView>,
    values: Seq<Seq<ScalarView>>,
    e: ExprView,
)
    requires
        sees(engine, row, scope, plans, values),
        clear(plans, e),
    ensures
        flat(e, scope) matches Some(Ok(f)) && eval(engine, row, f) == eval(
            engine,
            named_row(plans, values),
            e,
        ),
    decreases e,
{
    let seen = named_row(plans, values);
    match e {
        ExprView::Column(c) => {
            let (k, i) = choose|k: int, i: int| #[trigger] only(fields_of(plans), c, k, i);
            assert(only(fields_of(plans), c, k, i));
            assert(scope.outputs[k].len() == plans[k].schema.len());
            columns_stand_for_the_field_they_mean(c, scope, k, i);
            lemma_named_row(plans, values, c, k, i);
        },
        ExprView::Literal(_, _) => {},
        ExprView::BinaryExpr { left, right, .. } => {
            lemma_clear_flat(engine, row, scope, plans, values, *left);
            lemma_clear_flat(engine, row, scope, plans, values, *right);
        },
        ExprView::Not(x) => {
            lemma_clear_flat(engine, row, scope, plans, values, *x);
        },
        ExprView::Alias { expr, .. } => {
            lemma_clear_flat(engine, row, scope, plans, values, *expr);
        },
        ExprView::Other { id, children } => {
            let s = flats(children, scope);
            assert forall|i: int| 0 <= i < children.len() implies (#[trigger] s[i] matches Some(
                Ok(f),
            ) && eval(engine, row, f) == eval(engine, seen, children[i])) by {
                assert(each_clear(plans, children)[i] == clear(plans, children[i]));
                lemma_clear_flat(engine, row, scope, plans, values, children[i]);
            }
            lemma_collect_all(s);
            lemma_collect(s);
            let f = collect(s)->0->Ok_0;
            assert forall|i: int| 0 <= i < children.len() implies #[trigger] evals(
                engine,
                row,
                f,
            )[i] == evals(engine, seen, children)[i] by {
                assert(s[i] == Some(Ok::<ExprView, ErrorView>(f[i])));
            }
            assert(evals(engine, row, f) =~= evals(engine, seen, children));
            assert(flat(e, scope)->0->Ok_0 == (ExprView::Other { id, children: f }));
        },
    }
}

proof fn lemma_clear_flats(
    engine: Engine,
    row: Row,
    scope: ScopeView,
    plans: Seq<PlanView>,
    values: Seq<Seq<ScalarView>>,
    exprs: Seq<ExprView>,
)
    requires
        sees(engine, row, scope, plans, values),
        forall|i: int| 0 <= i < exprs.len() ==> clear(plans, #[trigger] exprs[i]),
    ensures
        collect(flats(exprs, scope)) matches Some(Ok(f)) && f.len() == exprs.len() && evals(
            engine,
            row,
            f,
        ) == evals(engine, named_row(plans, values), exprs),
{
    let seen = named_row(plans, values);
    let s = flats(exprs, scope);
    assert forall|i: int| 0 <= i < exprs.len() implies (#[trigger] s[i] matches Some(Ok(f))
        && eval(engine, row, f) == eval(engine, seen, exprs[i])) by {
        lemma_clear_flat(engine, row, scope, plans, values, exprs[i]);
    }
    lemma_collect_all(s);
    lemma_collect(s);
    let f = collect(s)->0->Ok_0;
    assert forall|i: int| 0 <= i < exprs.len() implies #[trigger] evals(engine, row, f)[i]
        == evals(engine, seen, exprs)[i] by {
        assert(s[i] == Some(Ok::<ExprView, ErrorView>(f[i])));
    }
    assert(evals(engine, row, f) =~= evals(engine, seen, exprs));
}

proof fn lemma_each_clear(plans: Seq<PlanView>, s: Seq<ExprView>)
    requires
        !each_clear(plans, s).contains(false),
    ensures
        forall|i: int| 0 <= i < s.len() ==> clear(plans, #[trigger] s[i]),
{
    assert forall|i: int| 0 <= i < s.len() implies clear(plans, #[trigger] s[i]) by {
        assert(each_clear(plans, s)[i] == clear(plans, s[i]));
    }
}

proof fn lemma_evals_add(engine: Engine, row: Row, a: Seq<ExprView>, b: Seq<ExprView>)
    ensures
        evals(engine, row, a + b) == evals(engine, row, a) + evals(engine, row, b),
{
    assert(evals(engine, row, a + b) =~= evals(engine, row, a) + evals(engine, row, b));
}

proof fn lemma_no_index_out_of_bounds(indices: Seq<usize>, fields: nat)
    requires
        forall|i: int| 0 <= i < indices.len() ==> (#[trigger] indices[i]) < fields,
    ensures
        first_out_of_bounds(indices, fields) is None,
    decreases indices.len(),
{
    if indices.len() > 0 {
        let front = indices.drop_last();
        assert forall|i: int| 0 <= i < front.len() implies (#[trigger] front[i]) < fields by {
            assert(front[i] == indices[i]);
        }
        lemma_no_index_out_of_bounds(front, fields);
        assert(indices[indices.len() - 1] < fields);
    }
}

/// The inputs of a plan output what they show.
proof fn lemma_inputs_show(engine: Engine, row: Row, plan: PlanView)
    requires
        readable(plan),
    ensures
        collect(all_outputs(plan.inputs)) matches Some(Ok(o)) && {
            &&& o.len() == plan.inputs.len()
            &&& forall|k: int|
                0 <= k < plan.inputs.len() ==> {
                    &&& #[trigger] outputs(plan.inputs[k]) == Some(
                        Ok::<Seq<ExprView>, ErrorView>(o[k]),
                    )
                    &&& o[k].len() == plan.inputs[k].schema.len()
                }
            &&& !(plan.node is SubqueryAlias) ==> sees(
                engine,
                row,
                scope_of(plan, o),
                plan.inputs,
                all_show(engine, row, plan.inputs),
            )
            &&& forall|k: int|
                0 <= k < plan.inputs.len() ==> #[trigger] all_show(engine, row, plan.inputs)[k]
                    == evals(engine, row, o[k])
        },
    decreases plan, 0nat,
{
    let s = all_outputs(plan.inputs);
    let values = all_show(engine, row, plan.inputs);
    assert forall|k: int| 0 <= k < plan.inputs.len() implies (#[trigger] s[k] matches Some(Ok(v))
        && v.len() == plan.inputs[k].schema.len() && evals(engine, row, v) == values[k]) by {
        assert(all_readable(plan.inputs)[k] == readable(plan.inputs[k]));
        plans_output_what_they_show(engine, row, plan.inputs[k]);
    }
    lemma_collect_all(s);
    lemma_collect(s);
    let o = collect(s)->0->Ok_0;
    assert forall|k: int| 0 <= k < plan.inputs.len() implies {
        &&& #[trigger] outputs(plan.inputs[k]) == Some(Ok::<Seq<ExprView>, ErrorView>(o[k]))
        &&& o[k].len() == plan.inputs[k].schema.len()
        &&& values[k] == evals(engine, row, o[k])
    } by {
        assert(s[k] == outputs(plan.inputs[k]));
    }
    assert forall|k: int| 0 <= k < plan.inputs.len() implies #[trigger] values[k] == evals(
        engine,
        row,
        o[k],
    ) by {
        assert(outputs(plan.inputs[k]) == s[k]);
    }
    if !(plan.node is SubqueryAlias) {
        let scope = scope_of(plan, o);
        assert(scope.schemas =~= fields_of(plan.inputs));
        assert forall|k: int| 0 <= k < plan.inputs.len() implies (#[trigger] scope.outputs[k]).len()
            == plan.inputs[k].schema.len() && values[k] == evals(
            engine,
            row,
            scope.outputs[k],
        ) by {
            assert(outputs(plan.inputs[k]) == s[k]);
        }
        assert(sees(engine, row, scope, plan.inputs, values));
    }
}

/// The columns of an input of a join have the values that the input shows.
proof fn lemma_side(
    engine: Engine,
    plans: Seq<PlanView>,
    values: Seq<Seq<ScalarView>>,
    k: int,
)
    requires
        side_clear(plans, k),
        0 <= k < values.len(),
        values[k].len() == plans[k].schema.len(),
    ensures
        forall|i: int|
            0 <= i < plans[k].schema.len() ==> clear(
                plans,
                #[trigger] column_exprs(schema_columns(plans[k].schema))[i],
            ),
        evals(
            engine,
            named_row(plans, values),
            column_exprs(schema_columns(plans[k].schema)),
        ) == values[k],
{
    let e = column_exprs(schema_columns(plans[k].schema));
    let seen = named_row(plans, values);
    assert forall|i: int| 0 <= i < plans[k].schema.len() implies clear(plans, #[trigger] e[i])
        && evals(engine, seen, e)[i] == values[k][i] by {
        let c = plans[k].schema[i].column;
        assert(only(fields_of(plans), c, k, i));
        lemma_named_row(plans, values, c, k, i);
    }
    assert(evals(engine, seen, e) =~= values[k]);
}

/// What a plan outputs has, on every row of its tables, the values that the plan
/// shows; and a plan in which every column means one field has outputs.
pub proof fn plans_output_what_they_show(engine: Engine, row: Row, plan: PlanView)
    requires
        readable(plan),
    ensures
        outputs(plan) matches Some(Ok(v)) && v.len() == plan.schema.len() && evals(engine, row, v)
            == shows(engine, row, plan),
    decreases plan, 1nat,
{
    let inputs = plan.inputs;
    lemma_inputs_show(engine, row, plan);
    let o = collect(all_outputs(inputs))->0->Ok_0;
    let values = all_show(engine, row, inputs);
    let seen = named_row(inputs, values);
    let scope = scope_of(plan, o);
    match plan.node {
        PlanNodeView::TableScan { table_name, source, projection, .. } => {
            if let Some(indices) = projection {
                lemma_no_index_out_of_bounds(indices, source.len());
            }
            let v = node_outputs(plan)->0->Ok_0;
            assert(evals(engine, row, v) =~= shows(engine, row, plan));
        },
        PlanNodeView::Filter { .. }
        | PlanNodeView::Sort
        | PlanNodeView::Limit
        | PlanNodeView::Distinct { select_expr: None }
        | PlanNodeView::SubqueryAlias { .. } => {
            assert(all_outputs(inputs)[0] == outputs(inputs[0]));
            assert(values[0] == evals(engine, row, o[0]));
        },
        PlanNodeView::Distinct { select_expr: Some(exprs) } => {
            lemma_each_clear(inputs, exprs);
            lemma_clear_flats(engine, row, scope, inputs, values, exprs);
        },
        PlanNodeView::Projection { expr } => {
            lemma_each_clear(inputs, expr);
            lemma_clear_flats(engine, row, scope, inputs, values, expr);
        },
        PlanNodeView::Aggregate { group_expr, aggr_expr } => {
            lemma_each_clear(inputs, group_expr);
            lemma_each_clear(inputs, aggr_expr);
            let exprs = group_expr + aggr_expr;
            assert forall|i: int| 0 <= i < exprs.len() implies clear(
                inputs,
                #[trigger] exprs[i],
            ) by {
                if i < group_expr.len() {
                    assert(exprs[i] == group_expr[i]);
                } else {
                    assert(exprs[i] == aggr_expr[i - group_expr.len()]);
                }
            }
            lemma_clear_flats(engine, row, scope, inputs, values, exprs);
            lemma_evals_add(engine, seen, group_expr, aggr_expr);
        },
        PlanNodeView::Window { window_expr } => {
            let first = column_exprs(bare_columns(inputs[0].schema));
            lemma_each_clear(inputs, window_expr);
            assert(values[0] == evals(engine, row, o[0]));
            assert(outputs(inputs[0]) == Some(Ok::<Seq<ExprView>, ErrorView>(o[0])));
            assert forall|i: int| 0 <= i < first.len() implies clear(inputs, #[trigger] first[i])
                && evals(engine, seen, first)[i] == values[0][i] by {
                let c = ColumnView { relation: None, name: inputs[0].schema[i].column.name };
                assert(only(fields_of(inputs), c, 0, i));
                lemma_named_row(inputs, values, c, 0, i);
            }
            assert(evals(engine, seen, first) =~= values[0]);
            let exprs = first + window_expr;
            assert forall|i: int| 0 <= i < exprs.len() implies clear(
                inputs,
                #[trigger] exprs[i],
            ) by {
                if i < first.len() {
                    assert(exprs[i] == first[i]);
                } else {
                    assert(exprs[i] == window_expr[i - first.len()]);
                }
            }
            lemma_clear_flats(engine, row, scope, inputs, values, exprs);
            lemma_evals_add(engine, seen, first, window_expr);
        },
        PlanNodeView::Join { join_type } => {
            let left = column_exprs(schema_columns(inputs[0].schema));
            let right = column_exprs(schema_columns(inputs[1].schema));
            assert(values[0] == evals(engine, row, o[0]));
            assert(values[1] == evals(engine, row, o[1]));
            assert(outputs(inputs[0]) == Some(Ok::<Seq<ExprView>, ErrorView>(o[0])));
            assert(outputs(inputs[1]) == Some(Ok::<Seq<ExprView>, ErrorView>(o[1])));
            let exprs = column_exprs(
                join_columns(join_type, inputs[0].schema, inputs[1].schema),
            );
            if side_clear(inputs, 0) {
                lemma_side(engine, inputs, values, 0);
            }
            if side_clear(inputs, 1) {
                lemma_side(engine, inputs, values, 1);
            }
            match join_type {
                JoinType::Inner | JoinType::Left | JoinType::Right | JoinType::Full => {
                    assert(exprs =~= left + right);
                    lemma_evals_add(engine, seen, left, right);
                },
                JoinType::LeftSemi | JoinType::LeftAnti | JoinType::LeftMark => {
                    assert(exprs =~= left);
                },
                JoinType::RightSemi | JoinType::RightAnti | JoinType::RightMark => {
                    assert(exprs =~= right);
                },
            }
            assert forall|i: int| 0 <= i < exprs.len() implies clear(
                inputs,
                #[trigger] exprs[i],
            ) by {
                if exprs == right {
                    assert(exprs[i] == right[i]);
                } else if i < left.len() {
                    assert(exprs[i] == left[i]);
                } else {
                    assert(exprs[i] == right[i - left.len()]);
                }
            }
            lemma_clear_flats(engine, row, scope, inputs, values, exprs);
        },
        PlanNodeView::Unnest => {
            let exprs = column_exprs(schema_columns(plan.schema));
            assert forall|i: int| 0 <= i < exprs.len() implies clear(
                inputs,
                #[trigger] exprs[i],
            ) by {
                assert(clear_column(inputs, plan.schema[i].column));
            }
            lemma_clear_flats(engine, row, scope, inputs, values, exprs);
            assert(evals(engine, seen, exprs) =~= shows(engine, row, plan));
        },
        PlanNodeView::Other => {},
    }
}

// ---------------------------------------------------------------------------
// Plans of filters and projections
// ---------------------------------------------------------------------------

/// A table as a plan that reads all its fields.
pub open spec fn whole_table(table: TableReferenceView, source: Seq<SourceFieldView>) -> PlanView {
    PlanView {
        node: PlanNodeView::TableScan {
            table_name: table,
            source,
            projection: None,
            filters: Seq::empty(),
        },
        inputs: Seq::empty(),
        schema: Seq::new(
            source.len(),
            |i: int|
                FieldView {
                    column: ColumnView { relation: Some(table), name: source[i].name },
                    data_type: source[i].data_type,
                },
        ),
        using_columns: Seq::empty(),
        display: Seq::empty(),
    }
}

/// The table that a plan of filters and projections reads, and its fields.
pub open spec fn table_of(plan: PlanView) -> (TableReferenceView, Seq<SourceFieldView>)
    decreases plan,
{
    match plan.node {
        PlanNodeView::TableScan { table_name, source, .. } => (table_name, source),
        _ => if plan.inputs.len() > 0 {
            table_of(plan.inputs[0])
        } else {
            arbitrary()
        },
    }
}

/// The plan has filters and projections alone, over a table that has no two fields
/// of one name.
pub open spec fn selects_and_projects(plan: PlanView) -> bool
    decreases plan,
{
    match plan.node {
        PlanNodeView::TableScan { table_name, source, filters, .. } => {
            &&& plan.inputs.len() == 0
            &&& forall|i: int, j: int|
                0 <= i < j < source.len() ==> (#[trigger] source[i]).name != (
                #[trigger] source[j]).name
            &&& forall|i: int|
                0 <= i < filters.len() ==> clear(
                    seq![whole_table(table_name, source)],
                    #[trigger] filters[i],
                )
        },
        PlanNodeView::Filter { .. } => plan.inputs.len() == 1 && selects_and_projects(
            plan.inputs[0],
        ),
        PlanNodeView::Projection { .. } => plan.inputs.len() == 1 && selects_and_projects(
            plan.inputs[0],
        ),
        _ => false,
    }
}

/// The row of a table gets through a plan of filters and projections: it passes
/// the filters of the scan, which see the fields of the table, and each filter of
/// the plan, which sees what the input of the filter shows.
pub open spec fn gets_through(engine: Engine, row: Row, plan: PlanView) -> bool
    decreases plan,
{
    match plan.node {
        PlanNodeView::TableScan { table_name, source, filters, .. } => {
            let table = whole_table(table_name, source);
            let seen = named_row(seq![table], seq![shows(engine, row, table)]);
            forall|i: int| 0 <= i < filters.len() ==> is_true(eval(engine, seen, #[trigger] filters[i]))
        },
        PlanNodeView::Filter { predicate } => plan.inputs.len() == 1 && gets_through(
            engine,
            row,
            plan.inputs[0],
        ) && is_true(
            eval(
                engine,
                named_row(plan.inputs, all_show(engine, row, plan.inputs)),
                predicate,
            ),
        ),
        PlanNodeView::Projection { .. } => plan.inputs.len() == 1 && gets_through(
            engine,
            row,
            plan.inputs[0],
        ),
        _ => false,
    }
}

pub proof fn lemma_never_repeated(s: Seq<ColumnView>)
    requires
        forall|i: int, j: int| 0 <= i < j < s.len() ==> s[i] != s[j],
    ensures
        first_repeated(s) is None,
    decreases s.len(),
{
    if s.len() > 0 {
        let front = s.drop_last();
        assert forall|i: int, j: int| 0 <= i < j < front.len() implies front[i] != front[j] by {
            assert(front[i] == s[i] && front[j] == s[j]);
        }
        lemma_never_repeated(front);
        if front.contains(s.last()) {
            let i = choose|i: int| 0 <= i < front.len() && front[i] == s.last();
            assert(s[i] == s[s.len() - 1]);
        }
    }
}

/// The rows of a plan of filters and projections are those that get through it,
/// and the filters that are collected from it are those that such rows pass. What
/// is collected is of the table that the plan reads.
pub proof fn plans_keep_what_gets_through(engine: Engine, row: Row, plan: PlanView)
    requires
        readable(plan),
        selects_and_projects(plan),
    ensures
        collected(plan) matches Some(Ok(c)) && {
            &&& c.tables == seq![table_of(plan).0]
            &&& c.fields == whole_table(table_of(plan).0, table_of(plan).1).schema
            &&& all_hold(engine, row, c.filters) <==> gets_through(engine, row, plan)
        },
        in_plan(engine, row, plan) <==> gets_through(engine, row, plan),
    decreases plan,
{
    match plan.node {
        PlanNodeView::TableScan { table_name, source, filters, .. } => {
            let table = whole_table(table_name, source);
            let fields = qualified(table_name, source);
            assert(table.schema =~= fields);
            let columns = schema_columns(fields);
            assert forall|i: int, j: int| 0 <= i < j < columns.len() implies columns[i]
                != columns[j] by {
                assert(source[i].name != source[j].name);
            }
            lemma_never_repeated(columns);
            let scope = scan_scope(fields);
            let plans = seq![table];
            let values = seq![shows(engine, row, table)];
            assert(scope.schemas =~= fields_of(plans));
            assert(shows(engine, row, table) =~= evals(engine, row, scope.outputs[0]));
            assert(sees(engine, row, scope, plans, values));
            lemma_clear_flats(engine, row, scope, plans, values, filters);
            let flat_filters = collect(flats(filters, scope))->0->Ok_0;
            let seen = named_row(plans, values);
            assert(evals(engine, row, flat_filters) == evals(engine, seen, filters));
            assert(collected(plan)->0->Ok_0.filters == flat_filters);
            assert forall|i: int| 0 <= i < filters.len() implies eval(
                engine,
                row,
                #[trigger] flat_filters[i],
            ) == eval(engine, seen, filters[i]) by {
                assert(evals(engine, row, flat_filters)[i] == evals(engine, seen, filters)[i]);
            }
            if all_hold(engine, row, flat_filters) {
                assert forall|i: int| 0 <= i < filters.len() implies is_true(
                    eval(engine, seen, #[trigger] filters[i]),
                ) by {
                    assert(holds(engine, row, flat_filters[i]));
                }
            }
            collected_filters_describe_plan(engine, row, plan);
        },
        PlanNodeView::Filter { predicate } => {
            let input = plan.inputs[0];
            assert(all_readable(plan.inputs)[0] == readable(input));
            plans_keep_what_gets_through(engine, row, input);
            lemma_inputs_show(engine, row, plan);
            let o = collect(all_outputs(plan.inputs))->0->Ok_0;
            let values = all_show(engine, row, plan.inputs);
            let scope = scope_of(plan, o);
            let exprs = seq![predicate];
            assert(clear(plan.inputs, exprs[0]));
            lemma_clear_flats(engine, row, scope, plan.inputs, values, exprs);
            lemma_clear_flat(engine, row, scope, plan.inputs, values, predicate);
            flattening_keeps_value(engine, row, scope, predicate);
            collected_filters_describe_plan(engine, row, plan);
        },
        PlanNodeView::Projection { .. } => {
            assert(all_readable(plan.inputs)[0] == readable(plan.inputs[0]));
            plans_keep_what_gets_through(engine, row, plan.inputs[0]);
        },
        _ => {},
    }
}

proof fn lemma_tables_kept(p: PredicateView, s: Seq<ExprView>)
    ensures
        all_conjoined(p, s) matches Some(Ok(q)) ==> q.tables == p.tables,
    decreases s.len(),
{
    if s.len() > 0 {
        lemma_tables_kept(p, s.drop_last());
    }
}

/// A plan of filters and projections, in which every column means one field, has a
/// normal form, unless one of its filters makes columns of different types equal.
pub proof fn plans_of_filters_and_projections_have_a_form(plan: PlanView)
    requires
        readable(plan),
        selects_and_projects(plan),
        equals_are_of_one_type(plan),
    ensures
        normal_form(plan) matches Some(Ok(form)) && form.output_schema == plan.schema
            && form.output_exprs.len() == plan.schema.len() && form.referenced_tables
            == seq![table_of(plan).0],
{
    let engine: Engine = arbitrary();
    let row: Row = arbitrary();
    plans_keep_what_gets_through(engine, row, plan);
    plans_output_what_they_show(engine, row, plan);
    plans_have_a_normal_form(plan);
    let c = collected(plan)->0->Ok_0;
    lemma_tables_kept(initial(c.tables, c.fields), all_conjuncts(c.filters));
}

/// The row that is read back from a view: each field, by its name, has the value
/// that the view shows.
pub open spec fn read_back(engine: Engine, row: Row, plan: PlanView) -> Row {
    |c: ColumnView|
        if exists|i: int|
            0 <= i < plan.schema.len() && (#[trigger] plan.schema[i]).column.name == c.name {
            let i = choose|i: int|
                0 <= i < plan.schema.len() && (#[trigger] plan.schema[i]).column.name == c.name;
            shows(engine, row, plan)[i]
        } else {
            null_of(DataTypeView::Null)
        }
}

/// A rewrite shows what the query shows. A row of the table gets through the query
/// exactly where it gets through the view and what is read back from the view
/// passes the filter of the rewrite; and the projection of the rewrite then has,
/// on what is read back, the values that the query shows.
pub proof fn rewrites_show_what_the_query_shows(
    engine: Engine,
    row: Row,
    query_plan: PlanView,
    view_plan: PlanView,
    query: SpjView,
    view: SpjView,
    rewrite: RewriteView,
)
    requires
        engine.lawful(),
        readable(query_plan),
        readable(view_plan),
        selects_and_projects(query_plan),
        selects_and_projects(view_plan),
        evaluable(engine, row, query_plan),
        evaluable(engine, row, view_plan),
        normal_form(query_plan) == Some(Ok::<SpjView, ErrorView>(query)),
        normal_form(view_plan) == Some(Ok::<SpjView, ErrorView>(view)),
        distinct_names(view),
        rewritten(query, view) == Ok::<Option<RewriteView>, ErrorView>(Some(rewrite)),
    ensures
        gets_through(engine, row, query_plan) <==> gets_through(engine, row, view_plan) && (
        rewrite.filter matches Some(f) ==> is_true(
            eval(engine, read_back(engine, row, view_plan), f),
        )),
        gets_through(engine, row, query_plan) ==> evals(
            engine,
            read_back(engine, row, view_plan),
            rewrite.projection,
        ) == shows(engine, row, query_plan),
{
    plans_keep_what_gets_through(engine, row, query_plan);
    plans_keep_what_gets_through(engine, row, view_plan);
    plans_output_what_they_show(engine, row, query_plan);
    plans_output_what_they_show(engine, row, view_plan);
    rewrite_answers_query(engine, row, query_plan, view_plan, query, view, rewrite);
    if gets_through(engine, row, view_plan) {
        lemma_held_row(engine, row, view_plan, view);
        let held = held_row(engine, row, view_plan);
        let read = read_back(engine, row, view_plan);
        let v = outputs(view_plan)->0->Ok_0;
        assert forall|c: ColumnView| #[trigger] held(c) == read(c) by {
            if exists|i: int|
                0 <= i < view_plan.schema.len() && (#[trigger] view_plan.schema[i]).column.name
                    == c.name {
                let i = choose|i: int|
                    0 <= i < view_plan.schema.len() && (#[trigger] view_plan.schema[i]).column.name
                        == c.name;
                assert(evals(engine, row, v)[i] == eval(engine, row, v[i]));
            }
        }
        assert(held =~= read);
        if gets_through(engine, row, query_plan) {
            let q = outputs(query_plan)->0->Ok_0;
            assert(evals(engine, read, rewrite.projection) =~= evals(engine, row, q));
        }
    }
}

/// A table answers every query over it: a view that is a scan of all fields of a
/// table, without filters, is never refused.
pub proof fn tables_answer_every_query_over_them(query_plan: PlanView, view_plan: PlanView)
    requires
        readable(query_plan),
        selects_and_projects(query_plan),
        equals_are_of_one_type(query_plan),
        readable(view_plan),
        selects_and_projects(view_plan),
        view_plan.node matches PlanNodeView::TableScan { projection, filters, .. } && projection
            is None && filters.len() == 0,
        table_of(view_plan) == table_of(query_plan),
    ensures
        normal_form(query_plan) matches Some(Ok(query)) && normal_form(view_plan) matches Some(
            Ok(view),
        ) && rewritten(query, view) matches Ok(Some(_)),
{
    let engine: Engine = arbitrary();
    let row: Row = arbitrary();
    plans_keep_what_gets_through(engine, row, query_plan);
    plans_keep_what_gets_through(engine, row, view_plan);
    let c = collected(view_plan)->0->Ok_0;
    plans_of_filters_and_projections_have_a_form(query_plan);
    assert(c.filters.len() == 0) by {
        let s = flats(Seq::empty(), scan_scope(c.fields));
        assert(view_plan.node->filters =~= Seq::empty());
        lemma_collect(s);
    }
    assert(all_conjuncts(c.filters).len() == 0);
    plans_of_filters_and_projections_have_a_form(view_plan);
    let o = outputs(view_plan)->0->Ok_0;
    assert forall|x: ColumnView| #[trigger] table_columns(view_plan).contains(x) implies o.contains(
        ExprView::Column(x),
    ) by {
        let columns = table_columns(view_plan);
        let i = choose|i: int| 0 <= i < columns.len() && columns[i] == x;
        assert(o[i] == ExprView::Column(x));
    }
    unfiltered_views_answer_every_query(
        query_plan,
        view_plan,
        normal_form(query_plan)->0->Ok_0,
        normal_form(view_plan)->0->Ok_0,
    );
}

// ---------------------------------------------------------------------------
// Columns that several inputs have
// ---------------------------------------------------------------------------

/// The columns of a plan that joins make equal are those of its node and those of
/// its inputs, however deep.
pub proof fn joins_below_make_columns_equal(plan: PlanView, set: Seq<ColumnView>)
    ensures
        using_sets(plan).contains(set) <==> plan.using_columns.contains(set) || exists|i: int|
            0 <= i < plan.inputs.len() && using_sets(#[trigger] plan.inputs[i]).contains(set),
{
    let s = all_using_sets(plan.inputs);
    lemma_flatten_contains(s, set);
    let a = plan.using_columns;
    let b = s.flatten();
    assert(using_sets(plan) == a + b);
    if a.contains(set) {
        let i = choose|i: int| 0 <= i < a.len() && a[i] == set;
        assert((a + b)[i] == set);
    }
    if b.contains(set) {
        let i = choose|i: int| 0 <= i < b.len() && b[i] == set;
        assert((a + b)[a.len() + i] == set);
        let k = choose|k: int| 0 <= k < s.len() && (#[trigger] s[k]).contains(set);
        assert(s[k] == using_sets(plan.inputs[k]));
    }
    if exists|i: int| 0 <= i < plan.inputs.len() && using_sets(#[trigger] plan.inputs[i]).contains(set) {
        let i = choose|i: int|
            0 <= i < plan.inputs.len() && using_sets(#[trigger] plan.inputs[i]).contains(set);
        assert(s[i].contains(set));
    }
}

proof fn lemma_flatten_contains<T>(s: Seq<Seq<T>>, x: T)
    ensures
        s.flatten().contains(x) <==> exists|k: int|
            0 <= k < s.len() && (#[trigger] s[k]).contains(x),
    decreases s.len(),
{
    if s.len() > 0 {
        let first = s.first();
        let rest = s.drop_first();
        lemma_flatten_contains(rest, x);
        assert(s.flatten() == first + rest.flatten());
        let all = s.flatten();
        if all.contains(x) {
            let i = choose|i: int| 0 <= i < all.len() && all[i] == x;
            if i < first.len() {
                assert(s[0].contains(first[i]));
            } else {
                assert(rest.flatten()[i - first.len()] == x);
                let k = choose|k: int| 0 <= k < rest.len() && (#[trigger] rest[k]).contains(x);
                assert(s[k + 1].contains(x));
            }
        }
        if exists|k: int| 0 <= k < s.len() && (#[trigger] s[k]).contains(x) {
            let k = choose|k: int| 0 <= k < s.len() && (#[trigger] s[k]).contains(x);
            if k == 0 {
                let i = choose|i: int| 0 <= i < first.len() && first[i] == x;
                assert(all[i] == x);
            } else {
                assert(rest[k - 1].contains(x));
                let i = choose|i: int| 0 <= i < rest.flatten().len() && rest.flatten()[i] == x;
                assert(all[first.len() + i] == x);
            }
        }
    }
}

proof fn lemma_named_contains(fields: Seq<FieldView>, name: Seq<char>, c: ColumnView)
    ensures
        schema_columns(named(fields, name)).contains(c) <==> c.name == name && exists|i: int|
            0 <= i < fields.len() && (#[trigger] fields[i]).column == c,
    decreases fields.len(),
{
    let s = schema_columns(named(fields, name));
    if fields.len() > 0 {
        let front = fields.drop_last();
        lemma_named_contains(front, name, c);
        let t = schema_columns(named(front, name));
        if fields.last().column.name == name {
            assert(s =~= t.push(fields.last().column));
            if s.contains(c) && !t.contains(c) {
                let i = choose|i: int| 0 <= i < s.len() && s[i] == c;
                if i < t.len() {
                    assert(t[i] == c);
                }
                assert(fields[fields.len() - 1].column == c);
            }
            if t.contains(c) {
                let i = choose|i: int| 0 <= i < t.len() && t[i] == c;
                assert(s[i] == c);
            }
            assert(s[t.len() as int] == fields.last().column);
        }
        if exists|i: int| 0 <= i < front.len() && (#[trigger] front[i]).column == c {
            let i = choose|i: int| 0 <= i < front.len() && (#[trigger] front[i]).column == c;
            assert(fields[i].column == c);
        }
        if exists|i: int| 0 <= i < fields.len() && (#[trigger] fields[i]).column == c {
            let i = choose|i: int| 0 <= i < fields.len() && (#[trigger] fields[i]).column == c;
            if i < front.len() {
                assert(front[i].column == c);
            }
        }
    }
}

proof fn lemma_all_named_contains(schemas: Seq<Seq<FieldView>>, name: Seq<char>, c: ColumnView)
    ensures
        all_named(schemas, name).contains(c) <==> c.name == name && exists|k: int, i: int|
            0 <= k < schemas.len() && 0 <= i < schemas[k].len() && (
            #[trigger] schemas[k][i]).column == c,
    decreases schemas.len(),
{
    if schemas.len() > 0 {
        let front = schemas.drop_last();
        let last = schemas.last();
        let n = schemas.len() - 1;
        lemma_all_named_contains(front, name, c);
        lemma_named_contains(last, name, c);
        let a = all_named(front, name);
        let b = schema_columns(named(last, name));
        let s = all_named(schemas, name);
        assert(s == a + b);
        if s.contains(c) {
            let i = choose|i: int| 0 <= i < s.len() && s[i] == c;
            if i < a.len() {
                assert(a[i] == c);
                let (k, j) = choose|k: int, j: int|
                    0 <= k < front.len() && 0 <= j < front[k].len() && (
                    #[trigger] front[k][j]).column == c;
                assert(schemas[k][j].column == c);
            } else {
                assert(b[i - a.len()] == c);
                let j = choose|j: int| 0 <= j < last.len() && (#[trigger] last[j]).column == c;
                assert(schemas[n][j].column == c);
            }
        }
        if c.name == name && exists|k: int, i: int|
            0 <= k < schemas.len() && 0 <= i < schemas[k].len() && (
            #[trigger] schemas[k][i]).column == c {
            let (k, i) = choose|k: int, i: int|
                0 <= k < schemas.len() && 0 <= i < schemas[k].len() && (
                #[trigger] schemas[k][i]).column == c;
            if k < n {
                assert(front[k][i].column == c);
                let j = choose|j: int| 0 <= j < a.len() && a[j] == c;
                assert(s[j] == c);
            } else {
                assert(last[i].column == c);
                let j = choose|j: int| 0 <= j < b.len() && b[j] == c;
                assert(s[a.len() + j] == c);
            }
        }
    }
}

/// The field is the first of its name: no earlier field of its schema, and no
/// field of an earlier schema, has the name.
pub open spec fn first_of_name(
    schemas: Seq<Seq<FieldView>>,
    name: Seq<char>,
    k: int,
    i: int,
) -> bool {
    &&& 0 <= k < schemas.len()
    &&& 0 <= i < schemas[k].len()
    &&& schemas[k][i].column.name == name
    &&& forall|l: int, j: int|
        0 <= l < schemas.len() && 0 <= j < schemas[l].len() && (
        #[trigger] schemas[l][j]).column.name == name ==> k < l || k == l && i <= j
}

proof fn lemma_named_first(fields: Seq<FieldView>, name: Seq<char>, i: int)
    requires
        0 <= i < fields.len(),
        fields[i].column.name == name,
        forall|j: int| 0 <= j < i ==> (#[trigger] fields[j]).column.name != name,
    ensures
        named(fields, name).len() > 0,
        named(fields, name)[0] == fields[i],
    decreases fields.len(),
{
    let front = fields.drop_last();
    if i < front.len() {
        assert forall|j: int| 0 <= j < i implies (#[trigger] front[j]).column.name != name by {
            assert(front[j] == fields[j]);
        }
        lemma_named_first(front, name, i);
    } else {
        assert forall|j: int| 0 <= j < front.len() implies (#[trigger] front[j]).column.name
            != name by {
            assert(front[j] == fields[j]);
        }
        lemma_named_none(front, name);
    }
}

proof fn lemma_all_named_first(schemas: Seq<Seq<FieldView>>, name: Seq<char>, k: int, i: int)
    requires
        first_of_name(schemas, name, k, i),
    ensures
        all_named(schemas, name).len() > 0,
        all_named(schemas, name)[0] == schemas[k][i].column,
    decreases schemas.len(),
{
    let front = schemas.drop_last();
    let n = schemas.len() - 1;
    if k < n {
        assert forall|l: int, j: int|
            0 <= l < front.len() && 0 <= j < front[l].len() && (
            #[trigger] front[l][j]).column.name == name implies k < l || k == l && i <= j by {
            assert(schemas[l][j].column.name == name);
        }
        lemma_all_named_first(front, name, k, i);
    } else {
        assert forall|l: int, j: int| 0 <= l < front.len() && 0 <= j < front[l].len() implies (
        #[trigger] front[l][j]).column.name != name by {
            assert(front[l] == schemas[l]);
            assert(schemas[l][j].column.name == name ==> k < l || k == l && i <= j);
        }
        lemma_all_named_none(front, name);
        assert forall|j: int| 0 <= j < i implies (#[trigger] schemas.last()[j]).column.name
            != name by {
            assert(schemas[n][j].column.name == name ==> i <= j);
        }
        lemma_named_first(schemas.last(), name, i);
    }
}

/// A column that does not name its table, and that several fields have the name of,
/// stands for the first of them where a join has made all of them equal; else it is
/// reported.
pub proof fn shared_columns_stand_for_the_first(
    c: ColumnView,
    scope: ScopeView,
    set: Seq<ColumnView>,
    k: int,
    i: int,
)
    requires
        scope.alias is None,
        c.relation is None,
        first_of_name(scope.schemas, c.name, k, i),
        only(scope.schemas, scope.schemas[k][i].column, k, i),
        k < scope.outputs.len(),
        i < scope.outputs[k].len(),
        scope.using_columns.contains(set),
        forall|l: int, j: int|
            0 <= l < scope.schemas.len() && 0 <= j < scope.schemas[l].len() && (
            #[trigger] scope.schemas[l][j]).column.name == c.name ==> set.contains(
                scope.schemas[l][j].column,
            ),
    ensures
        flat_column(c, scope) == Some(Ok::<ExprView, ErrorView>(scope.outputs[k][i])),
{
    let candidates = all_named(scope.schemas, c.name);
    lemma_all_named_first(scope.schemas, c.name, k, i);
    assert forall|m: int| 0 <= m < candidates.len() implies set.contains(
        #[trigger] candidates[m],
    ) by {
        lemma_all_named_contains(scope.schemas, c.name, candidates[m]);
        assert(candidates.contains(candidates[m]));
        let (l, j) = choose|l: int, j: int|
            0 <= l < scope.schemas.len() && 0 <= j < scope.schemas[l].len() && (
            #[trigger] scope.schemas[l][j]).column == candidates[m];
        assert(scope.schemas[l][j].column.name == c.name);
    }
    let m = choose|m: int| 0 <= m < scope.using_columns.len() && scope.using_columns[m] == set;
    assert(all_in(candidates, scope.using_columns[m]));
    lemma_located_only(scope.schemas, scope.schemas[k][i].column, k, i);
}

/// A column that does not name its table is reported where fields of different
/// tables have its name, and no join has made them equal.
pub proof fn ambiguous_columns_are_reported(
    c: ColumnView,
    scope: ScopeView,
    k: int,
    i: int,
    l: int,
    j: int,
)
    requires
        scope.alias is None,
        c.relation is None,
        0 <= k < scope.schemas.len() && 0 <= i < scope.schemas[k].len(),
        0 <= l < scope.schemas.len() && 0 <= j < scope.schemas[l].len(),
        scope.schemas[k][i].column.name == c.name,
        scope.schemas[l][j].column.name == c.name,
        scope.schemas[k][i].column != scope.schemas[l][j].column,
        forall|m: int|
            0 <= m < scope.using_columns.len() ==> !((
            #[trigger] scope.using_columns[m]).contains(scope.schemas[k][i].column)
                && scope.using_columns[m].contains(scope.schemas[l][j].column)),
    ensures
        flat_column(c, scope) == Some(
            Err::<ExprView, ErrorView>(ErrorView::AmbiguousReference(c)),
        ),
{
    let candidates = all_named(scope.schemas, c.name);
    let (a, b) = (scope.schemas[k][i].column, scope.schemas[l][j].column);
    lemma_all_named_contains(scope.schemas, c.name, a);
    lemma_all_named_contains(scope.schemas, c.name, b);
    let p = choose|p: int| 0 <= p < candidates.len() && candidates[p] == a;
    let q = choose|q: int| 0 <= q < candidates.len() && candidates[q] == b;
    assert(candidates.len() > 1);
    assert forall|m: int| 0 <= m < scope.using_columns.len() implies !all_in(
        candidates,
        #[trigger] scope.using_columns[m],
    ) by {
        if all_in(candidates, scope.using_columns[m]) {
            assert(scope.using_columns[m].contains(candidates[p]));
            assert(scope.using_columns[m].contains(candidates[q]));
        }
    }
}

// ---------------------------------------------------------------------------
// Scans
// ---------------------------------------------------------------------------

/// A scan reports the first index of its projection that names no field of the
/// table, and outputs the fields in the order of the projection where there is
/// none.
pub proof fn scans_output_what_they_project(
    table: TableReferenceView,
    source: Seq<SourceFieldView>,
    indices: Seq<usize>,
    i: int,
)
    requires
        0 <= i < indices.len(),
    ensures
        (forall|k: int| 0 <= k < indices.len() ==> (#[trigger] indices[k]) < source.len()) ==> (
        scan_columns(table, source, Some(indices)) matches Ok(columns) && columns.len()
            == indices.len() && columns[i] == (ColumnView {
            relation: Some(table),
            name: source[indices[i] as int].name,
        })),
        indices[i] >= source.len() && (forall|k: int|
            0 <= k < i ==> (#[trigger] indices[k]) < source.len()) ==> scan_columns(
            table,
            source,
            Some(indices),
        ) == Err::<Seq<ColumnView>, ErrorView>(
            ErrorView::ProjectionOutOfBounds { index: indices[i], fields: source.len() as usize },
        ),
        scan_columns(table, source, None) matches Ok(columns) && columns.len() == source.len() && (i
            < source.len() ==> columns[i] == (ColumnView {
            relation: Some(table),
            name: source[i].name,
        })),
{
    if forall|k: int| 0 <= k < indices.len() ==> (#[trigger] indices[k]) < source.len() {
        lemma_no_index_out_of_bounds(indices, source.len());
    }
    if indices[i] >= source.len() && (forall|k: int|
        0 <= k < i ==> (#[trigger] indices[k]) < source.len()) {
        lemma_first_index_out_of_bounds(indices, source.len(), i);
    }
}

proof fn lemma_first_index_out_of_bounds(indices: Seq<usize>, fields: nat, i: int)
    requires
        0 <= i < indices.len(),
        indices[i] >= fields,
        forall|k: int| 0 <= k < i ==> (#[trigger] indices[k]) < fields,
    ensures
        first_out_of_bounds(indices, fields) == Some(indices[i]),
    decreases indices.len(),
{
    let front = indices.drop_last();
    assert(forall|k: int| 0 <= k < front.len() ==> #[trigger] front[k] == indices[k]);
    if i < front.len() {
        lemma_first_index_out_of_bounds(front, fields, i);
    } else {
        lemma_no_index_out_of_bounds(front, fields);
    }
}

// ---------------------------------------------------------------------------
// Expressions
// ---------------------------------------------------------------------------

/// A list of outcomes has all their values, in order, where each has one; else it
/// has the first outcome without a value.
pub proof fn outcomes_are_collected_in_order<T>(s: Seq<Option<Result<T, ErrorView>>>, i: int)
    ensures
        (collect(s) matches Some(Ok(v))) <==> forall|k: int|
            0 <= k < s.len() ==> ((#[trigger] s[k]) matches Some(Ok(_))),
        collect(s) matches Some(Ok(v)) ==> v.len() == s.len() && (0 <= i < s.len() ==> s[i] == Some(
            Ok::<T, ErrorView>(v[i]),
        )),
        0 <= i < s.len() && (forall|k: int|
            0 <= k < i ==> ((#[trigger] s[k]) matches Some(Ok(_)))) ==> {
            &&& s[i] is None ==> collect(s) is None
            &&& s[i] matches Some(Err(e)) ==> collect(s) == Some(Err::<Seq<T>, ErrorView>(e))
        },
    decreases s.len(),
{
    if s.len() > 0 {
        let front = s.drop_last();
        let n = s.len() - 1;
        outcomes_are_collected_in_order(front, i);
        assert(s[n] == s.last());
        if collect(s) matches Some(Ok(_)) {
            lemma_collect(s);
            assert forall|k: int| 0 <= k < s.len() implies ((#[trigger] s[k]) matches Some(
                Ok(_),
            )) by {
                if k < n {
                    assert(front[k] == s[k]);
                }
            }
        }
        if forall|k: int| 0 <= k < s.len() ==> ((#[trigger] s[k]) matches Some(Ok(_))) {
            lemma_collect_all(s);
        }
        if 0 <= i < s.len() && (forall|k: int|
            0 <= k < i ==> ((#[trigger] s[k]) matches Some(Ok(_)))) {
            assert forall|k: int| 0 <= k < i && k < front.len() implies ((
            #[trigger] front[k]) matches Some(Ok(_))) by {
                assert(front[k] == s[k]);
            }
            if i < n {
                assert(front[i] == s[i]);
            } else {
                lemma_collect_all(front);
            }
        }
    }
}

/// Each column of an expression stands for something.
pub open spec fn stands(scope: ScopeView, e: ExprView) -> bool
    decreases e,
{
    match e {
        ExprView::Column(c) => flat_column(c, scope) matches Some(Ok(_)),
        ExprView::Literal(_, _) => true,
        ExprView::BinaryExpr { left, right, .. } => stands(scope, *left) && stands(scope, *right),
        ExprView::Not(x) => stands(scope, *x),
        ExprView::Alias { expr, .. } => stands(scope, *expr),
        ExprView::Other { children, .. } => !each_stands(scope, children).contains(false),
    }
}

pub open spec fn each_stands(scope: ScopeView, s: Seq<ExprView>) -> Seq<bool>
    decreases s,
{
    Seq::new(
        s.len(),
        |i: int|
            if 0 <= i < s.len() {
                stands(scope, s[i])
            } else {
                arbitrary()
            },
    )
}

/// An expression of a node stands for an expression over tables exactly where each
/// of its columns stands for something, at whatever depth the column stands.
pub proof fn expressions_stand_where_their_columns_do(scope: ScopeView, e: ExprView)
    ensures
        (flat(e, scope) matches Some(Ok(_))) <==> stands(scope, e),
    decreases e,
{
    match e {
        ExprView::Column(_) => {},
        ExprView::Literal(_, _) => {},
        ExprView::BinaryExpr { left, right, .. } => {
            expressions_stand_where_their_columns_do(scope, *left);
            expressions_stand_where_their_columns_do(scope, *right);
        },
        ExprView::Not(x) => {
            expressions_stand_where_their_columns_do(scope, *x);
        },
        ExprView::Alias { expr, .. } => {
            expressions_stand_where_their_columns_do(scope, *expr);
        },
        ExprView::Other { children, .. } => {
            let s = flats(children, scope);
            let t = each_stands(scope, children);
            outcomes_are_collected_in_order(s, 0);
            assert forall|k: int| 0 <= k < children.len() implies ((#[trigger] s[k] matches Some(
                Ok(_),
            )) <==> t[k]) by {
                expressions_stand_where_their_columns_do(scope, children[k]);
            }
            if stands(scope, e) {
                assert forall|k: int| 0 <= k < s.len() implies ((#[trigger] s[k]) matches Some(
                    Ok(_),
                )) by {
                    assert(t[k] || t.contains(t[k]));
                }
            }
            if collect(s) matches Some(Ok(_)) {
                assert forall|k: int| 0 <= k < t.len() implies t[k] by {
                    assert(s[k] matches Some(Ok(_)));
                }
            }
        },
    }
}

/// The expressions of a scan are over its table already, and stay as they are.
/// Those of another node fail where one of its inputs has no outputs.
pub proof fn expressions_of_a_scan_stay(
    exprs: Seq<ExprView>,
    plan: PlanView,
    outcome: Option<Result<Seq<Seq<ExprView>>, ErrorView>>,
)
    ensures
        plan.node is TableScan ==> flattened(exprs, plan, outcome) == Some(
            Ok::<Seq<ExprView>, ErrorView>(exprs),
        ),
        !(plan.node is TableScan) && outcome is None ==> flattened(exprs, plan, outcome) is None,
        !(plan.node is TableScan) ==> (outcome matches Some(Err(e)) ==> flattened(
            exprs,
            plan,
            outcome,
        ) == Some(Err::<Seq<ExprView>, ErrorView>(e))),
{
}

/// A plan has an output for each field of its schema. Where its node gives another
/// number of them, the plan is reported by how it displays itself, as are nodes of
/// other kinds.
pub proof fn plans_have_an_output_for_each_field(plan: PlanView)
    ensures
        outputs(plan) matches Some(Ok(v)) ==> v.len() == plan.schema.len(),
        node_outputs(plan) matches Some(Ok(v)) ==> v.len() != plan.schema.len() ==> outputs(plan)
            == Some(Err::<Seq<ExprView>, ErrorView>(ErrorView::OutputNotSupported(plan.display))),
        plan.node is Other ==> outputs(plan) == Some(
            Err::<Seq<ExprView>, ErrorView>(ErrorView::OutputNotSupported(plan.display)),
        ),
{
}

/// A column that names its table stands for the first field that it can mean: that
/// of the first input that has one, and the first of those.
pub proof fn named_columns_stand_for_the_first_field(
    c: ColumnView,
    scope: ScopeView,
    k: int,
    i: int,
)
    requires
        scope.alias is None,
        c.relation is Some,
        0 <= k < scope.schemas.len(),
        0 <= i < scope.schemas[k].len(),
        meant(scope.schemas[k][i], c),
        forall|l: int, j: int|
            0 <= l < scope.schemas.len() && 0 <= j < scope.schemas[l].len() && #[trigger] meant(
                scope.schemas[l][j],
                c,
            ) ==> k < l || k == l && i <= j,
        k < scope.outputs.len(),
        i < scope.outputs[k].len(),
    ensures
        flat_column(c, scope) == Some(Ok::<ExprView, ErrorView>(scope.outputs[k][i])),
{
    lemma_located_first(scope.schemas, c, k, i);
}

proof fn lemma_located_first(schemas: Seq<Seq<FieldView>>, c: ColumnView, k: int, i: int)
    requires
        0 <= k < schemas.len(),
        0 <= i < schemas[k].len(),
        meant(schemas[k][i], c),
        forall|l: int, j: int|
            0 <= l < schemas.len() && 0 <= j < schemas[l].len() && #[trigger] meant(
                schemas[l][j],
                c,
            ) ==> k < l || k == l && i <= j,
    ensures
        locate(schemas, c) == Some((k, i)),
    decreases schemas.len(),
{
    let front = schemas.drop_last();
    let n = schemas.len() - 1;
    if k == n {
        assert forall|l: int, j: int| 0 <= l < front.len() && 0 <= j < front[l].len() implies !(
        #[trigger] meant(front[l][j], c)) by {
            assert(front[l] == schemas[l]);
            if meant(front[l][j], c) {
                assert(meant(schemas[l][j], c));
            }
        }
        lemma_located_none(front, c);
        lookups_find_the_first_field(schemas.last(), c, i);
        assert forall|j: int| 0 <= j < i implies !meant(#[trigger] schemas.last()[j], c) by {
            if meant(schemas.last()[j], c) {
                assert(meant(schemas[n][j], c));
            }
        }
    } else {
        assert(front[k] == schemas[k]);
        assert forall|l: int, j: int|
            0 <= l < front.len() && 0 <= j < front[l].len() && #[trigger] meant(
                front[l][j],
                c,
            ) implies k < l || k == l && i <= j by {
            assert(meant(schemas[l][j], c));
        }
        lemma_located_first(front, c, k, i);
    }
}

/// The expressions of a node see the fields of its inputs, in their order, and what
/// these output, with the columns that joins of the plan make equal; those of a
/// subquery see them under its name, and those of no other node under another.
pub proof fn nodes_see_their_inputs(plan: PlanView, o: Seq<Seq<ExprView>>, k: int)
    requires
        0 <= k < plan.inputs.len(),
    ensures
        ({
            let scope = scope_of(plan, o);
            &&& scope.alias == (match plan.node {
                PlanNodeView::SubqueryAlias { alias } => Some(alias),
                _ => None,
            })
            &&& scope.schemas.len() == plan.inputs.len()
            &&& scope.schemas[k] == plan.inputs[k].schema
            &&& scope.outputs == o
            &&& forall|set: Seq<ColumnView>| #[trigger]
                scope.using_columns.contains(set) <==> plan.using_columns.contains(set) || exists|
                    i: int,
                |
                    0 <= i < plan.inputs.len() && using_sets(#[trigger] plan.inputs[i]).contains(set)
        }),
{
    assert forall|set: Seq<ColumnView>| #[trigger]
        using_sets(plan).contains(set) <==> plan.using_columns.contains(set) || exists|i: int|
            0 <= i < plan.inputs.len() && using_sets(#[trigger] plan.inputs[i]).contains(set) by {
        joins_below_make_columns_equal(plan, set);
    }
}

} // verus!
