//! Logical plans, and the expressions that they output.
use vstd::prelude::*;

use crate::error::{Error, ErrorView};
use crate::expr::{clone_exprs, exprs_view, Expr, ExprView};
use crate::names::{
    clone_columns, columns_view, Column, ColumnView, TableReference, TableReferenceView,
};
use crate::schema::{
    column_sets_view, index_of, normalize_column, normalized_column, qualified, schema_columns,
    schemas_view, source_view, DFSchema, FieldView, SourceField, SourceFieldView,
};

verus! {

/// Which rows of two sides a join outputs.
#[derive(Debug, Clone, Copy, PartialEq, Eq, Hash, Structural)]
pub enum JoinType {
    Inner,
    Left,
    Right,
    Full,
    /// The rows of the left side that have a match.
    LeftSemi,
    RightSemi,
    /// The rows of the left side that have no match.
    LeftAnti,
    RightAnti,
    /// The rows of the left side, and whether they have a match.
    LeftMark,
    RightMark,
}

/// What a node of a plan does, with the parts of it that are looked into.
#[derive(Debug, PartialEq, Eq, Hash)]
pub enum PlanNode {
    /// Reads the fields of a table that the projection names, or all of them.
    TableScan {
        table_name: TableReference,
        source: Vec<SourceField>,
        projection: Option<Vec<usize>>,
        filters: Vec<Expr>,
    },
    Filter { predicate: Expr },
    Projection { expr: Vec<Expr> },
    Join { join_type: JoinType },
    Sort,
    Limit,
    /// Keeps one of the rows that are alike: in all that they have, or in other
    /// expressions than those of the list that it outputs.
    Distinct { select_expr: Option<Vec<Expr>> },
    Aggregate { group_expr: Vec<Expr>, aggr_expr: Vec<Expr> },
    Window { window_expr: Vec<Expr> },
    Unnest,
    SubqueryAlias { alias: TableReference },
    /// Every other kind of node.
    Other,
}

/// A logical plan.
#[derive(Debug, PartialEq, Eq, Hash)]
pub struct LogicalPlan {
    pub node: PlanNode,
    /// The plans whose rows the node reads.
    pub inputs: Vec<LogicalPlan>,
    /// The fields that the node outputs.
    pub schema: DFSchema,
    /// The sets of columns that the node makes equal as a join over columns
    /// that both of its sides have, and those that joins in subqueries of its
    /// expressions make equal.
    pub using_columns: Vec<Vec<Column>>,
    /// The node as it displays itself.
    pub display: String,
}

/// The parts of a [`PlanNode`].
pub enum PlanNodeView {
    TableScan {
        table_name: TableReferenceView,
        source: Seq<SourceFieldView>,
        projection: Option<Seq<usize>>,
        filters: Seq<ExprView>,
    },
    Filter { predicate: ExprView },
    Projection { expr: Seq<ExprView> },
    Join { join_type: JoinType },
    Sort,
    Limit,
    Distinct { select_expr: Option<Seq<ExprView>> },
    Aggregate { group_expr: Seq<ExprView>, aggr_expr: Seq<ExprView> },
    Window { window_expr: Seq<ExprView> },
    Unnest,
    SubqueryAlias { alias: TableReferenceView },
    Other,
}

/// The parts of a [`LogicalPlan`].
pub struct PlanView {
    pub node: PlanNodeView,
    pub inputs: Seq<PlanView>,
    pub schema: Seq<FieldView>,
    pub using_columns: Seq<Seq<ColumnView>>,
    pub display: Seq<char>,
}

/// The indices of an optional projection.
pub open spec fn projection_view(projection: Option<Vec<usize>>) -> Option<Seq<usize>> {
    match projection {
        Some(indices) => Some(indices@),
        None => None,
    }
}

impl View for PlanNode {
    type V = PlanNodeView;

    open spec fn view(&self) -> PlanNodeView {
        match *self {
            PlanNode::TableScan { table_name, source, projection, filters } =>
                PlanNodeView::TableScan {
                table_name: table_name@,
                source: source_view(source@),
                projection: projection_view(projection),
                filters: exprs_view(filters@),
            },
            PlanNode::Filter { predicate } => PlanNodeView::Filter { predicate: predicate@ },
            PlanNode::Projection { expr } => PlanNodeView::Projection { expr: exprs_view(expr@) },
            PlanNode::Join { join_type } => PlanNodeView::Join { join_type },
            PlanNode::Sort => PlanNodeView::Sort,
            PlanNode::Limit => PlanNodeView::Limit,
            PlanNode::Distinct { select_expr } => PlanNodeView::Distinct {
                select_expr: match select_expr {
                    Some(exprs) => Some(exprs_view(exprs@)),
                    None => None,
                },
            },
            PlanNode::Aggregate { group_expr, aggr_expr } => PlanNodeView::Aggregate {
                group_expr: exprs_view(group_expr@),
                aggr_expr: exprs_view(aggr_expr@),
            },
            PlanNode::Window { window_expr } => PlanNodeView::Window {
                window_expr: exprs_view(window_expr@),
            },
            PlanNode::Unnest => PlanNodeView::Unnest,
            PlanNode::SubqueryAlias { alias } => PlanNodeView::SubqueryAlias { alias: alias@ },
            PlanNode::Other => PlanNodeView::Other,
        }
    }
}

impl LogicalPlan {
    pub open spec fn view(&self) -> PlanView
        decreases self,
    {
        PlanView {
            node: self.node@,
            inputs: plans_view(self.inputs@),
            schema: self.schema@,
            using_columns: column_sets_view(self.using_columns@),
            display: self.display@,
        }
    }
}

/// The views of a list of plans.
pub open spec fn plans_view(s: Seq<LogicalPlan>) -> Seq<PlanView>
    decreases s,
{
    Seq::new(
        s.len(),
        |i: int|
            if 0 <= i < s.len() {
                s[i].view()
            } else {
                arbitrary()
            },
    )
}

// ---------------------------------------------------------------------------
// What plans output
// ---------------------------------------------------------------------------
//
// An outcome is `None` where the plan does not hang together: a column stands
// for no field of the node's inputs, or a node has too few inputs.

/// The values of a list of outcomes, or the first of them that has no value.
pub open spec fn collect<T>(s: Seq<Option<Result<T, ErrorView>>>) -> Option<
    Result<Seq<T>, ErrorView>,
>
    decreases s.len(),
{
    if s.len() == 0 {
        Some(Ok(Seq::empty()))
    } else {
        match collect(s.drop_last()) {
            Some(Ok(front)) => match s.last() {
                Some(Ok(x)) => Some(Ok(front.push(x))),
                Some(Err(e)) => Some(Err(e)),
                None => None,
            },
            failed => failed,
        }
    }
}

/// The expressions as columns.
pub open spec fn column_exprs(columns: Seq<ColumnView>) -> Seq<ExprView> {
    Seq::new(columns.len(), |i: int| ExprView::Column(columns[i]))
}

/// The first index of a projection that names no field.
pub open spec fn first_out_of_bounds(projection: Seq<usize>, fields: nat) -> Option<usize>
    decreases projection.len(),
{
    if projection.len() == 0 {
        None
    } else {
        match first_out_of_bounds(projection.drop_last(), fields) {
            Some(i) => Some(i),
            None => if projection.last() >= fields {
                Some(projection.last())
            } else {
                None
            },
        }
    }
}

/// The columns that a scan of a table outputs.
pub open spec fn scan_columns(
    table_name: TableReferenceView,
    source: Seq<SourceFieldView>,
    projection: Option<Seq<usize>>,
) -> Result<Seq<ColumnView>, ErrorView> {
    let all = schema_columns(qualified(table_name, source));
    match projection {
        None => Ok(all),
        Some(indices) => match first_out_of_bounds(indices, source.len()) {
            Some(index) => Err(
                ErrorView::ProjectionOutOfBounds { index, fields: source.len() as usize },
            ),
            None => Ok(Seq::new(indices.len(), |i: int| all[indices[i] as int])),
        },
    }
}

/// The sets of columns that joins of a plan make equal.
pub open spec fn using_sets(plan: PlanView) -> Seq<Seq<ColumnView>>
    decreases plan,
{
    plan.using_columns + all_using_sets(plan.inputs).flatten()
}

pub open spec fn all_using_sets(s: Seq<PlanView>) -> Seq<Seq<Seq<ColumnView>>>
    decreases s,
{
    Seq::new(
        s.len(),
        |i: int|
            if 0 <= i < s.len() {
                using_sets(s[i])
            } else {
                arbitrary()
            },
    )
}

/// What the columns of a node's expressions stand for.
pub struct ScopeView {
    /// The name that the node gives to its input.
    pub alias: Option<TableReferenceView>,
    /// The schemas of the inputs.
    pub schemas: Seq<Seq<FieldView>>,
    /// The sets of columns that joins make equal.
    pub using_columns: Seq<Seq<ColumnView>>,
    /// The expressions that each input outputs.
    pub outputs: Seq<Seq<ExprView>>,
}

/// The first schema, and the place in it, of a field that goes by the name of
/// the column.
pub open spec fn locate(schemas: Seq<Seq<FieldView>>, column: ColumnView) -> Option<(int, int)>
    decreases schemas.len(),
{
    if schemas.len() == 0 {
        None
    } else {
        match locate(schemas.drop_last(), column) {
            Some(place) => Some(place),
            None => match index_of(schemas.last(), column) {
                Some(i) => Some((schemas.len() - 1, i)),
                None => None,
            },
        }
    }
}

/// The expression that a column of a node's expressions stands for.
pub open spec fn flat_column(column: ColumnView, scope: ScopeView) -> Option<
    Result<ExprView, ErrorView>,
> {
    if scope.alias is Some && column.relation != scope.alias {
        Some(Ok(ExprView::Column(column)))
    } else {
        let inner = if scope.alias is Some {
            ColumnView { relation: None, name: column.name }
        } else {
            column
        };
        match normalized_column(inner, scope.schemas, scope.using_columns) {
            Err(e) => Some(Err(e)),
            Ok(c) => match locate(scope.schemas, c) {
                Some((child, i)) => if child < scope.outputs.len() && i
                    < scope.outputs[child].len() {
                    Some(Ok(scope.outputs[child][i]))
                } else {
                    None
                },
                None => None,
            },
        }
    }
}

/// The expression with each column replaced by what it stands for.
pub open spec fn flat(e: ExprView, scope: ScopeView) -> Option<Result<ExprView, ErrorView>>
    decreases e,
{
    match e {
        ExprView::Column(c) => flat_column(c, scope),
        ExprView::Literal(_, _) => Some(Ok(e)),
        ExprView::BinaryExpr { left, op, right } => match flat(*left, scope) {
            Some(Ok(l)) => match flat(*right, scope) {
                Some(Ok(r)) => Some(
                    Ok(ExprView::BinaryExpr { left: Box::new(l), op, right: Box::new(r) }),
                ),
                failed => failed,
            },
            failed => failed,
        },
        ExprView::Not(x) => match flat(*x, scope) {
            Some(Ok(y)) => Some(Ok(ExprView::Not(Box::new(y)))),
            failed => failed,
        },
        ExprView::Alias { expr, relation, name, metadata } => match flat(*expr, scope) {
            Some(Ok(y)) => Some(
                Ok(ExprView::Alias { expr: Box::new(y), relation, name, metadata }),
            ),
            failed => failed,
        },
        ExprView::Other { id, children } => match collect(flats(children, scope)) {
            Some(Ok(c)) => Some(Ok(ExprView::Other { id, children: c })),
            Some(Err(e)) => Some(Err(e)),
            None => None,
        },
    }
}

pub open spec fn flats(s: Seq<ExprView>, scope: ScopeView) -> Seq<
    Option<Result<ExprView, ErrorView>>,
>
    decreases s,
{
    Seq::new(
        s.len(),
        |i: int|
            if 0 <= i < s.len() {
                flat(s[i], scope)
            } else {
                arbitrary()
            },
    )
}

/// The schemas of a list of plans.
pub open spec fn input_schemas(s: Seq<PlanView>) -> Seq<Seq<FieldView>> {
    Seq::new(s.len(), |i: int| s[i].schema)
}

/// What the columns of a node's expressions stand for, given what its inputs
/// output.
pub open spec fn scope_of(parent: PlanView, outputs: Seq<Seq<ExprView>>) -> ScopeView {
    ScopeView {
        alias: match parent.node {
            PlanNodeView::SubqueryAlias { alias } => Some(alias),
            _ => None,
        },
        schemas: input_schemas(parent.inputs),
        using_columns: using_sets(parent),
        outputs,
    }
}

/// What the columns of the filters of a table stand for: its fields.
pub open spec fn scan_scope(fields: Seq<FieldView>) -> ScopeView {
    ScopeView {
        alias: None,
        schemas: seq![fields],
        using_columns: Seq::empty(),
        outputs: seq![column_exprs(schema_columns(fields))],
    }
}

/// The expressions of a node with each column replaced by what it stands for,
/// given what the inputs of the node output.
pub open spec fn flattened(
    exprs: Seq<ExprView>,
    parent: PlanView,
    outputs: Option<Result<Seq<Seq<ExprView>>, ErrorView>>,
) -> Option<Result<Seq<ExprView>, ErrorView>> {
    if parent.node is TableScan {
        Some(Ok(exprs))
    } else {
        match outputs {
            Some(Ok(outputs)) => collect(flats(exprs, scope_of(parent, outputs))),
            Some(Err(e)) => Some(Err(e)),
            None => None,
        }
    }
}

/// The columns of both sides that a join outputs. The mark of a join is none of
/// them.
pub open spec fn join_columns(
    join_type: JoinType,
    left: Seq<FieldView>,
    right: Seq<FieldView>,
) -> Seq<ColumnView> {
    match join_type {
        JoinType::Inner | JoinType::Left | JoinType::Right | JoinType::Full => schema_columns(left)
            + schema_columns(right),
        JoinType::LeftSemi | JoinType::LeftAnti | JoinType::LeftMark => schema_columns(left),
        JoinType::RightSemi | JoinType::RightAnti | JoinType::RightMark => schema_columns(right),
    }
}

/// The expressions, where there is one for each field of the plan's schema.
pub open spec fn fitted(
    exprs: Option<Result<Seq<ExprView>, ErrorView>>,
    plan: PlanView,
) -> Option<Result<Seq<ExprView>, ErrorView>> {
    match exprs {
        Some(Ok(v)) => if v.len() == plan.schema.len() {
            exprs
        } else {
            Some(Err(ErrorView::OutputNotSupported(plan.display)))
        },
        failed => failed,
    }
}

/// The expressions over tables that the fields of a plan's output are, one for
/// each field of its schema.
pub open spec fn outputs(plan: PlanView) -> Option<Result<Seq<ExprView>, ErrorView>>
    decreases plan, 1nat,
{
    fitted(node_outputs(plan), plan)
}

/// The expressions over tables that a node outputs.
pub open spec fn node_outputs(plan: PlanView) -> Option<Result<Seq<ExprView>, ErrorView>>
    decreases plan, 0nat,
{
    match plan.node {
        PlanNodeView::Filter { .. }
        | PlanNodeView::Sort
        | PlanNodeView::Limit
        | PlanNodeView::Distinct { select_expr: None }
        | PlanNodeView::SubqueryAlias { .. } => if plan.inputs.len() > 0 {
            all_outputs(plan.inputs)[0]
        } else {
            None
        },
        PlanNodeView::Distinct { select_expr: Some(exprs) } => flattened(
            exprs,
            plan,
            collect(all_outputs(plan.inputs)),
        ),
        PlanNodeView::Projection { expr } => flattened(
            expr,
            plan,
            collect(all_outputs(plan.inputs)),
        ),
        PlanNodeView::Aggregate { group_expr, aggr_expr } => flattened(
            group_expr + aggr_expr,
            plan,
            collect(all_outputs(plan.inputs)),
        ),
        PlanNodeView::Window { window_expr } => if plan.inputs.len() > 0 {
            flattened(
                column_exprs(bare_columns(plan.inputs[0].schema)) + window_expr,
                plan,
                collect(all_outputs(plan.inputs)),
            )
        } else {
            None
        },
        PlanNodeView::TableScan { table_name, source, projection, .. } => Some(
            match scan_columns(table_name, source, projection) {
                Ok(columns) => Ok(column_exprs(columns)),
                Err(e) => Err(e),
            },
        ),
        PlanNodeView::Unnest => flattened(
            column_exprs(schema_columns(plan.schema)),
            plan,
            collect(all_outputs(plan.inputs)),
        ),
        PlanNodeView::Join { join_type } => if plan.inputs.len() > 1 {
            flattened(
                column_exprs(
                    join_columns(join_type, plan.inputs[0].schema, plan.inputs[1].schema),
                ),
                plan,
                collect(all_outputs(plan.inputs)),
            )
        } else {
            None
        },
        PlanNodeView::Other => Some(Err(ErrorView::OutputNotSupported(plan.display))),
    }
}

pub open spec fn all_outputs(s: Seq<PlanView>) -> Seq<Option<Result<Seq<ExprView>, ErrorView>>>
    decreases s, 0nat,
{
    Seq::new(
        s.len(),
        |i: int|
            if 0 <= i < s.len() {
                outputs(s[i])
            } else {
                arbitrary()
            },
    )
}

/// The names of the fields of a schema, as columns that do not name their
/// table.
pub open spec fn bare_columns(fields: Seq<FieldView>) -> Seq<ColumnView> {
    Seq::new(fields.len(), |i: int| ColumnView { relation: None, name: fields[i].column.name })
}

/// The view of an outcome.
pub open spec fn expr_outcome(r: Option<Result<Expr, Error>>) -> Option<
    Result<ExprView, ErrorView>,
> {
    match r {
        Some(Ok(e)) => Some(Ok(e@)),
        Some(Err(e)) => Some(Err(e@)),
        None => None,
    }
}

/// The view of an outcome.
pub open spec fn exprs_outcome(r: Option<Result<Vec<Expr>, Error>>) -> Option<
    Result<Seq<ExprView>, ErrorView>,
> {
    match r {
        Some(Ok(v)) => Some(Ok(exprs_view(v@))),
        Some(Err(e)) => Some(Err(e@)),
        None => None,
    }
}

/// The views of a list of lists of expressions.
pub open spec fn expr_lists_view(s: Seq<Vec<Expr>>) -> Seq<Seq<ExprView>> {
    Seq::new(s.len(), |i: int| exprs_view(s[i]@))
}

/// What fails in the front of a list fails in the list.
pub proof fn lemma_collect_prefix<T>(s: Seq<Option<Result<T, ErrorView>>>, n: int)
    requires
        0 <= n <= s.len(),
        !(collect(s.take(n)) matches Some(Ok(_))),
    ensures
        collect(s) == collect(s.take(n)),
    decreases s.len() - n,
{
    if n == s.len() {
        assert(s.take(n) =~= s);
    } else {
        assert(s.take(n + 1).drop_last() =~= s.take(n));
        lemma_collect_prefix(s, n + 1);
    }
}

/// The columns that a scan of a table outputs.
pub fn get_table_scan_columns(
    table_name: &TableReference,
    source: &Vec<SourceField>,
    projection: &Option<Vec<usize>>,
) -> (r: Result<Vec<Column>, Error>)
    ensures
        ({
            let expected = scan_columns(table_name@, source_view(source@), projection_view(*projection));
            &&& r is Ok <==> expected is Ok
            &&& r is Ok ==> columns_view(r->Ok_0@) == expected->Ok_0
            &&& r is Err ==> r->Err_0@ == expected->Err_0
        }),
{
    let ghost all = schema_columns(qualified(table_name@, source_view(source@)));
    let mut r: Vec<Column> = Vec::new();
    match projection {
        None => {
            for i in 0..source.len()
                invariant
                    all == schema_columns(qualified(table_name@, source_view(source@))),
                    r@.len() == i,
                    forall|j: int| 0 <= j < i ==> (#[trigger] r@[j])@ == all[j],
            {
                r.push(Column::new(Some(table_name.clone()), source[i].name.clone()));
            }
            assert(columns_view(r@) =~= all);
        },
        Some(indices) => {
            for i in 0..indices.len()
                invariant
                    all == schema_columns(qualified(table_name@, source_view(source@))),
                    projection_view(*projection) == Some(indices@),
                    r@.len() == i,
                    first_out_of_bounds(indices@.take(i as int), source@.len()) is None,
                    forall|j: int| 0 <= j < i ==> (#[trigger] r@[j])@ == all[indices@[j] as int],
            {
                assert(indices@.take(i + 1).drop_last() =~= indices@.take(i as int));
                let index = indices[i];
                if index >= source.len() {
                    proof {
                        lemma_out_of_bounds_prefix(indices@, i + 1, source@.len());
                    }
                    return Err(
                        Error::ProjectionOutOfBounds { index, fields: source.len() },
                    );
                }
                r.push(Column::new(Some(table_name.clone()), source[index].name.clone()));
            }
            assert(indices@.take(indices@.len() as int) =~= indices@);
            assert(columns_view(r@) =~= Seq::new(
                indices@.len(),
                |i: int| all[indices@[i] as int],
            ));
        },
    }
    Ok(r)
}

/// An index out of bounds in the front of a projection is one in the projection.
pub proof fn lemma_out_of_bounds_prefix(s: Seq<usize>, n: int, fields: nat)
    requires
        0 <= n <= s.len(),
        first_out_of_bounds(s.take(n), fields) is Some,
    ensures
        first_out_of_bounds(s, fields) == first_out_of_bounds(s.take(n), fields),
    decreases s.len() - n,
{
    if n == s.len() {
        assert(s.take(n) =~= s);
    } else {
        assert(s.take(n + 1).drop_last() =~= s.take(n));
        lemma_out_of_bounds_prefix(s, n + 1, fields);
    }
}

fn columns_to_exprs(columns: Vec<Column>) -> (r: Vec<Expr>)
    ensures
        exprs_view(r@) == column_exprs(columns_view(columns@)),
{
    let mut r: Vec<Expr> = Vec::new();
    for i in 0..columns.len()
        invariant
            r@.len() == i,
            forall|j: int| 0 <= j < i ==> (#[trigger] r@[j])@ == ExprView::Column(columns@[j]@),
    {
        r.push(Expr::Column(columns[i].clone()));
    }
    assert(exprs_view(r@) =~= column_exprs(columns_view(columns@)));
    r
}

fn get_bare_columns(schema: &DFSchema) -> (r: Vec<Column>)
    ensures
        columns_view(r@) == bare_columns(schema@),
{
    let mut r: Vec<Column> = Vec::new();
    for i in 0..schema.fields.len()
        invariant
            r@.len() == i,
            forall|j: int| 0 <= j < i ==> (#[trigger] r@[j])@ == bare_columns(schema@)[j],
    {
        r.push(Column::new_unqualified(schema.fields[i].name.clone()));
    }
    assert(columns_view(r@) =~= bare_columns(schema@));
    r
}

/// Appends the second list to the first.
fn joined(a: Vec<Expr>, b: Vec<Expr>) -> (r: Vec<Expr>)
    ensures
        exprs_view(r@) == exprs_view(a@) + exprs_view(b@),
{
    let mut r = a;
    let mut rest = b;
    r.append(&mut rest);
    assert(exprs_view(r@) =~= exprs_view(a@) + exprs_view(b@));
    r
}

impl LogicalPlan {
    /// The sets of columns that joins of the plan make equal.
    pub fn using_sets(&self) -> (r: Vec<Vec<Column>>)
        ensures
            column_sets_view(r@) == using_sets(self@),
        decreases self,
    {
        let mut r: Vec<Vec<Column>> = Vec::new();
        for i in 0..self.using_columns.len()
            invariant
                r@.len() == i,
                forall|j: int|
                    0 <= j < i ==> columns_view((#[trigger] r@[j])@) == columns_view(
                        self.using_columns@[j]@,
                    ),
        {
            r.push(clone_columns(&self.using_columns[i]));
        }
        assert(column_sets_view(r@) =~= column_sets_view(self.using_columns@));
        let ghost inputs = all_using_sets(self@.inputs);
        assert(inputs.take(0).flatten() =~= Seq::empty());
        assert(column_sets_view(r@) =~= self@.using_columns + inputs.take(0).flatten());
        for i in 0..self.inputs.len()
            invariant
                inputs == all_using_sets(self@.inputs),
                decreases_to!(self => self.inputs),
                column_sets_view(r@) == self@.using_columns + inputs.take(i as int).flatten(),
        {
            let mut more = self.inputs[i].using_sets();
            let ghost before = r@;
            let ghost added = more@;
            r.append(&mut more);
            proof {
                assert(inputs[i as int] == using_sets(self.inputs@[i as int]@));
                assert(inputs.take(i + 1) =~= inputs.take(i as int).push(inputs[i as int]));
                inputs.take(i as int).lemma_flatten_push(inputs[i as int]);
                assert(column_sets_view(before + added) =~= column_sets_view(before)
                    + column_sets_view(added));
                assert(column_sets_view(r@) =~= self@.using_columns + inputs.take(
                    i + 1,
                ).flatten());
            }
        }
        assert(inputs.take(self.inputs@.len() as int) =~= inputs);
        r
    }
}

/// What the columns of a node's expressions stand for.
struct Scope<'a> {
    alias: Option<&'a TableReference>,
    schemas: Vec<&'a DFSchema>,
    using_columns: Vec<Vec<Column>>,
    outputs: Vec<Vec<Expr>>,
}

impl<'a> Scope<'a> {
    spec fn view(&self) -> ScopeView {
        ScopeView {
            alias: match self.alias {
                Some(alias) => Some(alias@),
                None => None,
            },
            schemas: schemas_view(self.schemas@),
            using_columns: column_sets_view(self.using_columns@),
            outputs: expr_lists_view(self.outputs@),
        }
    }

    fn locate(&self, column: &Column) -> (r: Option<(usize, usize)>)
        ensures
            match (r, locate(self.view().schemas, column@)) {
                (Some((child, i)), Some((c, j))) => child == c && i == j,
                (None, None) => true,
                _ => false,
            },
    {
        let ghost schemas = self.view().schemas;
        for child in 0..self.schemas.len()
            invariant
                schemas == self.view().schemas,
                locate(schemas.take(child as int), column@) is None,
        {
            assert(schemas.take(child + 1).drop_last() =~= schemas.take(child as int));
            assert(schemas.take(child + 1).last() == self.schemas@[child as int]@);
            if let Some(i) = self.schemas[child].maybe_index_of_column(column) {
                proof {
                    lemma_locate_prefix(schemas, child + 1, column@);
                }
                return Some((child, i));
            }
        }
        assert(schemas.take(self.schemas@.len() as int) =~= schemas);
        None
    }

    fn flatten_column(&self, column: &Column) -> (r: Option<Result<Expr, Error>>)
        ensures
            expr_outcome(r) == flat_column(column@, self.view()),
    {
        let inner = match self.alias {
            Some(alias) => {
                let inside = match &column.relation {
                    Some(relation) => relation.same(alias),
                    None => false,
                };
                if !inside {
                    return Some(Ok(Expr::Column(column.clone())));
                }
                Column::new_unqualified(column.name.clone())
            },
            None => column.clone(),
        };
        let resolved = match normalize_column(&inner, &self.schemas, &self.using_columns) {
            Ok(c) => c,
            Err(e) => return Some(Err(e)),
        };
        match self.locate(&resolved) {
            Some((child, i)) => {
                if child < self.outputs.len() && i < self.outputs[child].len() {
                    assert(self.view().outputs[child as int][i as int]
                        == self.outputs@[child as int]@[i as int]@);
                    Some(Ok(self.outputs[child][i].clone()))
                } else {
                    None
                }
            },
            None => None,
        }
    }

    fn flatten_expr(&self, e: &Expr) -> (r: Option<Result<Expr, Error>>)
        ensures
            expr_outcome(r) == flat(e@, self.view()),
        decreases e,
    {
        match e {
            Expr::Column(c) => self.flatten_column(c),
            Expr::Literal(_, _) => Some(Ok(e.clone())),
            Expr::BinaryExpr { left, op, right } => {
                let l = match self.flatten_expr(&**left) {
                    Some(Ok(l)) => l,
                    failed => return failed,
                };
                let r = match self.flatten_expr(&**right) {
                    Some(Ok(r)) => r,
                    failed => return failed,
                };
                Some(Ok(Expr::BinaryExpr { left: Box::new(l), op: *op, right: Box::new(r) }))
            },
            Expr::Not(x) => match self.flatten_expr(&**x) {
                Some(Ok(y)) => Some(Ok(Expr::Not(Box::new(y)))),
                failed => failed,
            },
            Expr::Alias { expr, relation, name, metadata } => match self.flatten_expr(&**expr) {
                Some(Ok(y)) => Some(
                    Ok(
                        Expr::Alias {
                            expr: Box::new(y),
                            relation: crate::names::clone_relation(relation),
                            name: name.clone(),
                            metadata: *metadata,
                        },
                    ),
                ),
                failed => failed,
            },
            Expr::Other { id, children } => {
                let ghost all = flats(exprs_view(children@), self.view());
                let mut flat_children: Vec<Expr> = Vec::new();
                assert(exprs_view(flat_children@) =~= Seq::empty());
                for i in 0..children.len()
                    invariant
                        decreases_to!(e => children),
                        all == flats(exprs_view(children@), self.view()),
                        e@ == (ExprView::Other { id: *id, children: exprs_view(children@) }),
                        collect(all.take(i as int)) == Some(
                            Ok::<Seq<ExprView>, ErrorView>(exprs_view(flat_children@)),
                        ),
                {
                    assert(all.take(i + 1).drop_last() =~= all.take(i as int));
                    assert(all[i as int] == flat(children@[i as int]@, self.view()));
                    match self.flatten_expr(&children[i]) {
                        Some(Ok(c)) => {
                            let ghost before = flat_children@;
                            flat_children.push(c);
                            assert(exprs_view(flat_children@) =~= exprs_view(before).push(c@));
                        },
                        failed => {
                            proof {
                                lemma_collect_prefix(all, i + 1);
                            }
                            return failed;
                        },
                    }
                }
                assert(all.take(children@.len() as int) =~= all);
                Some(Ok(Expr::Other { id: *id, children: flat_children }))
            },
        }
    }

    fn flatten_all(&self, exprs: &Vec<Expr>) -> (r: Option<Result<Vec<Expr>, Error>>)
        ensures
            exprs_outcome(r) == collect(flats(exprs_view(exprs@), self.view())),
    {
        let ghost all = flats(exprs_view(exprs@), self.view());
        let mut r: Vec<Expr> = Vec::new();
        assert(exprs_view(r@) =~= Seq::empty());
        for i in 0..exprs.len()
            invariant
                all == flats(exprs_view(exprs@), self.view()),
                collect(all.take(i as int)) == Some(
                    Ok::<Seq<ExprView>, ErrorView>(exprs_view(r@)),
                ),
        {
            assert(all.take(i + 1).drop_last() =~= all.take(i as int));
            assert(all[i as int] == flat(exprs@[i as int]@, self.view()));
            match self.flatten_expr(&exprs[i]) {
                Some(Ok(e)) => {
                    let ghost before = r@;
                    r.push(e);
                    assert(exprs_view(r@) =~= exprs_view(before).push(e@));
                },
                Some(Err(e)) => {
                    proof {
                        lemma_collect_prefix(all, i + 1);
                    }
                    return Some(Err(e));
                },
                None => {
                    proof {
                        lemma_collect_prefix(all, i + 1);
                    }
                    return None;
                },
            }
        }
        assert(all.take(exprs@.len() as int) =~= all);
        Some(Ok(r))
    }
}

/// Replaces each column of the filters of a table by the field that it stands
/// for.
pub fn flatten_scan_filters(filters: &Vec<Expr>, schema: &DFSchema) -> (r: Option<
    Result<Vec<Expr>, Error>,
>)
    ensures
        exprs_outcome(r) == collect(flats(exprs_view(filters@), scan_scope(schema@))),
{
    let mut schemas: Vec<&DFSchema> = Vec::new();
    schemas.push(schema);
    assert(schemas_view(schemas@) =~= seq![schema@]);
    let using_columns: Vec<Vec<Column>> = Vec::new();
    assert(column_sets_view(using_columns@) =~= Seq::empty());
    let mut outputs: Vec<Vec<Expr>> = Vec::new();
    outputs.push(columns_to_exprs(schema.columns()));
    assert(expr_lists_view(outputs@) =~= seq![column_exprs(schema_columns(schema@))]);
    let scope = Scope { alias: None, schemas, using_columns, outputs };
    scope.flatten_all(filters)
}

proof fn lemma_locate_prefix(schemas: Seq<Seq<FieldView>>, n: int, column: ColumnView)
    requires
        0 <= n <= schemas.len(),
        locate(schemas.take(n), column) is Some,
    ensures
        locate(schemas, column) == locate(schemas.take(n), column),
    decreases schemas.len() - n,
{
    if n == schemas.len() {
        assert(schemas.take(n) =~= schemas);
    } else {
        assert(schemas.take(n + 1).drop_last() =~= schemas.take(n));
        lemma_locate_prefix(schemas, n + 1, column);
    }
}

/// Replaces each column of a node's expressions by the expression over tables
/// that it stands for.
pub fn flatten_exprs(exprs: Vec<Expr>, parent: &LogicalPlan) -> (r: Option<
    Result<Vec<Expr>, Error>,
>)
    ensures
        exprs_outcome(r) == flattened(
            exprs_view(exprs@),
            parent@,
            collect(all_outputs(parent@.inputs)),
        ),
    decreases parent, 0nat,
{
    if let PlanNode::TableScan { .. } = &parent.node {
        return Some(Ok(exprs));
    }
    let mut schemas: Vec<&DFSchema> = Vec::new();
    for i in 0..parent.inputs.len()
        invariant
            schemas@.len() == i,
            forall|j: int| 0 <= j < i ==> (#[trigger] schemas@[j])@ == parent.inputs@[j]@.schema,
    {
        schemas.push(&parent.inputs[i].schema);
    }
    assert(schemas_view(schemas@) =~= input_schemas(parent@.inputs));
    let using_columns = parent.using_sets();
    let ghost inputs = all_outputs(parent@.inputs);
    let mut by_child: Vec<Vec<Expr>> = Vec::new();
    assert(expr_lists_view(by_child@) =~= Seq::empty());
    for i in 0..parent.inputs.len()
        invariant
            decreases_to!(parent => parent.inputs),
            !(parent@.node is TableScan),
            inputs == all_outputs(parent@.inputs),
            collect(inputs.take(i as int)) == Some(
                Ok::<Seq<Seq<ExprView>>, ErrorView>(expr_lists_view(by_child@)),
            ),
    {
        assert(inputs.take(i + 1).drop_last() =~= inputs.take(i as int));
        assert(inputs[i as int] == outputs(parent.inputs@[i as int]@));
        match get_output_exprs(&parent.inputs[i]) {
            Some(Ok(child)) => {
                let ghost before = by_child@;
                by_child.push(child);
                assert(expr_lists_view(by_child@) =~= expr_lists_view(before).push(
                    exprs_view(child@),
                ));
            },
            failed => {
                proof {
                    lemma_collect_prefix(inputs, i + 1);
                }
                return failed;
            },
        }
    }
    assert(inputs.take(parent.inputs@.len() as int) =~= inputs);
    let alias = match &parent.node {
        PlanNode::SubqueryAlias { alias } => Some(alias),
        _ => None,
    };
    let scope = Scope { alias, schemas, using_columns, outputs: by_child };
    let ghost view = scope_of(parent@, expr_lists_view(by_child@));
    assert(scope.view() == view);
    scope.flatten_all(&exprs)
}

/// For each field of the plan's schema, the expression over tables that it is.
pub fn get_output_exprs(plan: &LogicalPlan) -> (r: Option<Result<Vec<Expr>, Error>>)
    ensures
        exprs_outcome(r) == outputs(plan@),
        r matches Some(Ok(v)) ==> v@.len() == plan@.schema.len(),
    decreases plan, 2nat,
{
    match get_node_output_exprs(plan) {
        Some(Ok(exprs)) => if exprs.len() == plan.schema.fields.len() {
            Some(Ok(exprs))
        } else {
            Some(Err(Error::OutputNotSupported(plan.display.clone())))
        },
        failed => failed,
    }
}

/// The expressions over tables that a node outputs.
fn get_node_output_exprs(plan: &LogicalPlan) -> (r: Option<Result<Vec<Expr>, Error>>)
    ensures
        exprs_outcome(r) == node_outputs(plan@),
    decreases plan, 1nat,
{
    let exprs = match &plan.node {
        PlanNode::Filter { .. }
        | PlanNode::Sort
        | PlanNode::Limit
        | PlanNode::Distinct { select_expr: None }
        | PlanNode::SubqueryAlias { .. } => {
            if plan.inputs.len() == 0 {
                return None;
            }
            assert(all_outputs(plan@.inputs)[0] == outputs(plan.inputs@[0]@));
            assert(decreases_to!(plan => plan.inputs));
            return get_output_exprs(&plan.inputs[0]);
        },
        PlanNode::Distinct { select_expr: Some(exprs) } => clone_exprs(exprs),
        PlanNode::Projection { expr } => clone_exprs(expr),
        PlanNode::Aggregate { group_expr, aggr_expr } => joined(
            clone_exprs(group_expr),
            clone_exprs(aggr_expr),
        ),
        PlanNode::Window { window_expr } => {
            if plan.inputs.len() == 0 {
                return None;
            }
            assert(plan@.inputs[0] == plan.inputs@[0]@);
            joined(
                columns_to_exprs(get_bare_columns(&plan.inputs[0].schema)),
                clone_exprs(window_expr),
            )
        },
        PlanNode::TableScan { table_name, source, projection, .. } => {
            return Some(
                match get_table_scan_columns(table_name, source, projection) {
                    Ok(columns) => Ok(columns_to_exprs(columns)),
                    Err(e) => Err(e),
                },
            );
        },
        PlanNode::Unnest => columns_to_exprs(plan.schema.columns()),
        PlanNode::Join { join_type } => {
            if plan.inputs.len() < 2 {
                return None;
            }
            assert(plan@.inputs[0] == plan.inputs@[0]@);
            assert(plan@.inputs[1] == plan.inputs@[1]@);
            columns_to_exprs(
                get_join_columns(*join_type, &plan.inputs[0].schema, &plan.inputs[1].schema),
            )
        },
        PlanNode::Other => return Some(Err(Error::OutputNotSupported(plan.display.clone()))),
    };
    flatten_exprs(exprs, plan)
}

/// The columns of both sides that a join outputs.
fn get_join_columns(join_type: JoinType, left: &DFSchema, right: &DFSchema) -> (r: Vec<Column>)
    ensures
        columns_view(r@) == join_columns(join_type, left@, right@),
{
    match join_type {
        JoinType::Inner | JoinType::Left | JoinType::Right | JoinType::Full => {
            let mut r = left.columns();
            let mut rest = right.columns();
            let ghost a = r@;
            let ghost b = rest@;
            r.append(&mut rest);
            assert(columns_view(r@) =~= columns_view(a) + columns_view(b));
            r
        },
        JoinType::LeftSemi | JoinType::LeftAnti | JoinType::LeftMark => left.columns(),
        JoinType::RightSemi | JoinType::RightAnti | JoinType::RightMark => right.columns(),
    }
}

} // verus!
