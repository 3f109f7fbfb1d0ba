//! View matching: select-project plans in a normal form, and when one of them
//! can be answered from the output of another.
use vstd::prelude::*;

use crate::error::{Error, ErrorView};
use crate::expr::{exprs_view, find_expr, lemma_position, position, Expr, ExprView, Operator};
use crate::names::{
    clone_references, clone_relation, references_view, Column, ColumnView, TableReference,
    TableReferenceView,
};
use crate::plan::{get_output_exprs, outputs, LogicalPlan, PlanView};
use crate::rewrite::predicate::{
    all_normal, all_range_filters, comparison, equality_filters, normal, predicate_of,
    residual_filters, Predicate, PredicateView,
};
use crate::schema::{DFSchema, FieldView};

verus! {

/// The parts of a [`SpjNormalForm`].
pub struct SpjView {
    /// The fields of the plan's output.
    pub output_schema: Seq<FieldView>,
    /// The expression over tables that each field is.
    pub output_exprs: Seq<ExprView>,
    /// The tables of the plan.
    pub referenced_tables: Seq<TableReferenceView>,
    /// The filters of the plan.
    pub predicate: PredicateView,
}

impl SpjView {
    /// Each field of the schema has its output.
    pub open spec fn aligned(self) -> bool {
        self.output_exprs.len() == self.output_schema.len()
    }
}

/// The normal form of a plan. It is `None` where the plan does not hang
/// together.
pub open spec fn normal_form(plan: PlanView) -> Option<Result<SpjView, ErrorView>> {
    match predicate_of(plan) {
        Some(Ok(predicate)) => match outputs(plan) {
            Some(Ok(exprs)) => Some(
                Ok(
                    SpjView {
                        output_schema: plan.schema,
                        output_exprs: all_normal(predicate.classes, exprs),
                        referenced_tables: predicate.tables,
                        predicate,
                    },
                ),
            ),
            Some(Err(e)) => Some(Err(e)),
            None => None,
        },
        Some(Err(e)) => Some(Err(e)),
        None => None,
    }
}

/// The expression over the output of a plan: every part that the plan outputs
/// is replaced by the column of the output, the largest parts first.
pub open spec fn over_output(view: SpjView, e: ExprView) -> ExprView
    decreases e,
{
    match position(view.output_exprs, e) {
        Some(i) => ExprView::Column(
            ColumnView { relation: None, name: view.output_schema[i].column.name },
        ),
        None => match e {
            ExprView::Column(_) => e,
            ExprView::Literal(_, _) => e,
            ExprView::BinaryExpr { left, op, right } => ExprView::BinaryExpr {
                left: Box::new(over_output(view, *left)),
                op,
                right: Box::new(over_output(view, *right)),
            },
            ExprView::Not(x) => ExprView::Not(Box::new(over_output(view, *x))),
            ExprView::Alias { expr, relation, name, metadata } => ExprView::Alias {
                expr: Box::new(over_output(view, *expr)),
                relation,
                name,
                metadata,
            },
            ExprView::Other { id, children } => ExprView::Other {
                id,
                children: all_over_output(view, children),
            },
        },
    }
}

pub open spec fn all_over_output(view: SpjView, s: Seq<ExprView>) -> Seq<ExprView>
    decreases s,
{
    Seq::new(
        s.len(),
        |i: int|
            if 0 <= i < s.len() {
                over_output(view, s[i])
            } else {
                arbitrary()
            },
    )
}

/// The first outputs of a query over the output of a view, each under the name
/// that it has in the query; `None` where one of them needs a column that the
/// view does not output.
pub open spec fn projection(query: SpjView, view: SpjView, n: nat) -> Option<Seq<ExprView>>
    decreases n,
{
    if n == 0 {
        Some(Seq::empty())
    } else {
        match projection(query, view, (n - 1) as nat) {
            Some(front) => {
                let e = over_output(
                    view,
                    normal(view.predicate.classes, query.output_exprs[n - 1]),
                );
                let field = query.output_schema[n - 1].column;
                if e.has_qualified_column() {
                    None
                } else {
                    Some(
                        front.push(
                            ExprView::Alias {
                                expr: Box::new(e),
                                relation: field.relation,
                                name: field.name,
                                metadata: None,
                            },
                        ),
                    )
                }
            },
            None => None,
        }
    }
}

/// The conjunction of a list of expressions, where there are any.
pub open spec fn conjunction(s: Seq<ExprView>) -> Option<ExprView>
    decreases s.len(),
{
    if s.len() == 0 {
        None
    } else {
        match conjunction(s.drop_last()) {
            Some(front) => Some(comparison(front, Operator::And, s.last())),
            None => Some(s.last()),
        }
    }
}

/// The filters that a query has beyond those of a view, over tables; `None`
/// where the view has filters that the query does not have.
pub open spec fn extra_filters(query: PredicateView, view: PredicateView) -> Result<
    Option<Seq<ExprView>>,
    ErrorView,
> {
    match all_range_filters(query, view) {
        Err(e) => Err(e),
        Ok(ranges) => match (
            equality_filters(query.classes, view.classes),
            ranges,
            residual_filters(query, view),
        ) {
            (Some(a), Some(b), Some(c)) => Ok(Some(a + b + c)),
            _ => Ok(None),
        },
    }
}

/// The parts of a [`Rewrite`].
pub struct RewriteView {
    pub filter: Option<ExprView>,
    pub projection: Seq<ExprView>,
}

/// How a query is answered from a view, where it can be.
pub open spec fn rewritten(query: SpjView, view: SpjView) -> Result<
    Option<RewriteView>,
    ErrorView,
> {
    match projection(query, view, query.output_exprs.len()) {
        None => Ok(None),
        Some(projection) => match extra_filters(query.predicate, view.predicate) {
            Err(e) => Err(e),
            Ok(None) => Ok(None),
            Ok(Some(filters)) => {
                let filter = conjunction(all_over_output(view, filters));
                if filter is Some && filter->0.has_qualified_column() {
                    Ok(None)
                } else {
                    Ok(Some(RewriteView { filter, projection }))
                }
            },
        },
    }
}

/// A plan over the output of another: a projection of the rows that pass the
/// filter. Columns name fields of that output.
#[derive(Debug, PartialEq, Eq, Hash)]
pub struct Rewrite {
    pub filter: Option<Expr>,
    pub projection: Vec<Expr>,
}

impl View for Rewrite {
    type V = RewriteView;

    open spec fn view(&self) -> RewriteView {
        RewriteView {
            filter: match self.filter {
                Some(e) => Some(e@),
                None => None,
            },
            projection: exprs_view(self.projection@),
        }
    }
}

/// A normalized representation of a plan containing only select and project in
/// the relational algebra sense.
#[derive(Debug)]
pub struct SpjNormalForm {
    output_schema: DFSchema,
    output_exprs: Vec<Expr>,
    referenced_tables: Vec<TableReference>,
    predicate: Predicate,
}

impl View for SpjNormalForm {
    type V = SpjView;

    closed spec fn view(&self) -> SpjView {
        SpjView {
            output_schema: self.output_schema@,
            output_exprs: exprs_view(self.output_exprs@),
            referenced_tables: references_view(self.referenced_tables@),
            predicate: self.predicate@,
        }
    }
}

/// The view of an outcome.
pub open spec fn form_outcome(r: Option<Result<SpjNormalForm, Error>>) -> Option<
    Result<SpjView, ErrorView>,
> {
    match r {
        Some(Ok(p)) => Some(Ok(p@)),
        Some(Err(e)) => Some(Err(e@)),
        None => None,
    }
}

/// The view of the result of a rewrite.
pub open spec fn rewrite_result(r: Result<Option<Rewrite>, Error>) -> Result<
    Option<RewriteView>,
    ErrorView,
> {
    match r {
        Ok(Some(p)) => Ok(Some(p@)),
        Ok(None) => Ok(None),
        Err(e) => Err(e@),
    }
}

/// The conjunction of a list of expressions, where there are any.
fn reduce_and(exprs: Vec<Expr>) -> (r: Option<Expr>)
    ensures
        r is Some <==> conjunction(exprs_view(exprs@)) is Some,
        r is Some ==> r->0@ == conjunction(exprs_view(exprs@))->0,
{
    let ghost all = exprs_view(exprs@);
    let mut r: Option<Expr> = None;
    for i in 0..exprs.len()
        invariant
            all == exprs_view(exprs@),
            r is Some <==> conjunction(all.take(i as int)) is Some,
            r is Some ==> r->0@ == conjunction(all.take(i as int))->0,
    {
        assert(all.take(i + 1).drop_last() =~= all.take(i as int));
        let e = exprs[i].clone();
        r = match r {
            Some(front) => Some(
                Expr::BinaryExpr { left: Box::new(front), op: Operator::And, right: Box::new(e) },
            ),
            None => Some(e),
        };
    }
    assert(all.take(all.len() as int) =~= all);
    r
}

proof fn lemma_projection_prefix(query: SpjView, view: SpjView, n: nat, m: nat)
    requires
        n <= m,
        projection(query, view, n) is None,
    ensures
        projection(query, view, m) is None,
    decreases m,
{
    if n < m {
        lemma_projection_prefix(query, view, n, (m - 1) as nat);
    }
}

impl SpjNormalForm {
    /// The predicate meets its invariant, and each field has its output.
    #[verifier::type_invariant]
    closed spec fn well_formed(self) -> bool {
        &&& self.predicate@.well_formed()
        &&& self.output_exprs@.len() == self.output_schema.fields@.len()
    }

    /// Schema of data output by this plan.
    pub fn output_schema(&self) -> (r: &DFSchema)
        ensures
            r@ == self@.output_schema,
    {
        &self.output_schema
    }

    /// Expressions output by this plan.
    pub fn output_exprs(&self) -> (r: &Vec<Expr>)
        ensures
            exprs_view(r@) == self@.output_exprs,
    {
        &self.output_exprs
    }

    /// All tables referenced in this plan.
    pub fn referenced_tables(&self) -> (r: &Vec<TableReference>)
        ensures
            references_view(r@) == self@.referenced_tables,
    {
        &self.referenced_tables
    }

    /// The filters of this plan.
    pub fn predicate(&self) -> (r: &Predicate)
        ensures
            r@ == self@.predicate,
            r@.well_formed(),
    {
        proof {
            use_type_invariant(self);
        }
        &self.predicate
    }

    fn analyze(plan: &LogicalPlan) -> (r: Option<Result<Self, Error>>)
        ensures
            form_outcome(r) == normal_form(plan@),
    {
        let predicate = match Predicate::new(plan) {
            Some(Ok(predicate)) => predicate,
            Some(Err(e)) => return Some(Err(e)),
            None => return None,
        };
        let exprs = match get_output_exprs(plan) {
            Some(Ok(exprs)) => exprs,
            Some(Err(e)) => return Some(Err(e)),
            None => return None,
        };
        let output_exprs = predicate.normalize_all(&exprs);
        let referenced_tables = clone_references(&predicate.referenced_tables);
        let output_schema = plan.schema.clone();
        assert(exprs_view(output_exprs@).len() == exprs_view(exprs@).len());
        assert(output_schema@.len() == plan@.schema.len());
        Some(
            Ok(
                SpjNormalForm {
                    output_schema,
                    output_exprs,
                    referenced_tables,
                    predicate,
                },
            ),
        )
    }

    /// Whether the plan hangs together, so that it can be analyzed: each column
    /// stands for a field of the inputs of its node, and each node has the
    /// inputs of its kind.
    pub fn hangs_together(plan: &LogicalPlan) -> (r: bool)
        ensures
            r == (normal_form(plan@) is Some),
    {
        Self::analyze(plan).is_some()
    }

    /// Analyzes an existing plan and rewrites it in normal form.
    pub fn new(plan: &LogicalPlan) -> (r: Result<Self, Error>)
        requires
            normal_form(plan@) is Some,
        ensures
            match normal_form(plan@)->0 {
                Ok(form) => r matches Ok(x) && x@ == form,
                Err(e) => r matches Err(x) && x@ == e,
            },
    {
        match Self::analyze(plan) {
            Some(r) => r,
            None => vstd::pervasive::unreached(),
        }
    }

    /// Analyzes a plan where it hangs together.
    pub fn checked_new(plan: &LogicalPlan) -> (r: Option<Result<Self, Error>>)
        ensures
            form_outcome(r) == normal_form(plan@),
    {
        if Self::hangs_together(plan) {
            Some(Self::new(plan))
        } else {
            None
        }
    }

    /// Rewrites an expression to use output columns of this plan, where
    /// possible.
    pub fn rewrite_expr(&self, e: &Expr) -> (r: Expr)
        ensures
            r@ == over_output(self@, e@),
        decreases e,
    {
        proof {
            use_type_invariant(self);
            lemma_position(self@.output_exprs, e@);
        }
        if let Some(i) = find_expr(&self.output_exprs, e) {
            return Expr::Column(Column::new_unqualified(self.output_schema.fields[i].name.clone()));
        }
        match e {
            Expr::Column(_) => e.clone(),
            Expr::Literal(_, _) => e.clone(),
            Expr::BinaryExpr { left, op, right } => {
                let l = self.rewrite_expr(&**left);
                let r = self.rewrite_expr(&**right);
                Expr::BinaryExpr { left: Box::new(l), op: *op, right: Box::new(r) }
            },
            Expr::Not(x) => {
                let y = self.rewrite_expr(&**x);
                Expr::Not(Box::new(y))
            },
            Expr::Alias { expr, relation, name, metadata } => {
                let y = self.rewrite_expr(&**expr);
                Expr::Alias {
                    expr: Box::new(y),
                    relation: clone_relation(relation),
                    name: name.clone(),
                    metadata: *metadata,
                }
            },
            Expr::Other { id, children } => {
                let mut new_children: Vec<Expr> = Vec::new();
                for i in 0..children.len()
                    invariant
                        decreases_to!(e => children),
                        new_children@.len() == i,
                        forall|j: int|
                            0 <= j < i ==> (#[trigger] new_children@[j])@ == over_output(
                                self@,
                                children@[j]@,
                            ),
                {
                    let c = self.rewrite_expr(&children[i]);
                    new_children.push(c);
                }
                assert(exprs_view(new_children@) =~= all_over_output(
                    self@,
                    exprs_view(children@),
                ));
                Expr::Other { id: *id, children: new_children }
            },
        }
    }

    /// Rewrites each expression of a list.
    fn rewrite_all(&self, v: &Vec<Expr>) -> (r: Vec<Expr>)
        ensures
            exprs_view(r@) == all_over_output(self@, exprs_view(v@)),
    {
        let mut r: Vec<Expr> = Vec::new();
        for i in 0..v.len()
            invariant
                r@.len() == i,
                forall|j: int| 0 <= j < i ==> (#[trigger] r@[j])@ == over_output(self@, v@[j]@),
        {
            r.push(self.rewrite_expr(&v[i]));
        }
        assert(exprs_view(r@) =~= all_over_output(self@, exprs_view(v@)));
        r
    }

    /// The outputs of this plan over the output of another.
    fn project_from(&self, other: &Self) -> (r: Option<Vec<Expr>>)
        ensures
            r is Some <==> projection(self@, other@, self@.output_exprs.len()) is Some,
            r is Some ==> exprs_view(r->0@) == projection(
                self@,
                other@,
                self@.output_exprs.len(),
            )->0,
    {
        proof {
            use_type_invariant(self);
            use_type_invariant(other);
        }
        let mut r: Vec<Expr> = Vec::new();
        assert(exprs_view(r@) =~= Seq::empty());
        for i in 0..self.output_exprs.len()
            invariant
                self.output_exprs@.len() == self.output_schema.fields@.len(),
                other.predicate@.well_formed(),
                projection(self@, other@, i as nat) == Some(exprs_view(r@)),
        {
            let normalized = other.predicate.normalize_expr(&self.output_exprs[i]);
            let e = other.rewrite_expr(&normalized);
            if e.has_qualified_column() {
                proof {
                    lemma_projection_prefix(
                        self@,
                        other@,
                        (i + 1) as nat,
                        self@.output_exprs.len(),
                    );
                }
                return None;
            }
            let field = &self.output_schema.fields[i];
            assert(self@.output_schema[i as int] == field@);
            let output = Expr::Alias {
                expr: Box::new(e),
                relation: clone_relation(&field.qualifier),
                name: field.name.clone(),
                metadata: None,
            };
            let ghost before = r@;
            r.push(output);
            assert(exprs_view(r@) =~= exprs_view(before).push(output@));
        }
        Some(r)
    }

    /// Rewrites this plan as a selection and projection on top of another plan,
    /// where the output of that plan has all that this one needs.
    pub fn rewrite_from(&self, other: &Self) -> (r: Result<Option<Rewrite>, Error>)
        ensures
            rewrite_result(r) == rewritten(self@, other@),
    {
        proof {
            use_type_invariant(self);
            use_type_invariant(other);
        }
        let projection = match self.project_from(other) {
            Some(projection) => projection,
            None => return Ok(None),
        };
        let eq_filters = self.predicate.equijoin_subsumption_test(&other.predicate);
        let range_filters = match self.predicate.range_subsumption_test(&other.predicate) {
            Ok(filters) => filters,
            Err(e) => return Err(e),
        };
        let residual_filters = self.predicate.residual_subsumption_test(&other.predicate);
        let filters = match (eq_filters, range_filters, residual_filters) {
            (Some(mut filters), Some(mut ranges), Some(mut residuals)) => {
                let ghost a = filters@;
                let ghost b = ranges@;
                let ghost c = residuals@;
                filters.append(&mut ranges);
                filters.append(&mut residuals);
                assert(exprs_view(filters@) =~= exprs_view(a) + exprs_view(b) + exprs_view(c));
                filters
            },
            _ => return Ok(None),
        };
        let filter = reduce_and(other.rewrite_all(&filters));
        if let Some(e) = &filter {
            if e.has_qualified_column() {
                return Ok(None);
            }
        }
        Ok(Some(Rewrite { filter, projection }))
    }
}

} // verus!
