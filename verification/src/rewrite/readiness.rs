//! Readiness-related types and helpers used by the query-rewrite optimizer.
//!
//! Two-stage readiness contract:
//!
//! 1. When a logical plan is rewritten, candidates whose readiness is
//!    [`RewriteReadiness::NotReady`] are dropped. `Ready` and `Unknown` both
//!    enter the candidate set, and their readiness is recorded on
//!    [`CandidateMetadata::Materialized`].
//! 2. Once every branch has been scanned, the readiness of each candidate is
//!    refreshed. Providers that opt into [`ReadinessAnnotatedExec`] have their
//!    readiness read straight off the plan tree; others fall back to sampling
//!    the current state of the provider.
//!
//! The cost function only ever sees `Base` or `Materialized` with `Ready` or
//! `Unknown`: `NotReady` is filtered by both gates before it can reach cost
//! policy.
use vstd::prelude::*;

use crate::names::{TableReference, TableReferenceView};

verus! {

/// Whether a materialized view is currently safe to route queries to.
///
/// The order of the variants has no meaning.
#[derive(Debug, Clone, Copy, PartialEq, Eq, PartialOrd, Ord, Hash, Structural)]
pub enum RewriteReadiness {
    /// The view is populated and can safely answer the query.
    Ready,
    /// The view should not be used yet.
    NotReady,
    /// The provider cannot cheaply determine readiness. The view is a
    /// candidate, and the cost function decides.
    Unknown,
}

/// What is known of one branch of a query: where it reads from.
#[derive(Debug, PartialEq, Eq, Hash)]
pub enum CandidateMetadata {
    /// The query's original branch.
    Base,
    /// A rewrite of the query on a materialized view.
    Materialized {
        /// The name under which the view is registered.
        table_ref: TableReference,
        /// The readiness that the provider reported last.
        readiness: RewriteReadiness,
    },
}

/// The texts of a [`CandidateMetadata`].
pub enum CandidateView {
    Base,
    Materialized { table_ref: TableReferenceView, readiness: RewriteReadiness },
}

impl View for CandidateMetadata {
    type V = CandidateView;

    open spec fn view(&self) -> CandidateView {
        match *self {
            CandidateMetadata::Base => CandidateView::Base,
            CandidateMetadata::Materialized { table_ref, readiness } =>
                CandidateView::Materialized { table_ref: table_ref@, readiness },
        }
    }
}

impl Clone for CandidateMetadata {
    fn clone(&self) -> (r: Self)
        ensures
            r@ == self@,
    {
        match self {
            CandidateMetadata::Base => CandidateMetadata::Base,
            CandidateMetadata::Materialized { table_ref, readiness } =>
                CandidateMetadata::Materialized {
                table_ref: table_ref.clone(),
                readiness: *readiness,
            },
        }
    }
}

/// The texts of a list of candidates.
pub open spec fn candidates_view(s: Seq<CandidateMetadata>) -> Seq<CandidateView> {
    Seq::new(s.len(), |i: int| s[i]@)
}

/// A physical plan: a readiness annotation over a plan, or an operator over its
/// inputs.
///
/// The numbers of an operator stand for the operator itself, apart from its
/// inputs, and for the properties that it reports.
#[derive(Debug, PartialEq, Eq, Hash)]
pub enum ExecutionPlan {
    Annotated(Box<ReadinessAnnotatedExec>),
    Operator { id: u64, properties: u64, children: Vec<ExecutionPlan> },
}

/// Wraps the plan returned by a provider's scan together with the readiness
/// value captured at scan time.
///
/// The wrapper is transparent: it has the properties of the plan that it
/// wraps.
#[derive(Debug, PartialEq, Eq, Hash)]
pub struct ReadinessAnnotatedExec {
    inner: ExecutionPlan,
    readiness: RewriteReadiness,
    properties: u64,
}

/// The parts of an [`ExecutionPlan`].
pub enum ExecutionPlanView {
    Annotated { inner: Box<ExecutionPlanView>, readiness: RewriteReadiness, properties: u64 },
    Operator { id: u64, properties: u64, children: Seq<ExecutionPlanView> },
}

impl ExecutionPlan {
    pub closed spec fn view(&self) -> ExecutionPlanView
        decreases self,
    {
        match *self {
            ExecutionPlan::Annotated(annotated) => ExecutionPlanView::Annotated {
                inner: Box::new((*annotated).inner.view()),
                readiness: (*annotated).readiness,
                properties: (*annotated).properties,
            },
            ExecutionPlan::Operator { id, properties, children } => ExecutionPlanView::Operator {
                id,
                properties,
                children: execution_plans_view(children@),
            },
        }
    }
}

/// The views of a list of physical plans.
pub closed spec fn execution_plans_view(s: Seq<ExecutionPlan>) -> Seq<ExecutionPlanView>
    decreases s,
{
    Seq::new(
        s.len(),
        |i: int|
            if 0 <= i < s.len() {
                s[i].view()
            } else {
                arbitrary()
            },
    )
}

/// An operator is what it is made of.
pub broadcast proof fn lemma_operator_view(id: u64, properties: u64, children: Vec<ExecutionPlan>)
    ensures
        (#[trigger] (ExecutionPlan::Operator { id, properties, children }).view()) == (
        ExecutionPlanView::Operator {
            id,
            properties,
            children: execution_plans_view(children@),
        }),
{
}

/// A plan that is annotated is the annotation.
pub broadcast proof fn lemma_annotated_view(annotated: Box<ReadinessAnnotatedExec>)
    ensures
        (#[trigger] ExecutionPlan::Annotated(annotated).view()) == annotated.view(),
{
}

/// The views of a list are those of its plans.
pub broadcast proof fn lemma_execution_plans_view(s: Seq<ExecutionPlan>)
    ensures
        (#[trigger] execution_plans_view(s)).len() == s.len(),
        forall|i: int| 0 <= i < s.len() ==> #[trigger] execution_plans_view(s)[i] == s[i].view(),
{
}

impl ReadinessAnnotatedExec {
    pub closed spec fn view(&self) -> ExecutionPlanView {
        ExecutionPlanView::Annotated {
            inner: Box::new(self.inner.view()),
            readiness: self.readiness,
            properties: self.properties,
        }
    }
}

impl ExecutionPlanView {
    pub open spec fn properties(self) -> u64 {
        match self {
            ExecutionPlanView::Annotated { properties, .. } => properties,
            ExecutionPlanView::Operator { properties, .. } => properties,
        }
    }

    /// The plan with a readiness annotation on top.
    pub open spec fn annotated(self, readiness: RewriteReadiness) -> ExecutionPlanView {
        ExecutionPlanView::Annotated {
            inner: Box::new(self),
            readiness,
            properties: self.properties(),
        }
    }

    /// The readiness of the first annotation of the plan, from the root down
    /// and from the first input to the last.
    pub open spec fn readiness(self) -> Option<RewriteReadiness>
        decreases self,
    {
        match self {
            ExecutionPlanView::Annotated { readiness, .. } => Some(readiness),
            ExecutionPlanView::Operator { children, .. } => first_some(all_readiness(children)),
        }
    }

    /// The plan with every annotation replaced by the plan that it wraps.
    pub open spec fn stripped(self) -> ExecutionPlanView
        decreases self,
    {
        match self {
            ExecutionPlanView::Annotated { inner, .. } => (*inner).stripped(),
            ExecutionPlanView::Operator { id, properties, children } =>
                ExecutionPlanView::Operator { id, properties, children: all_stripped(children) },
        }
    }
}

pub open spec fn all_readiness(s: Seq<ExecutionPlanView>) -> Seq<Option<RewriteReadiness>>
    decreases s,
{
    Seq::new(
        s.len(),
        |i: int|
            if 0 <= i < s.len() {
                s[i].readiness()
            } else {
                arbitrary()
            },
    )
}

pub open spec fn all_stripped(s: Seq<ExecutionPlanView>) -> Seq<ExecutionPlanView>
    decreases s,
{
    Seq::new(
        s.len(),
        |i: int|
            if 0 <= i < s.len() {
                s[i].stripped()
            } else {
                arbitrary()
            },
    )
}

/// The first value of a list that is there.
pub open spec fn first_some<T>(s: Seq<Option<T>>) -> Option<T>
    decreases s.len(),
{
    if s.len() == 0 {
        None
    } else {
        match first_some(s.drop_last()) {
            Some(x) => Some(x),
            None => s.last(),
        }
    }
}

proof fn lemma_first_some_prefix<T>(s: Seq<Option<T>>, n: int)
    requires
        0 <= n <= s.len(),
        first_some(s.take(n)) is Some,
    ensures
        first_some(s) == first_some(s.take(n)),
    decreases s.len() - n,
{
    if n == s.len() {
        assert(s.take(n) =~= s);
    } else {
        assert(s.take(n + 1).drop_last() =~= s.take(n));
        lemma_first_some_prefix(s, n + 1);
    }
}

proof fn lemma_first_some_none<T>(s: Seq<Option<T>>)
    ensures
        first_some(s) is None <==> forall|i: int| 0 <= i < s.len() ==> (#[trigger] s[i]) is None,
    decreases s.len(),
{
    if s.len() > 0 {
        let front = s.drop_last();
        lemma_first_some_none(front);
        if first_some(s) is None {
            assert forall|i: int| 0 <= i < s.len() implies (#[trigger] s[i]) is None by {
                if i < front.len() {
                    assert(front[i] == s[i]);
                }
            }
        } else if forall|i: int| 0 <= i < s.len() ==> (#[trigger] s[i]) is None {
            assert(forall|i: int| 0 <= i < front.len() ==> (#[trigger] front[i]) == s[i]);
            assert(s[s.len() - 1] is None);
        }
    }
}

/// Why an annotation cannot be put over other inputs: it has exactly one.
#[derive(Debug, Clone, Copy, PartialEq, Eq, Hash, Structural)]
pub struct ChildCountError {
    /// How many inputs there were.
    pub children: usize,
}

impl ExecutionPlan {
    /// The properties that the plan reports.
    pub fn properties(&self) -> (r: u64)
        ensures
            r == self@.properties(),
    {
        match self {
            ExecutionPlan::Annotated(annotated) => annotated.properties,
            ExecutionPlan::Operator { properties, .. } => *properties,
        }
    }
}

impl ReadinessAnnotatedExec {
    /// Wraps a plan with the readiness captured at scan time.
    pub fn new(inner: ExecutionPlan, readiness: RewriteReadiness) -> (r: Self)
        ensures
            r@ == inner@.annotated(readiness),
    {
        let properties = inner.properties();
        ReadinessAnnotatedExec { inner, readiness, properties }
    }

    /// The name of the operator.
    pub fn name(&self) -> (r: &'static str)
        ensures
            r@ == "ReadinessAnnotatedExec"@,
    {
        "ReadinessAnnotatedExec"
    }

    /// Readiness captured at the moment the provider produced the plan.
    pub fn readiness(&self) -> (r: RewriteReadiness)
        ensures
            Some(r) == self@.readiness(),
    {
        self.readiness
    }

    /// The wrapped plan.
    pub fn inner(&self) -> (r: &ExecutionPlan)
        ensures
            self@ matches ExecutionPlanView::Annotated { inner, .. } && r@ == *inner,
    {
        &self.inner
    }

    /// The properties of the wrapped plan.
    pub fn properties(&self) -> (r: u64)
        ensures
            r == self@.properties(),
    {
        self.properties
    }

    /// The inputs of the operator: the wrapped plan alone.
    pub fn children(&self) -> (r: Vec<&ExecutionPlan>)
        ensures
            r@.len() == 1,
            self@ matches ExecutionPlanView::Annotated { inner, .. } && r@[0]@ == *inner,
    {
        let mut r: Vec<&ExecutionPlan> = Vec::new();
        r.push(&self.inner);
        r
    }

    /// The annotation over another plan. It has exactly one input.
    pub fn with_new_children(self, children: Vec<ExecutionPlan>) -> (r: Result<
        Self,
        ChildCountError,
    >)
        ensures
            match r {
                Ok(x) => children@.len() == 1 && x@ == children@[0]@.annotated(
                    self@.readiness()->0,
                ),
                Err(e) => children@.len() != 1 && e == (ChildCountError {
                    children: children@.len() as usize,
                }),
            },
    {
        let mut children = children;
        if children.len() != 1 {
            return Err(ChildCountError { children: children.len() });
        }
        Ok(ReadinessAnnotatedExec::new(children.remove(0), self.readiness))
    }

    /// The annotation as it displays itself.
    pub fn display(&self) -> (r: &'static str)
        ensures
            r@ == (match self@.readiness()->0 {
                RewriteReadiness::Ready => "ReadinessAnnotatedExec: readiness=Ready"@,
                RewriteReadiness::NotReady => "ReadinessAnnotatedExec: readiness=NotReady"@,
                RewriteReadiness::Unknown => "ReadinessAnnotatedExec: readiness=Unknown"@,
            }),
    {
        match self.readiness {
            RewriteReadiness::Ready => "ReadinessAnnotatedExec: readiness=Ready",
            RewriteReadiness::NotReady => "ReadinessAnnotatedExec: readiness=NotReady",
            RewriteReadiness::Unknown => "ReadinessAnnotatedExec: readiness=Unknown",
        }
    }
}

/// Depth-first search for the nearest annotation in a physical plan. Returns
/// its readiness, or `None` if the plan has none.
pub fn readiness_from_plan(plan: &ExecutionPlan) -> (r: Option<RewriteReadiness>)
    ensures
        r == plan@.readiness(),
    decreases plan,
{
    match plan {
        ExecutionPlan::Annotated(annotated) => Some(annotated.readiness),
        ExecutionPlan::Operator { children, .. } => {
            let ghost all = all_readiness(execution_plans_view(children@));
            for i in 0..children.len()
                invariant
                    decreases_to!(plan => children),
                    all == all_readiness(execution_plans_view(children@)),
                    first_some(all.take(i as int)) is None,
                    plan@.readiness() == first_some(all),
            {
                assert(all.take(i + 1).drop_last() =~= all.take(i as int));
                assert(all[i as int] == children@[i as int]@.readiness());
                let found = readiness_from_plan(&children[i]);
                if found.is_some() {
                    proof {
                        lemma_first_some_prefix(all, i + 1);
                    }
                    return found;
                }
            }
            assert(all.take(all.len() as int) =~= all);
            None
        },
    }
}

/// Removes every annotation from a physical plan, each collapsed to the plan
/// that it wraps.
pub fn strip_readiness_annotation(plan: ExecutionPlan) -> (r: ExecutionPlan)
    ensures
        r@ == plan@.stripped(),
    decreases plan,
{
    match plan {
        ExecutionPlan::Annotated(annotated) => {
            let annotated = *annotated;
            strip_readiness_annotation(annotated.inner)
        },
        ExecutionPlan::Operator { id, properties, children } => {
            let children = strip_all(children);
            ExecutionPlan::Operator { id, properties, children }
        },
    }
}

fn strip_all(plans: Vec<ExecutionPlan>) -> (r: Vec<ExecutionPlan>)
    ensures
        execution_plans_view(r@) == all_stripped(execution_plans_view(plans@)),
    decreases plans,
{
    let ghost all = plans@;
    let mut rest = plans;
    let mut r: Vec<ExecutionPlan> = Vec::new();
    while rest.len() > 0
        invariant
            rest@.len() + r@.len() == all.len(),
            decreases_to!(plans => all),
            forall|i: int| 0 <= i < rest@.len() ==> rest@[i] == all[r@.len() + i],
            forall|i: int| 0 <= i < r@.len() ==> (#[trigger] r@[i])@ == all[i]@.stripped(),
        decreases rest@.len(),
    {
        let first = rest.remove(0);
        assert(first == all[r@.len() as int]);
        let stripped = strip_readiness_annotation(first);
        r.push(stripped);
    }
    assert(execution_plans_view(r@) =~= all_stripped(execution_plans_view(all)));
    r
}

// ---------------------------------------------------------------------------
// Refreshing and dropping candidates
// ---------------------------------------------------------------------------

impl CandidateView {
    /// The candidate is a view that should not be used.
    pub open spec fn not_ready(self) -> bool {
        self matches CandidateView::Materialized { readiness, .. } && readiness
            == RewriteReadiness::NotReady
    }
}

/// The places of the candidates that may be used, in order.
pub open spec fn kept(candidates: Seq<CandidateView>) -> Seq<int>
    decreases candidates.len(),
{
    if candidates.len() == 0 {
        Seq::empty()
    } else if candidates.last().not_ready() {
        kept(candidates.drop_last())
    } else {
        kept(candidates.drop_last()).push(candidates.len() - 1)
    }
}

/// The items of a list at some places.
pub open spec fn at<T>(s: Seq<T>, places: Seq<int>) -> Seq<T> {
    Seq::new(places.len(), |i: int| s[places[i]])
}

/// Drops every candidate whose readiness is `NotReady`, along with its entry in
/// the inputs. The base is never dropped.
///
/// Where the candidates are not aligned with the inputs, the inputs are passed
/// through unchanged and the candidates are dropped entirely: to keep them
/// would attribute readiness to the wrong branch.
pub fn drop_not_ready_after_refresh<T>(
    physical_inputs: Vec<T>,
    candidates: Vec<CandidateMetadata>,
) -> (r: (Vec<T>, Vec<CandidateMetadata>))
    ensures
        physical_inputs@.len() != candidates@.len() ==> r.0@ == physical_inputs@ && r.1@.len() == 0,
        physical_inputs@.len() == candidates@.len() ==> r.0@ == at(
            physical_inputs@,
            kept(candidates_view(candidates@)),
        ) && candidates_view(r.1@) == at(
            candidates_view(candidates@),
            kept(candidates_view(candidates@)),
        ),
{
    if candidates.len() != physical_inputs.len() {
        return (physical_inputs, Vec::new());
    }
    let ghost inputs = physical_inputs@;
    let ghost all = candidates_view(candidates@);
    let mut rest = physical_inputs;
    let mut kept_inputs: Vec<T> = Vec::new();
    let mut kept_candidates: Vec<CandidateMetadata> = Vec::new();
    assert(kept_inputs@ =~= at(inputs, kept(all.take(0))));
    assert(candidates_view(kept_candidates@) =~= at(all, kept(all.take(0))));
    for i in 0..candidates.len()
        invariant
            all == candidates_view(candidates@),
            inputs.len() == all.len(),
            rest@.len() == inputs.len() - i,
            forall|j: int| 0 <= j < rest@.len() ==> rest@[j] == inputs[i + j],
            kept_inputs@ == at(inputs, kept(all.take(i as int))),
            candidates_view(kept_candidates@) == at(all, kept(all.take(i as int))),
    {
        assert(all.take(i + 1).drop_last() =~= all.take(i as int));
        let input = rest.remove(0);
        assert(input == inputs[i as int]);
        let not_ready = match &candidates[i] {
            CandidateMetadata::Materialized { readiness, .. } => *readiness
                == RewriteReadiness::NotReady,
            CandidateMetadata::Base => false,
        };
        if !not_ready {
            let ghost before = kept_candidates@;
            kept_inputs.push(input);
            kept_candidates.push(candidates[i].clone());
            assert(kept_inputs@ =~= at(inputs, kept(all.take(i + 1))));
            assert(candidates_view(kept_candidates@) =~= candidates_view(before).push(
                all[i as int],
            ));
            assert(candidates_view(kept_candidates@) =~= at(all, kept(all.take(i + 1))));
        }
    }
    assert(all.take(all.len() as int) =~= all);
    (kept_inputs, kept_candidates)
}

/// What came of looking a view up in the catalog and asking for its readiness.
#[derive(Debug, Clone, Copy, PartialEq, Eq, Hash, Structural)]
pub enum TableLookup {
    NoCatalog,
    NoSchema,
    NoTable,
    /// The catalog failed to answer.
    LookupFailed,
    /// The table is not a materialized view.
    NotMaterialized,
    /// The table is a materialized view that breaks its own rules.
    InvalidView,
    /// The view reports its readiness.
    Reported(RewriteReadiness),
}

/// The readiness that a lookup tells; `None` where it tells none.
pub open spec fn told(lookup: TableLookup) -> Option<RewriteReadiness> {
    match lookup {
        TableLookup::Reported(readiness) => Some(readiness),
        _ => None,
    }
}

/// The readiness that a lookup tells, so that the caller can fall back to what
/// it knows.
pub fn resolve_current_readiness(lookup: TableLookup) -> (r: Option<RewriteReadiness>)
    ensures
        r == told(lookup),
{
    match lookup {
        TableLookup::Reported(readiness) => Some(readiness),
        _ => None,
    }
}

/// The readiness that the plan of one branch carries. Plans that are not
/// aligned with the candidates are not asked.
pub open spec fn carried(
    plans: Seq<ExecutionPlanView>,
    candidates: nat,
    i: int,
) -> Option<RewriteReadiness> {
    if plans.len() == candidates {
        plans[i].readiness()
    } else {
        None
    }
}

/// A candidate after the refresh: what its plan carries goes before what the
/// lookup tells, and that before what was known.
pub open spec fn refreshed(
    candidate: CandidateView,
    carried: Option<RewriteReadiness>,
    lookup: TableLookup,
) -> CandidateView {
    match candidate {
        CandidateView::Base => CandidateView::Base,
        CandidateView::Materialized { table_ref, readiness } => CandidateView::Materialized {
            table_ref,
            readiness: match carried {
                Some(r) => r,
                None => match told(lookup) {
                    Some(r) => r,
                    None => readiness,
                },
            },
        },
    }
}

/// Whether a candidate's readiness has to be looked up: it is a view whose plan
/// carries none.
pub fn needs_lookup(
    candidates: &Vec<CandidateMetadata>,
    physical_inputs: &Vec<ExecutionPlan>,
    i: usize,
) -> (r: bool)
    requires
        i < candidates@.len(),
    ensures
        r == (candidates@[i as int]@ is Materialized && carried(
            execution_plans_view(physical_inputs@),
            candidates@.len(),
            i as int,
        ) is None),
{
    broadcast use lemma_execution_plans_view;

    match &candidates[i] {
        CandidateMetadata::Base => false,
        CandidateMetadata::Materialized { .. } => physical_inputs.len() != candidates.len()
            || readiness_from_plan(&physical_inputs[i]).is_none(),
    }
}

/// The candidates with their current readiness, given what came of looking each
/// of them up. The lookup of a candidate that needs none is not read.
pub fn refresh_candidate_readiness(
    candidates: &Vec<CandidateMetadata>,
    physical_inputs: &Vec<ExecutionPlan>,
    lookups: &Vec<TableLookup>,
) -> (r: Vec<CandidateMetadata>)
    requires
        lookups@.len() == candidates@.len(),
    ensures
        r@.len() == candidates@.len(),
        forall|i: int|
            0 <= i < r@.len() ==> (#[trigger] r@[i])@ == refreshed(
                candidates@[i]@,
                carried(execution_plans_view(physical_inputs@), candidates@.len(), i),
                lookups@[i],
            ),
        forall|i: int|
            0 <= i < r@.len() ==> (candidates@[i]@ is Base <==> (#[trigger] r@[i])@ is Base),
        forall|i: int|
            0 <= i < r@.len() && candidates@[i]@ is Materialized ==> {
                let plan = physical_inputs@[i]@;
                let asked = physical_inputs@.len() == candidates@.len();
                let readiness = (#[trigger] r@[i])@->readiness;
                &&& r@[i]@->table_ref == candidates@[i]@->table_ref
                &&& asked && plan.readiness() is Some ==> Some(readiness) == plan.readiness()
                &&& !asked || plan.readiness() is None ==> (lookups@[i] matches TableLookup::Reported(
                    current,
                ) ==> readiness == current)
                &&& !asked || plan.readiness() is None ==> (!(lookups@[i] is Reported) ==> readiness
                    == candidates@[i]@->readiness)
            },
{
    broadcast use lemma_execution_plans_view;

    let aligned = candidates.len() == physical_inputs.len();
    let mut r: Vec<CandidateMetadata> = Vec::new();
    for i in 0..candidates.len()
        invariant
            lookups@.len() == candidates@.len(),
            aligned == (candidates@.len() == physical_inputs@.len()),
            execution_plans_view(physical_inputs@).len() == physical_inputs@.len(),
            r@.len() == i,
            forall|j: int|
                0 <= j < i ==> (#[trigger] r@[j])@ == refreshed(
                    candidates@[j]@,
                    carried(execution_plans_view(physical_inputs@), candidates@.len(), j),
                    lookups@[j],
                ),
    {
        let candidate = match &candidates[i] {
            CandidateMetadata::Base => CandidateMetadata::Base,
            CandidateMetadata::Materialized { table_ref, readiness } => {
                let annotated = if aligned {
                    assert(execution_plans_view(physical_inputs@)[i as int]
                        == physical_inputs@[i as int]@);
                    readiness_from_plan(&physical_inputs[i])
                } else {
                    None
                };
                let readiness = match annotated {
                    Some(r) => r,
                    None => match resolve_current_readiness(lookups[i]) {
                        Some(r) => r,
                        None => *readiness,
                    },
                };
                CandidateMetadata::Materialized { table_ref: table_ref.clone(), readiness }
            },
        };
        r.push(candidate);
    }
    r
}

// ---------------------------------------------------------------------------
// Laws
// ---------------------------------------------------------------------------

/// No annotation remains in a plan whose annotations were removed.
pub proof fn strip_leaves_no_annotation(plan: ExecutionPlanView)
    ensures
        plan.stripped().readiness() is None,
    decreases plan,
{
    match plan {
        ExecutionPlanView::Annotated { inner, .. } => {
            strip_leaves_no_annotation(*inner);
        },
        ExecutionPlanView::Operator { children, .. } => {
            let s = all_stripped(children);
            let r = all_readiness(s);
            assert forall|i: int| 0 <= i < r.len() implies (#[trigger] r[i]) is None by {
                strip_leaves_no_annotation(children[i]);
                assert(s[i] == children[i].stripped());
            }
            lemma_first_some_none(r);
            assert(plan.stripped()->children == s);
        },
    }
}

/// Removing annotations changes nothing in a plan that has none.
pub proof fn strip_is_noop_without_annotation(plan: ExecutionPlanView)
    requires
        plan.readiness() is None,
    ensures
        plan.stripped() == plan,
    decreases plan,
{
    if let ExecutionPlanView::Operator { children, .. } = plan {
        let r = all_readiness(children);
        lemma_first_some_none(r);
        assert forall|i: int| 0 <= i < children.len() implies all_stripped(children)[i]
            == #[trigger] children[i] by {
            assert(r[i] is None);
            strip_is_noop_without_annotation(children[i]);
        }
        assert(all_stripped(children) =~= children);
    }
}

/// Removing annotations twice is removing them once.
pub proof fn strip_is_idempotent(plan: ExecutionPlanView)
    ensures
        plan.stripped().stripped() == plan.stripped(),
{
    strip_leaves_no_annotation(plan);
    strip_is_noop_without_annotation(plan.stripped());
}

/// An annotation is transparent: it has the properties of the plan that it
/// wraps, its readiness can be read off, and removing it gives that plan.
pub proof fn annotation_is_transparent(plan: ExecutionPlanView, readiness: RewriteReadiness)
    ensures
        plan.annotated(readiness).properties() == plan.properties(),
        plan.annotated(readiness).readiness() == Some(readiness),
        plan.annotated(readiness).stripped() == plan.stripped(),
        plan.readiness() is None ==> plan.annotated(readiness).stripped() == plan,
{
    if plan.readiness() is None {
        strip_is_noop_without_annotation(plan);
    }
}

/// The places that are kept are those of the candidates that may be used, in
/// order, and no others.
pub proof fn kept_places(candidates: Seq<CandidateView>)
    ensures
        forall|i: int|
            0 <= i < kept(candidates).len() ==> 0 <= #[trigger] kept(candidates)[i]
                < candidates.len() && !candidates[kept(candidates)[i]].not_ready(),
        forall|i: int, j: int|
            0 <= i < j < kept(candidates).len() ==> kept(candidates)[i] < kept(candidates)[j],
        forall|k: int|
            0 <= k < candidates.len() && !(#[trigger] candidates[k]).not_ready() ==> kept(
                candidates,
            ).contains(k),
    decreases candidates.len(),
{
    if candidates.len() > 0 {
        let front = candidates.drop_last();
        kept_places(front);
        let k = kept(candidates);
        assert forall|i: int| 0 <= i < k.len() implies 0 <= #[trigger] k[i] < candidates.len()
            && !candidates[k[i]].not_ready() by {
            if i < kept(front).len() {
                assert(kept(front)[i] == k[i]);
                assert(front[k[i]] == candidates[k[i]]);
            }
        }
        assert forall|i: int, j: int| 0 <= i < j < k.len() implies k[i] < k[j] by {
            assert(kept(front)[i] == k[i]);
            if j < kept(front).len() {
                assert(kept(front)[j] == k[j]);
            }
        }
        assert forall|n: int|
            0 <= n < candidates.len() && !(#[trigger] candidates[n]).not_ready() implies k.contains(
            n,
        ) by {
            if n < front.len() {
                assert(front[n] == candidates[n]);
                let i = choose|i: int| 0 <= i < kept(front).len() && kept(front)[i] == n;
                assert(k[i] == n);
            } else {
                assert(k[k.len() - 1] == n);
            }
        }
    }
}

/// A view that is not ready never reaches the cost function, and the base and
/// every other view do.
pub proof fn not_ready_is_dropped(candidates: Seq<CandidateView>)
    ensures
        forall|i: int|
            0 <= i < at(candidates, kept(candidates)).len() ==> !(#[trigger] at(
                candidates,
                kept(candidates),
            )[i]).not_ready(),
        forall|k: int|
            0 <= k < candidates.len() && !(#[trigger] candidates[k]).not_ready() ==> at(
                candidates,
                kept(candidates),
            ).contains(candidates[k]),
{
    kept_places(candidates);
    let r = at(candidates, kept(candidates));
    assert forall|i: int| 0 <= i < r.len() implies !(#[trigger] r[i]).not_ready() by {
        assert(r[i] == candidates[kept(candidates)[i]]);
    }
    assert forall|k: int|
        0 <= k < candidates.len() && !(#[trigger] candidates[k]).not_ready() implies r.contains(
        candidates[k],
    ) by {
        let i = choose|i: int| 0 <= i < kept(candidates).len() && kept(candidates)[i] == k;
        assert(r[i] == candidates[k]);
    }
}

/// Dropping candidates twice is dropping them once.
pub proof fn drop_is_idempotent(candidates: Seq<CandidateView>)
    ensures
        ({
            let r = at(candidates, kept(candidates));
            at(r, kept(r)) == r
        }),
{
    let r = at(candidates, kept(candidates));
    not_ready_is_dropped(candidates);
    lemma_all_kept(r);
    assert(at(r, kept(r)) =~= r);
}

proof fn lemma_all_kept(candidates: Seq<CandidateView>)
    requires
        forall|i: int| 0 <= i < candidates.len() ==> !(#[trigger] candidates[i]).not_ready(),
    ensures
        kept(candidates).len() == candidates.len(),
        forall|i: int| 0 <= i < candidates.len() ==> #[trigger] kept(candidates)[i] == i,
    decreases candidates.len(),
{
    if candidates.len() > 0 {
        let front = candidates.drop_last();
        assert forall|i: int| 0 <= i < front.len() implies !(#[trigger] front[i]).not_ready() by {
            assert(front[i] == candidates[i]);
        }
        lemma_all_kept(front);
        assert(candidates[candidates.len() - 1] == candidates.last());
        assert forall|i: int| 0 <= i < candidates.len() implies #[trigger] kept(candidates)[i]
            == i by {
            if i < front.len() {
                assert(kept(front)[i] == i);
            }
        }
    }
}

/// A refresh keeps the base and the name of every view. What the plan carries is
/// taken as it is; a failed lookup never changes what was known.
pub proof fn refresh_keeps_identity(
    candidate: CandidateView,
    carried: Option<RewriteReadiness>,
    lookup: TableLookup,
)
    ensures
        candidate is Base <==> refreshed(candidate, carried, lookup) is Base,
        candidate is Materialized ==> refreshed(candidate, carried, lookup)->table_ref
            == candidate->table_ref,
        candidate is Materialized && carried is Some ==> refreshed(
            candidate,
            carried,
            lookup,
        )->readiness == carried->0,
        carried is None && told(lookup) is None ==> refreshed(candidate, carried, lookup)
            == candidate,
{
}

/// A refresh tells of a view what is known now. What its plan carries, where the
/// plans are aligned with the candidates, goes before all else; where it carries
/// nothing, what the provider reports replaces what was known before, whatever
/// that was; and where the provider reports nothing, what was known stays.
pub proof fn refresh_tells_what_is_known_now(
    plans: Seq<ExecutionPlanView>,
    candidates: Seq<CandidateView>,
    i: int,
    lookup: TableLookup,
)
    requires
        0 <= i < candidates.len(),
        candidates[i] is Materialized,
    ensures
        ({
            let after = refreshed(candidates[i], carried(plans, candidates.len(), i), lookup);
            let aligned = plans.len() == candidates.len();
            &&& after is Materialized
            &&& after->table_ref == candidates[i]->table_ref
            &&& aligned && plans[i].readiness() is Some ==> Some(after->readiness)
                == plans[i].readiness()
            &&& !aligned || plans[i].readiness() is None ==> match lookup {
                TableLookup::Reported(current) => after->readiness == current,
                _ => after->readiness == candidates[i]->readiness,
            }
        }),
{
}

/// A view whose provider reports that it is not ready is dropped once it was
/// refreshed, and one that is reported as ready, or as not known, is kept,
/// whatever was known of either, where the plans carry no readiness of it.
pub proof fn reported_readiness_decides(
    candidate: CandidateView,
    current: RewriteReadiness,
)
    requires
        candidate is Materialized,
    ensures
        refreshed(candidate, None, TableLookup::Reported(current)).not_ready() <==> current
            == RewriteReadiness::NotReady,
        refreshed(candidate, Some(current), TableLookup::NoTable).not_ready() <==> current
            == RewriteReadiness::NotReady,
        !CandidateView::Base.not_ready(),
{
}

/// The nearest annotation decides: that on top of a plan, else the first that one
/// of the inputs carries, from the first input to the last. A plan carries none
/// where it is not annotated and none of its inputs carries one.
pub proof fn nearest_annotation_decides(plan: ExecutionPlanView)
    ensures
        plan matches ExecutionPlanView::Annotated { readiness, .. } ==> plan.readiness() == Some(
            readiness,
        ),
        plan matches ExecutionPlanView::Operator { children, .. } ==> {
            &&& forall|i: int|
                0 <= i < children.len() && (#[trigger] children[i]).readiness() is Some && (forall|
                    j: int,
                |
                    0 <= j < i ==> (#[trigger] children[j]).readiness() is None) ==> plan.readiness()
                    == children[i].readiness()
            &&& plan.readiness() is None <==> forall|i: int|
                0 <= i < children.len() ==> (#[trigger] children[i]).readiness() is None
        },
{
    if let ExecutionPlanView::Operator { children, .. } = plan {
        let r = all_readiness(children);
        lemma_first_some_none(r);
        assert(forall|i: int|
            0 <= i < children.len() ==> #[trigger] r[i] == children[i].readiness());
        if forall|i: int| 0 <= i < children.len() ==> (#[trigger] children[i]).readiness() is None {
            assert forall|i: int| 0 <= i < r.len() implies (#[trigger] r[i]) is None by {
                assert(children[i].readiness() is None);
            }
        }
        if plan.readiness() is None {
            assert forall|i: int| 0 <= i < children.len() implies (
            #[trigger] children[i]).readiness() is None by {
                assert(r[i] is None);
            }
        }
        assert forall|i: int|
            0 <= i < children.len() && (#[trigger] children[i]).readiness() is Some && (forall|
                j: int,
            |
                0 <= j < i ==> (#[trigger] children[j]).readiness() is None) implies plan.readiness()
            == children[i].readiness() by {
            let front = r.take(i);
            assert forall|j: int| 0 <= j < front.len() implies (#[trigger] front[j]) is None by {
                assert(children[j].readiness() is None);
            }
            lemma_first_some_none(front);
            assert(r.take(i + 1).drop_last() =~= front);
            assert(r.take(i + 1).last() == r[i]);
            lemma_first_some_prefix(r, i + 1);
        }
    }
}

/// An annotation anywhere in a plan is removed, and nothing else: a plan with one
/// more annotation over it, or over one of its inputs, is the same plan once the
/// annotations are removed.
pub proof fn strip_removes_annotations_alone(
    plan: ExecutionPlanView,
    readiness: RewriteReadiness,
    i: int,
)
    ensures
        plan.annotated(readiness).stripped() == plan.stripped(),
        plan matches ExecutionPlanView::Operator { id, properties, children } ==> {
            &&& plan.stripped() matches ExecutionPlanView::Operator {
                id: same_id,
                properties: same_properties,
                children: stripped,
            } && same_id == id && same_properties == properties && stripped.len() == children.len()
                && forall|k: int|
                0 <= k < children.len() ==> #[trigger] stripped[k] == children[k].stripped()
            &&& 0 <= i < children.len() ==> (ExecutionPlanView::Operator {
                id,
                properties,
                children: children.update(i, children[i].annotated(readiness)),
            }).stripped() == plan.stripped()
        },
{
    if let ExecutionPlanView::Operator { id, properties, children } = plan {
        if 0 <= i < children.len() {
            let changed = children.update(i, children[i].annotated(readiness));
            assert(children[i].annotated(readiness).stripped() == children[i].stripped());
            assert(all_stripped(changed) =~= all_stripped(children));
        }
    }
}

/// What is kept of a list is what stands at the places that are kept, in their
/// order: of inputs that are aligned with the candidates, each stays beside its
/// candidate, and all of them where no view is to be dropped.
pub proof fn inputs_stay_with_their_candidates<T>(inputs: Seq<T>, candidates: Seq<CandidateView>)
    requires
        inputs.len() == candidates.len(),
    ensures
        ({
            let places = kept(candidates);
            let a = at(inputs, places);
            let b = at(candidates, places);
            &&& a.len() == b.len() == places.len()
            &&& forall|k: int|
                0 <= k < places.len() ==> 0 <= #[trigger] places[k] < inputs.len() && a[k]
                    == inputs[places[k]] && b[k] == candidates[places[k]]
            &&& (forall|k: int| 0 <= k < candidates.len() ==> !(#[trigger] candidates[k]).not_ready())
                ==> a == inputs && b == candidates
        }),
{
    kept_places(candidates);
    if forall|k: int| 0 <= k < candidates.len() ==> !(#[trigger] candidates[k]).not_ready() {
        lemma_all_kept(candidates);
        assert(at(inputs, kept(candidates)) =~= inputs);
        assert(at(candidates, kept(candidates)) =~= candidates);
    }
}

} // verus!
