use datafusion_materialized_views::names::TableReference;
use datafusion_materialized_views::rewrite::readiness::{
    drop_not_ready_after_refresh, needs_lookup, readiness_from_plan, refresh_candidate_readiness,
    resolve_current_readiness, strip_readiness_annotation, CandidateMetadata, ChildCountError,
    ExecutionPlan, ReadinessAnnotatedExec, RewriteReadiness, TableLookup,
};

/// A plan without inputs.
fn empty() -> ExecutionPlan {
    ExecutionPlan::Operator { id: 1, properties: 11, children: vec![] }
}

/// A plan that changes the partitioning of another.
fn repartition(input: ExecutionPlan) -> ExecutionPlan {
    ExecutionPlan::Operator { id: 2, properties: 12, children: vec![input] }
}

fn annotated(plan: ExecutionPlan, readiness: RewriteReadiness) -> ExecutionPlan {
    ExecutionPlan::Annotated(Box::new(ReadinessAnnotatedExec::new(plan, readiness)))
}

fn view(name: &str, readiness: RewriteReadiness) -> CandidateMetadata {
    CandidateMetadata::Materialized {
        table_ref: TableReference::Bare { table: name.to_string() },
        readiness,
    }
}

#[test]
fn readiness_variants_are_distinct_and_comparable() {
    assert_ne!(RewriteReadiness::Ready, RewriteReadiness::NotReady);
    assert_ne!(RewriteReadiness::Ready, RewriteReadiness::Unknown);
    assert_ne!(RewriteReadiness::NotReady, RewriteReadiness::Unknown);
    assert_eq!(RewriteReadiness::Ready, RewriteReadiness::Ready);
}

#[test]
fn readiness_is_copy_and_hashable() {
    fn requires_copy<T: Copy>() {}
    fn requires_hash<T: std::hash::Hash>() {}
    requires_copy::<RewriteReadiness>();
    requires_hash::<RewriteReadiness>();
}

#[test]
fn readiness_annotated_exec_delegates_properties_and_children() {
    let inner = empty();
    let annotated = ReadinessAnnotatedExec::new(empty(), RewriteReadiness::Ready);

    assert_eq!(annotated.readiness(), RewriteReadiness::Ready);
    // Same properties as inner: the wrapper is transparent.
    assert_eq!(annotated.properties(), inner.properties());
    // Inner exposed as the sole child.
    let children = annotated.children();
    assert_eq!(children.len(), 1);
    assert_eq!(children[0], &inner);
    assert_eq!(annotated.inner(), &inner);
}

#[test]
fn strip_returns_inner_for_bare_annotated_exec() {
    let stripped = strip_readiness_annotation(annotated(empty(), RewriteReadiness::Ready));
    assert!(
        !matches!(stripped, ExecutionPlan::Annotated(_)),
        "top-level wrapper must be gone after strip"
    );
    assert_eq!(stripped, empty());
}

#[test]
fn strip_replaces_annotated_exec_inside_nested_plan() {
    let wrapped = repartition(annotated(empty(), RewriteReadiness::Ready));
    let stripped = strip_readiness_annotation(wrapped);
    assert!(
        readiness_from_plan(&stripped).is_none(),
        "no annotation should remain anywhere in the tree"
    );
    assert_eq!(stripped, repartition(empty()));
}

#[test]
fn strip_is_noop_when_no_annotation_present() {
    let stripped = strip_readiness_annotation(empty());
    assert_eq!(stripped, empty());
    assert_eq!(strip_readiness_annotation(repartition(empty())), repartition(empty()));
}

#[test]
fn strip_removes_annotations_over_annotations() {
    let plan = annotated(
        repartition(annotated(empty(), RewriteReadiness::NotReady)),
        RewriteReadiness::Ready,
    );
    let once = strip_readiness_annotation(plan);
    assert_eq!(once, repartition(empty()));
    assert_eq!(strip_readiness_annotation(once), repartition(empty()));
}

#[test]
fn nearest_annotation_is_found_first() {
    assert_eq!(readiness_from_plan(&empty()), None);
    let both = ExecutionPlan::Operator {
        id: 3,
        properties: 13,
        children: vec![
            repartition(empty()),
            repartition(annotated(empty(), RewriteReadiness::Unknown)),
            annotated(empty(), RewriteReadiness::Ready),
        ],
    };
    assert_eq!(readiness_from_plan(&both), Some(RewriteReadiness::Unknown));
    let nested = annotated(
        annotated(empty(), RewriteReadiness::Ready),
        RewriteReadiness::NotReady,
    );
    assert_eq!(readiness_from_plan(&nested), Some(RewriteReadiness::NotReady));
}

#[test]
fn annotation_has_exactly_one_child() {
    let make = || ReadinessAnnotatedExec::new(empty(), RewriteReadiness::Unknown);
    assert_eq!(make().with_new_children(vec![]), Err(ChildCountError { children: 0 }));
    assert_eq!(
        make().with_new_children(vec![empty(), empty()]),
        Err(ChildCountError { children: 2 })
    );
    let over = make().with_new_children(vec![repartition(empty())]).unwrap();
    assert_eq!(over.readiness(), RewriteReadiness::Unknown);
    assert_eq!(over.inner(), &repartition(empty()));
    assert_eq!(over.properties(), 12);
}

#[test]
fn annotation_displays_its_readiness() {
    let shown = |r| ReadinessAnnotatedExec::new(empty(), r).display();
    assert_eq!(shown(RewriteReadiness::Ready), "ReadinessAnnotatedExec: readiness=Ready");
    assert_eq!(shown(RewriteReadiness::NotReady), "ReadinessAnnotatedExec: readiness=NotReady");
    assert_eq!(shown(RewriteReadiness::Unknown), "ReadinessAnnotatedExec: readiness=Unknown");
    let name = ReadinessAnnotatedExec::new(empty(), RewriteReadiness::Ready).name();
    assert_eq!(name, "ReadinessAnnotatedExec");
}

#[test]
fn not_ready_candidates_are_dropped_with_their_inputs() {
    let (inputs, candidates) = drop_not_ready_after_refresh(
        vec!["base", "a", "b", "c"],
        vec![
            CandidateMetadata::Base,
            view("a", RewriteReadiness::NotReady),
            view("b", RewriteReadiness::Unknown),
            view("c", RewriteReadiness::Ready),
        ],
    );
    assert_eq!(inputs, vec!["base", "b", "c"]);
    assert_eq!(
        candidates,
        vec![
            CandidateMetadata::Base,
            view("b", RewriteReadiness::Unknown),
            view("c", RewriteReadiness::Ready),
        ]
    );
}

#[test]
fn misaligned_candidates_are_dropped_entirely() {
    let (inputs, candidates) = drop_not_ready_after_refresh(
        vec!["base", "a"],
        vec![view("a", RewriteReadiness::NotReady)],
    );
    assert_eq!(inputs, vec!["base", "a"]);
    assert!(candidates.is_empty());
}

#[test]
fn refresh_prefers_the_annotation_and_keeps_what_is_known() {
    let candidates = vec![
        CandidateMetadata::Base,
        view("annotated", RewriteReadiness::Unknown),
        view("reported", RewriteReadiness::Unknown),
        view("lost", RewriteReadiness::Ready),
    ];
    let inputs = vec![
        empty(),
        repartition(annotated(empty(), RewriteReadiness::NotReady)),
        empty(),
        empty(),
    ];
    let needed: Vec<bool> = (0..4).map(|i| needs_lookup(&candidates, &inputs, i)).collect();
    assert_eq!(needed, vec![false, false, true, true]);
    let lookups = vec![
        TableLookup::NoTable,
        TableLookup::Reported(RewriteReadiness::Ready),
        TableLookup::Reported(RewriteReadiness::Ready),
        TableLookup::LookupFailed,
    ];
    assert_eq!(
        refresh_candidate_readiness(&candidates, &inputs, &lookups),
        vec![
            CandidateMetadata::Base,
            view("annotated", RewriteReadiness::NotReady),
            view("reported", RewriteReadiness::Ready),
            view("lost", RewriteReadiness::Ready),
        ]
    );
    // Inputs that are not aligned are not asked.
    let refreshed = refresh_candidate_readiness(&candidates, &vec![empty()], &lookups);
    assert_eq!(refreshed[1], view("annotated", RewriteReadiness::Ready));
    assert!(needs_lookup(&candidates, &vec![empty()], 1));
}

#[test]
fn only_a_report_tells_readiness() {
    for lookup in [
        TableLookup::NoCatalog,
        TableLookup::NoSchema,
        TableLookup::NoTable,
        TableLookup::LookupFailed,
        TableLookup::NotMaterialized,
        TableLookup::InvalidView,
    ] {
        assert_eq!(resolve_current_readiness(lookup), None);
    }
    assert_eq!(
        resolve_current_readiness(TableLookup::Reported(RewriteReadiness::NotReady)),
        Some(RewriteReadiness::NotReady)
    );
}
