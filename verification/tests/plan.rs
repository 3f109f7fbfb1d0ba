use datafusion_materialized_views::error::Error;
use datafusion_materialized_views::expr::Expr;
use datafusion_materialized_views::names::{Column, TableReference};
use datafusion_materialized_views::plan::{
    flatten_exprs, get_output_exprs, get_table_scan_columns, JoinType, LogicalPlan, PlanNode,
};
use datafusion_materialized_views::scalar::DataType;
use datafusion_materialized_views::schema::{normalize_column, DFSchema, Field, SourceField};
use datafusion_materialized_views::text::{order_text, Order};

fn bare(table: &str) -> TableReference {
    TableReference::Bare { table: table.to_string() }
}

fn column(table: Option<&str>, name: &str) -> Column {
    Column { relation: table.map(bare), name: name.to_string() }
}

fn col(table: &str, name: &str) -> Expr {
    Expr::Column(column(Some(table), name))
}

fn schema(fields: &[(Option<&str>, &str)]) -> DFSchema {
    DFSchema {
        fields: fields
            .iter()
            .map(|(table, name)| Field {
                qualifier: table.map(bare),
                name: name.to_string(),
                data_type: DataType::Int64,
            })
            .collect(),
    }
}

fn source(names: &[&str]) -> Vec<SourceField> {
    names
        .iter()
        .map(|name| SourceField { name: name.to_string(), data_type: DataType::Int64 })
        .collect()
}

fn plan(node: PlanNode, inputs: Vec<LogicalPlan>, schema: DFSchema) -> LogicalPlan {
    LogicalPlan { node, inputs, schema, using_columns: vec![], display: "shown".to_string() }
}

fn scan(table: &str, names: &[&str]) -> LogicalPlan {
    let fields: Vec<(Option<&str>, &str)> = names.iter().map(|n| (Some(table), *n)).collect();
    plan(
        PlanNode::TableScan {
            table_name: bare(table),
            source: source(names),
            projection: None,
            filters: vec![],
        },
        vec![],
        schema(&fields),
    )
}

fn outputs(plan: &LogicalPlan) -> Vec<Expr> {
    get_output_exprs(plan).unwrap().unwrap()
}

#[test]
fn scans_output_their_projection() {
    let t = bare("t");
    let fields = source(&["a", "b"]);
    assert_eq!(
        get_table_scan_columns(&t, &fields, &Some(vec![1, 0, 1])),
        Ok(vec![column(Some("t"), "b"), column(Some("t"), "a"), column(Some("t"), "b")])
    );
    assert_eq!(
        get_table_scan_columns(&t, &fields, &Some(vec![0, 2])),
        Err(Error::ProjectionOutOfBounds { index: 2, fields: 2 })
    );
    assert_eq!(outputs(&scan("t", &["a", "b"])), vec![col("t", "a"), col("t", "b")]);
}

#[test]
fn nodes_that_keep_their_input_output_it() {
    let one = [(Some("t"), "a")];
    for node in [PlanNode::Sort, PlanNode::Limit, PlanNode::Distinct { select_expr: None }] {
        assert_eq!(outputs(&plan(node, vec![scan("t", &["a"])], schema(&one))), vec![col("t", "a")]);
    }
    let alias = PlanNode::SubqueryAlias { alias: bare("x") };
    let aliased = plan(alias, vec![scan("t", &["a"])], schema(&[(Some("x"), "a")]));
    assert_eq!(outputs(&aliased), vec![col("t", "a")]);
    let over = plan(
        PlanNode::Projection { expr: vec![col("x", "a")] },
        vec![aliased],
        schema(&[(Some("x"), "a")]),
    );
    assert_eq!(outputs(&over), vec![col("t", "a")]);
    assert!(get_output_exprs(&plan(PlanNode::Sort, vec![], schema(&[]))).is_none());
}

#[test]
fn aggregates_and_windows_output_their_expressions() {
    let sum = |e: Expr| Expr::Other { id: 1, children: vec![e] };
    let aggregate = plan(
        PlanNode::Aggregate {
            group_expr: vec![col("t", "a")],
            aggr_expr: vec![sum(Expr::Column(column(None, "b")))],
        },
        vec![scan("t", &["a", "b"])],
        schema(&[(Some("t"), "a"), (None, "sum")]),
    );
    assert_eq!(outputs(&aggregate), vec![col("t", "a"), sum(col("t", "b"))]);
    let window = plan(
        PlanNode::Window { window_expr: vec![sum(col("t", "b"))] },
        vec![scan("t", &["a", "b"])],
        schema(&[(Some("t"), "a"), (Some("t"), "b"), (None, "w")]),
    );
    assert_eq!(outputs(&window), vec![col("t", "a"), col("t", "b"), sum(col("t", "b"))]);
}

#[test]
fn joins_output_both_sides() {
    let mut join = plan(
        PlanNode::Join { join_type: JoinType::Inner },
        vec![scan("l", &["id", "x"]), scan("r", &["id", "y"])],
        schema(&[(Some("l"), "id"), (Some("l"), "x"), (Some("r"), "id"), (Some("r"), "y")]),
    );
    assert_eq!(
        outputs(&join),
        vec![col("l", "id"), col("l", "x"), col("r", "id"), col("r", "y")]
    );
    let id = || vec![Expr::Column(column(None, "id"))];
    let over = |join: LogicalPlan| {
        plan(PlanNode::Projection { expr: id() }, vec![join], schema(&[(None, "id")]))
    };
    assert_eq!(
        flatten_exprs(id(), &join),
        Some(Err(Error::AmbiguousReference(column(None, "id"))))
    );
    join.using_columns = vec![vec![column(Some("l"), "id"), column(Some("r"), "id")]];
    assert_eq!(flatten_exprs(id(), &join), Some(Ok(vec![col("l", "id")])));
    assert_eq!(outputs(&over(join)), vec![col("l", "id")]);
}

#[test]
fn unnested_columns_are_those_of_the_schema() {
    let unnest = plan(PlanNode::Unnest, vec![scan("t", &["a"])], schema(&[(Some("t"), "a")]));
    assert_eq!(outputs(&unnest), vec![col("t", "a")]);
}

#[test]
fn other_nodes_have_no_known_output() {
    assert_eq!(
        get_output_exprs(&plan(PlanNode::Other, vec![], schema(&[]))),
        Some(Err(Error::OutputNotSupported("shown".to_string())))
    );
}

#[test]
fn joins_output_the_sides_that_they_keep() {
    let join = |join_type: JoinType, fields: &[(Option<&str>, &str)]| {
        plan(
            PlanNode::Join { join_type },
            vec![scan("l", &["x"]), scan("r", &["y"])],
            schema(fields),
        )
    };
    let (left, right) = ((Some("l"), "x"), (Some("r"), "y"));
    for join_type in [JoinType::Inner, JoinType::Left, JoinType::Right, JoinType::Full] {
        assert_eq!(outputs(&join(join_type, &[left, right])), vec![col("l", "x"), col("r", "y")]);
    }
    for join_type in [JoinType::LeftSemi, JoinType::LeftAnti] {
        assert_eq!(outputs(&join(join_type, &[left])), vec![col("l", "x")]);
    }
    for join_type in [JoinType::RightSemi, JoinType::RightAnti] {
        assert_eq!(outputs(&join(join_type, &[right])), vec![col("r", "y")]);
    }
    // The mark of a mark join is not a column of either side.
    assert_eq!(
        get_output_exprs(&join(JoinType::LeftMark, &[left, (None, "mark")])),
        Some(Err(Error::OutputNotSupported("shown".to_string())))
    );
}

#[test]
fn distinct_on_outputs_its_expressions() {
    let distinct = plan(
        PlanNode::Distinct { select_expr: Some(vec![col("t", "b")]) },
        vec![scan("t", &["a", "b"])],
        schema(&[(Some("t"), "b")]),
    );
    assert_eq!(outputs(&distinct), vec![col("t", "b")]);
    let all = plan(
        PlanNode::Distinct { select_expr: None },
        vec![scan("t", &["a", "b"])],
        schema(&[(Some("t"), "a"), (Some("t"), "b")]),
    );
    assert_eq!(outputs(&all), vec![col("t", "a"), col("t", "b")]);
}

#[test]
fn a_node_without_an_output_for_each_field_fails() {
    let mut input = scan("t", &["a"]);
    input.schema = schema(&[(Some("t"), "a"), (Some("t"), "b")]);
    let shown = || Some(Err(Error::OutputNotSupported("shown".to_string())));
    assert_eq!(get_output_exprs(&input), shown());
    let over = plan(
        PlanNode::Projection { expr: vec![col("t", "b")] },
        vec![input],
        schema(&[(Some("t"), "b")]),
    );
    assert_eq!(get_output_exprs(&over), shown());
}

#[test]
fn columns_are_looked_up_in_schemas() {
    let s = schema(&[(Some("t"), "a"), (None, "b"), (Some("u"), "b")]);
    assert_eq!(s.maybe_index_of_column(&column(Some("t"), "a")), Some(0));
    assert_eq!(s.maybe_index_of_column(&column(None, "b")), Some(1));
    assert_eq!(s.maybe_index_of_column(&column(Some("u"), "b")), Some(2));
    assert_eq!(s.maybe_index_of_column(&column(Some("t"), "b")), None);
    let full = Column {
        relation: Some(TableReference::Full {
            catalog: "c".to_string(),
            schema: "s".to_string(),
            table: "t".to_string(),
        }),
        name: "a".to_string(),
    };
    assert_eq!(s.maybe_index_of_column(&full), Some(0));
    assert_eq!(s.data_type(&column(None, "b")), Ok(DataType::Int64));
    assert_eq!(s.data_type(&column(None, "z")), Err(Error::FieldNotFound(column(None, "z"))));
    let two = schema(&[(Some("t"), "a"), (Some("u"), "a")]);
    assert_eq!(
        two.data_type(&column(None, "a")),
        Err(Error::AmbiguousReference(column(None, "a")))
    );
    let schemas = vec![&s];
    assert_eq!(
        normalize_column(&column(None, "a"), &schemas, &vec![]),
        Ok(column(Some("t"), "a"))
    );
    assert_eq!(
        normalize_column(&column(None, "z"), &schemas, &vec![]),
        Err(Error::FieldNotFound(column(None, "z")))
    );
    assert_eq!(
        normalize_column(&column(None, "b"), &schemas, &vec![]),
        Err(Error::AmbiguousReference(column(None, "b")))
    );
    let joined = vec![vec![column(Some("u"), "b"), column(None, "b")]];
    assert_eq!(normalize_column(&column(None, "b"), &schemas, &joined), Ok(column(None, "b")));
    assert_eq!(
        normalize_column(&column(Some("x"), "b"), &schemas, &vec![]),
        Ok(column(Some("x"), "b"))
    );
    assert_eq!(
        s.data_type(&column(Some("x"), "b")),
        Err(Error::FieldNotFound(column(Some("x"), "b")))
    );
}

#[test]
fn columns_are_looked_up_in_schemas_with_repeated_names() {
    let mut s = schema(&[(Some("t"), "a"), (Some("t"), "a"), (None, "b"), (None, "b")]);
    s.fields[1].data_type = DataType::Utf8;
    assert_eq!(s.maybe_index_of_column(&column(Some("t"), "a")), Some(0));
    assert_eq!(s.data_type(&column(Some("t"), "a")), Ok(DataType::Int64));
    assert_eq!(
        s.data_type(&column(None, "b")),
        Err(Error::AmbiguousReference(column(None, "b")))
    );
}

#[test]
fn the_fields_of_a_table_have_different_names() {
    let field = |name: &str| SourceField { name: name.to_string(), data_type: DataType::Int64 };
    let table = TableReference::Partial { schema: "s".to_string(), table: "t".to_string() };
    let s = match DFSchema::try_from_qualified_schema(&table, &vec![field("a"), field("b")]) {
        Ok(s) => s,
        Err(_) => panic!("the names differ"),
    };
    assert_eq!(s.fields.len(), 2);
    assert_eq!(s.fields[1].name, "b");
    assert!(matches!(&s.fields[1].qualifier, Some(q) if q.same(&table)));
    let repeated = vec![field("a"), field("b"), field("b"), field("a")];
    assert_eq!(
        DFSchema::try_from_qualified_schema(&table, &repeated),
        Err(Error::DuplicateField(Column { relation: Some(table), name: "b".to_string() }))
    );
}

#[test]
fn references_are_resolved_against_defaults() {
    let full = bare("t").resolve("c", "s");
    assert_eq!((full.catalog.as_str(), full.schema.as_str(), full.table.as_str()), ("c", "s", "t"));
    let partial = TableReference::Partial { schema: "p".to_string(), table: "t".to_string() };
    let full = partial.resolve("c", "s");
    assert_eq!((full.catalog.as_str(), full.schema.as_str()), ("c", "p"));
    assert!(!partial.same(&bare("t")));
}

#[test]
fn texts_are_ordered_by_their_bytes() {
    assert!(matches!(order_text("a", "b"), Order::Less));
    assert!(matches!(order_text("ab", "a"), Order::Greater));
    assert!(matches!(order_text("\u{e9}", "\u{e9}"), Order::Equal));
    assert!(matches!(order_text("z", "\u{e9}"), Order::Less));
    let first = column(None, "z");
    assert!(matches!(first.order(&column(Some("a"), "a")), Order::Less));
}
