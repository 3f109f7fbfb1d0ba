use datafusion_materialized_views::error::Error;
use datafusion_materialized_views::expr::{Expr, Operator};
use datafusion_materialized_views::names::{Column, TableReference};
use datafusion_materialized_views::plan::{JoinType, LogicalPlan, PlanNode};
use datafusion_materialized_views::rewrite::normal_form::{Rewrite, SpjNormalForm};
use datafusion_materialized_views::scalar::{DataType, ScalarValue, TimeUnit};
use datafusion_materialized_views::schema::{DFSchema, Field, SourceField};

fn bare(table: &str) -> TableReference {
    TableReference::Bare { table: table.to_string() }
}

fn column(table: &str, name: &str) -> Column {
    Column { relation: Some(bare(table)), name: name.to_string() }
}

fn col(table: &str, name: &str) -> Expr {
    Expr::Column(column(table, name))
}

/// A column of the output of a view.
fn out(name: &str) -> Expr {
    Expr::Column(Column { relation: None, name: name.to_string() })
}

fn lit(v: ScalarValue) -> Expr {
    Expr::Literal(v, None)
}

fn number(v: i64) -> Expr {
    lit(ScalarValue::Int64(Some(v)))
}

fn text(v: &str) -> Expr {
    lit(ScalarValue::Utf8(Some(v.to_string())))
}

fn binary(left: Expr, op: Operator, right: Expr) -> Expr {
    Expr::BinaryExpr { left: Box::new(left), op, right: Box::new(right) }
}

fn and(left: Expr, right: Expr) -> Expr {
    binary(left, Operator::And, right)
}

fn eq(left: Expr, right: Expr) -> Expr {
    binary(left, Operator::Eq, right)
}

fn named(expr: Expr, name: &str) -> Expr {
    Expr::Alias { expr: Box::new(expr), relation: None, name: name.to_string(), metadata: None }
}

fn qualified(expr: Expr, table: &str, name: &str) -> Expr {
    Expr::Alias {
        expr: Box::new(expr),
        relation: Some(bare(table)),
        name: name.to_string(),
        metadata: None,
    }
}

fn other(id: u64, children: Vec<Expr>) -> Expr {
    Expr::Other { id, children }
}

fn source(fields: &[(&str, DataType)]) -> Vec<SourceField> {
    fields
        .iter()
        .map(|(name, data_type)| SourceField {
            name: name.to_string(),
            data_type: data_type.clone(),
        })
        .collect()
}

fn schema(table: Option<&str>, fields: &[(&str, DataType)]) -> DFSchema {
    DFSchema {
        fields: fields
            .iter()
            .map(|(name, data_type)| Field {
                qualifier: table.map(bare),
                name: name.to_string(),
                data_type: data_type.clone(),
            })
            .collect(),
    }
}

fn plan(node: PlanNode, inputs: Vec<LogicalPlan>, schema: DFSchema) -> LogicalPlan {
    LogicalPlan { node, inputs, schema, using_columns: vec![], display: "node".to_string() }
}

fn t1_fields() -> Vec<(&'static str, DataType)> {
    vec![
        ("column1", DataType::Utf8),
        ("column2", DataType::Int64),
        ("column3", DataType::Utf8),
    ]
}

fn scan(
    table: &str,
    fields: &[(&'static str, DataType)],
    projection: Option<Vec<usize>>,
    filters: Vec<Expr>,
) -> LogicalPlan {
    let output: Vec<(&str, DataType)> = match &projection {
        Some(p) => p.iter().map(|i| fields[*i].clone()).collect(),
        None => fields.to_vec(),
    };
    plan(
        PlanNode::TableScan {
            table_name: bare(table),
            source: source(fields),
            projection,
            filters,
        },
        vec![],
        schema(Some(table), &output),
    )
}

fn t1(projection: Option<Vec<usize>>, filters: Vec<Expr>) -> LogicalPlan {
    scan("t1", &t1_fields(), projection, filters)
}

fn filter(predicate: Expr, input: LogicalPlan) -> LogicalPlan {
    let schema = input.schema.clone();
    plan(PlanNode::Filter { predicate }, vec![input], schema)
}

fn project(expr: Vec<Expr>, schema: DFSchema, input: LogicalPlan) -> LogicalPlan {
    plan(PlanNode::Projection { expr }, vec![input], schema)
}

fn form(plan: &LogicalPlan) -> SpjNormalForm {
    assert!(SpjNormalForm::hangs_together(plan));
    SpjNormalForm::new(plan).unwrap()
}

fn rewrite(base: &LogicalPlan, query: &LogicalPlan) -> Option<Rewrite> {
    form(query).rewrite_from(&form(base)).unwrap()
}

fn answered(base: &LogicalPlan, query: &LogicalPlan) -> Rewrite {
    rewrite(base, query).unwrap()
}

const CONCAT: u64 = 1;
const LIKE_ABC: u64 = 2;

fn example_fields() -> Vec<(&'static str, DataType)> {
    let double = || DataType::Other("Float64".to_string());
    vec![
        ("l_orderkey", DataType::Int32),
        ("l_partkey", DataType::Int32),
        ("l_shipdate", DataType::Date32),
        ("l_quantity", double()),
        ("l_extendedprice", double()),
        ("o_custkey", DataType::Int32),
        ("o_orderkey", DataType::Int32),
        ("o_orderdate", DataType::Date32),
        ("p_name", DataType::Utf8),
        ("p_partkey", DataType::Int32),
    ]
}

fn ex(name: &str) -> Expr {
    col("example", name)
}

fn i32_lit(v: i32) -> Expr {
    lit(ScalarValue::Int32(Some(v)))
}

#[test]
fn test_rewrite() {
    // simple selection
    let base = t1(Some(vec![0, 1, 2]), vec![]);
    let r = answered(&base, &t1(Some(vec![0, 1]), vec![]));
    assert_eq!(r.filter, None);
    assert_eq!(
        r.projection,
        vec![
            qualified(out("column1"), "t1", "column1"),
            qualified(out("column2"), "t1", "column2"),
        ]
    );

    // selection with equality predicate
    let query = project(
        vec![col("t1", "column1"), col("t1", "column2")],
        schema(Some("t1"), &t1_fields()[..2]),
        filter(
            eq(col("t1", "column1"), col("t1", "column3")),
            t1(Some(vec![0, 1, 2]), vec![]),
        ),
    );
    let r = answered(&base, &query);
    assert_eq!(
        r.filter,
        Some(and(
            eq(out("column1"), out("column3")),
            eq(out("column3"), out("column1")),
        ))
    );
    assert_eq!(
        r.projection,
        vec![
            qualified(out("column1"), "t1", "column1"),
            qualified(out("column2"), "t1", "column2"),
        ]
    );

    // selection with range filter
    let above = |v: i64| binary(col("t1", "column2"), Operator::Gt, number(v));
    let r = answered(
        &filter(above(3), t1(Some(vec![0, 1, 2]), vec![])),
        &project(
            vec![col("t1", "column1"), col("t1", "column2")],
            schema(Some("t1"), &t1_fields()[..2]),
            filter(above(4), t1(Some(vec![0, 1]), vec![])),
        ),
    );
    assert_eq!(r.filter, Some(binary(out("column2"), Operator::GtEq, number(5))));
    assert_eq!(
        r.projection,
        vec![
            qualified(out("column1"), "t1", "column1"),
            qualified(out("column2"), "t1", "column2"),
        ]
    );

    // nontrivial projection
    let concat = || other(CONCAT, vec![col("t1", "column1"), col("t1", "column2")]);
    let name = "concat(t1.column1,t1.column2)";
    let r = answered(
        &project(
            vec![concat(), col("t1", "column2")],
            DFSchema {
                fields: vec![
                    Field { qualifier: None, name: name.to_string(), data_type: DataType::Utf8 },
                    Field {
                        qualifier: Some(bare("t1")),
                        name: "column2".to_string(),
                        data_type: DataType::Int64,
                    },
                ],
            },
            t1(Some(vec![0, 1]), vec![]),
        ),
        &project(
            vec![concat()],
            schema(None, &[(name, DataType::Utf8)]),
            t1(Some(vec![0, 1]), vec![]),
        ),
    );
    assert_eq!(r.filter, None);
    assert_eq!(r.projection, vec![named(out(name), name)]);

    // range filter + equality predicate
    let at_least =
        |name: &str, v: &str| binary(col("t1", name), Operator::GtEq, text(v));
    let r = answered(
        &project(
            vec![col("t1", "column1"), col("t1", "column2")],
            schema(Some("t1"), &t1_fields()[..2]),
            filter(
                and(
                    eq(col("t1", "column1"), col("t1", "column3")),
                    at_least("column1", "2022"),
                ),
                t1(Some(vec![0, 1, 2]), vec![]),
            ),
        ),
        &project(
            vec![col("t1", "column2"), col("t1", "column3")],
            schema(Some("t1"), &t1_fields()[1..]),
            filter(
                and(
                    eq(col("t1", "column1"), col("t1", "column3")),
                    at_least("column3", "2023"),
                ),
                t1(Some(vec![0, 1, 2]), vec![]),
            ),
        ),
    );
    assert_eq!(r.filter, Some(binary(out("column1"), Operator::GtEq, text("2023"))));
    assert_eq!(
        r.projection,
        vec![
            qualified(out("column2"), "t1", "column2"),
            qualified(out("column1"), "t1", "column3"),
        ]
    );

    // range filter with inequality on non-discrete type
    let below = || binary(col("t1", "column1"), Operator::Lt, text("2022"));
    let r = answered(&base, &filter(below(), t1(Some(vec![0]), vec![])));
    assert_eq!(r.filter, Some(binary(out("column1"), Operator::Lt, text("2022"))));
    assert_eq!(r.projection, vec![qualified(out("column1"), "t1", "column1")]);

    // duplicate expressions
    let null = || lit(ScalarValue::Null);
    let r = answered(
        &base,
        &project(
            vec![
                col("t1", "column1"),
                named(null(), "column2"),
                named(null(), "column3"),
                named(col("t1", "column3"), "column4"),
            ],
            DFSchema {
                fields: vec![
                    Field {
                        qualifier: Some(bare("t1")),
                        name: "column1".to_string(),
                        data_type: DataType::Utf8,
                    },
                    Field {
                        qualifier: None,
                        name: "column2".to_string(),
                        data_type: DataType::Null,
                    },
                    Field {
                        qualifier: None,
                        name: "column3".to_string(),
                        data_type: DataType::Null,
                    },
                    Field {
                        qualifier: None,
                        name: "column4".to_string(),
                        data_type: DataType::Utf8,
                    },
                ],
            },
            t1(Some(vec![0, 2]), vec![]),
        ),
    );
    assert_eq!(r.filter, None);
    assert_eq!(
        r.projection,
        vec![
            qualified(out("column1"), "t1", "column1"),
            named(null(), "column2"),
            named(null(), "column3"),
            named(out("column3"), "column4"),
        ]
    );

    // example from paper
    let revenue = || binary(ex("l_quantity"), Operator::Multiply, ex("l_extendedprice"));
    let hundred = || lit(ScalarValue::Other("Float64".to_string(), Some(100)));
    let like = || other(LIKE_ABC, vec![ex("p_name")]);
    let fields = example_fields();
    let base_filter = [
        eq(ex("l_partkey"), ex("p_partkey")),
        binary(ex("p_partkey"), Operator::GtEq, i32_lit(150)),
        binary(ex("o_custkey"), Operator::GtEq, i32_lit(50)),
        binary(ex("o_custkey"), Operator::LtEq, i32_lit(500)),
        like(),
    ]
    .into_iter()
    .fold(eq(ex("l_orderkey"), ex("o_orderkey")), and);
    let query_filter = [
        eq(ex("l_partkey"), ex("p_partkey")),
        binary(ex("l_partkey"), Operator::GtEq, i32_lit(150)),
        binary(ex("l_partkey"), Operator::LtEq, i32_lit(160)),
        eq(ex("o_custkey"), i32_lit(123)),
        eq(ex("o_orderdate"), ex("l_shipdate")),
        like(),
        binary(revenue(), Operator::Gt, hundred()),
    ]
    .into_iter()
    .fold(eq(ex("l_orderkey"), ex("o_orderkey")), and);
    let double = || DataType::Other("Float64".to_string());
    let kept = [
        ("l_orderkey", DataType::Int32),
        ("o_custkey", DataType::Int32),
        ("l_partkey", DataType::Int32),
    ];
    let mut base_schema = schema(Some("example"), &kept);
    base_schema.fields.extend(
        schema(
            Some("example"),
            &[("l_shipdate", DataType::Date32), ("o_orderdate", DataType::Date32)],
        )
        .fields,
    );
    base_schema.fields.extend(schema(None, &[("gross_revenue", double())]).fields);
    let product = "example.l_quantity * example.l_extendedprice";
    let mut query_schema = schema(Some("example"), &kept);
    query_schema.fields.extend(schema(None, &[(product, double())]).fields);
    let r = answered(
        &project(
            vec![
                ex("l_orderkey"),
                ex("o_custkey"),
                ex("l_partkey"),
                ex("l_shipdate"),
                ex("o_orderdate"),
                named(revenue(), "gross_revenue"),
            ],
            base_schema,
            filter(base_filter, scan("example", &fields, None, vec![])),
        ),
        &project(
            vec![ex("l_orderkey"), ex("o_custkey"), ex("l_partkey"), revenue()],
            query_schema,
            filter(query_filter, scan("example", &fields, None, vec![])),
        ),
    );
    let expected = [
        eq(out("o_orderdate"), out("l_shipdate")),
        binary(out("l_partkey"), Operator::GtEq, i32_lit(150)),
        binary(out("l_partkey"), Operator::LtEq, i32_lit(160)),
        eq(out("o_custkey"), i32_lit(123)),
        binary(out("gross_revenue"), Operator::Gt, hundred()),
    ]
    .into_iter()
    .fold(eq(out("l_shipdate"), out("o_orderdate")), and);
    assert_eq!(r.filter, Some(expected));
    assert_eq!(
        r.projection,
        vec![
            qualified(out("l_orderkey"), "example", "l_orderkey"),
            qualified(out("o_custkey"), "example", "o_custkey"),
            qualified(out("l_partkey"), "example", "l_partkey"),
            named(out("gross_revenue"), product),
        ]
    );

    // naked table scan with pushed down filters
    let at_most = || binary(col("t1", "column2"), Operator::LtEq, number(3));
    let r = answered(
        &t1(Some(vec![0]), vec![at_most()]),
        &t1(Some(vec![]), vec![at_most()]),
    );
    assert_eq!(r.filter, None);
    assert!(r.projection.is_empty());
}

#[test]
fn normal_form_has_outputs_schema_and_tables() {
    let plan = project(
        vec![col("t1", "column3")],
        schema(Some("t1"), &t1_fields()[2..]),
        filter(
            eq(col("t1", "column3"), col("t1", "column1")),
            t1(Some(vec![0, 2]), vec![]),
        ),
    );
    let form = form(&plan);
    assert_eq!(form.output_exprs(), &vec![col("t1", "column1")]);
    assert_eq!(form.output_schema(), &plan.schema);
    assert_eq!(form.referenced_tables(), &vec![bare("t1")]);
}

#[test]
fn rewrite_needs_the_columns_of_the_query() {
    let base = t1(Some(vec![0]), vec![]);
    assert_eq!(rewrite(&base, &t1(Some(vec![1]), vec![])), None);
    // A filter needs a column that the view does not output.
    let query = t1(Some(vec![0]), vec![eq(col("t1", "column2"), number(1))]);
    assert_eq!(rewrite(&base, &query), None);
}

#[test]
fn rewrite_needs_the_rows_of_the_query() {
    let above = |v: i64| vec![binary(col("t1", "column2"), Operator::Gt, number(v))];
    assert_eq!(rewrite(&t1(None, above(4)), &t1(None, above(3))), None);
    assert!(rewrite(&t1(None, above(4)), &t1(None, above(4))).is_some());
    let equal = vec![eq(col("t1", "column1"), col("t1", "column3"))];
    assert_eq!(rewrite(&t1(None, equal), &t1(None, vec![])), None);
    let residual = vec![other(LIKE_ABC, vec![col("t1", "column1")])];
    assert_eq!(rewrite(&t1(None, residual), &t1(None, vec![])), None);
}

#[test]
fn rewrite_of_another_table_is_none() {
    let base = scan("t2", &t1_fields(), None, vec![]);
    assert_eq!(rewrite(&base, &t1(None, vec![])), None);
}

#[test]
fn empty_range_filters_every_row() {
    let filters = vec![
        binary(col("t1", "column2"), Operator::Gt, number(5)),
        binary(col("t1", "column2"), Operator::Lt, number(3)),
    ];
    let r = answered(&t1(None, vec![]), &t1(None, filters));
    assert_eq!(r.filter, Some(lit(ScalarValue::Boolean(Some(false)))));
}

#[test]
fn views_of_more_columns_answer_queries_for_no_row() {
    let named_t = |name: &str| col("t", name);
    let of = |fields: &[(&'static str, DataType)], filters: Vec<Expr>| {
        form(&scan("t", fields, Some(vec![0]), filters))
    };
    let narrow = [("a", DataType::Int64)];
    let wide = [("a", DataType::Int64), ("b", DataType::Int64)];
    let bounded = vec![binary(named_t("b"), Operator::Gt, number(1))];
    let view = of(&wide, bounded);
    let never = vec![
        binary(named_t("a"), Operator::Gt, number(5)),
        binary(named_t("a"), Operator::Lt, number(3)),
    ];
    let r = of(&narrow, never).rewrite_from(&view).unwrap().unwrap();
    assert_eq!(r.filter, Some(lit(ScalarValue::Boolean(Some(false)))));
    assert_eq!(r.projection, vec![qualified(out("a"), "t", "a")]);
    // The view lacks rows of a query that has some.
    assert_eq!(of(&narrow, vec![]).rewrite_from(&view), Ok(None));
}

#[test]
fn filters_of_a_table_may_leave_its_name_out() {
    let above = |column: Expr| vec![binary(column, Operator::Gt, number(4))];
    let bare_form = form(&t1(None, above(out("column2"))));
    let full_form = form(&t1(None, above(col("t1", "column2"))));
    let expected = || Rewrite {
        filter: None,
        projection: ["column1", "column2", "column3"]
            .into_iter()
            .map(|name| qualified(out(name), "t1", name))
            .collect(),
    };
    assert_eq!(bare_form.rewrite_from(&full_form), Ok(Some(expected())));
    assert_eq!(full_form.rewrite_from(&bare_form), Ok(Some(expected())));
    let r = answered(&t1(None, vec![]), &t1(None, above(out("column2"))));
    assert_eq!(r.filter, Some(binary(out("column2"), Operator::GtEq, number(5))));
    // A filter on a column that is not of the table is not supported.
    let unknown = t1(None, above(out("column9")));
    assert!(SpjNormalForm::hangs_together(&unknown));
    let missing = Column { relation: None, name: "column9".to_string() };
    assert_eq!(SpjNormalForm::new(&unknown).err(), Some(Error::FieldNotFound(missing)));
    let foreign = t1(None, above(col("t2", "column2")));
    assert!(SpjNormalForm::hangs_together(&foreign));
    assert_eq!(
        SpjNormalForm::new(&foreign).err(),
        Some(Error::UnsupportedPlan("node".to_string()))
    );
}

#[test]
fn a_view_with_other_range_types_fails() {
    let fields = vec![("a", DataType::Int64), ("b", DataType::Int64)];
    let narrow = vec![("a", DataType::Int32), ("b", DataType::Int64)];
    let query = form(&scan("t", &fields, None, vec![]));
    let view = form(&scan("t", &narrow, None, vec![]));
    assert_eq!(query.rewrite_from(&view), Err(Error::IntervalTypes));
}

#[test]
fn unsupported_plans_fail() {
    let join = plan(
        PlanNode::Join { join_type: JoinType::Inner },
        vec![t1(None, vec![]), t1(None, vec![])],
        schema(None, &[]),
    );
    assert_eq!(SpjNormalForm::checked_new(&join).unwrap().unwrap_err(), Error::JoinNotSupported);
    let sort = plan(PlanNode::Sort, vec![t1(None, vec![])], schema(None, &[]));
    assert_eq!(
        SpjNormalForm::checked_new(&sort).unwrap().unwrap_err(),
        Error::UnsupportedPlan("node".to_string())
    );
    let twice = vec![("a", DataType::Int64), ("a", DataType::Int64)];
    assert_eq!(
        SpjNormalForm::checked_new(&scan("t", &twice, None, vec![])).unwrap().unwrap_err(),
        Error::DuplicateField(column("t", "a"))
    );
    let mut out_of_bounds = t1(None, vec![]);
    if let PlanNode::TableScan { projection, .. } = &mut out_of_bounds.node {
        *projection = Some(vec![1, 3, 7]);
    }
    assert_eq!(
        SpjNormalForm::checked_new(&out_of_bounds).unwrap().unwrap_err(),
        Error::ProjectionOutOfBounds { index: 3, fields: 3 }
    );
}

#[test]
fn columns_that_are_not_there_do_not_hang_together() {
    let bad = project(
        vec![col("t1", "nothing")],
        schema(None, &[("nothing", DataType::Utf8)]),
        t1(None, vec![]),
    );
    assert!(!SpjNormalForm::hangs_together(&bad));
    assert!(SpjNormalForm::checked_new(&bad).is_none());
    let bare_name = project(
        vec![out("nothing")],
        schema(None, &[("nothing", DataType::Utf8)]),
        t1(None, vec![]),
    );
    assert_eq!(
        SpjNormalForm::checked_new(&bare_name).unwrap().unwrap_err(),
        Error::FieldNotFound(Column { relation: None, name: "nothing".to_string() })
    );
    let no_input =
        plan(PlanNode::Filter { predicate: number(1) }, vec![], schema(None, &[]));
    assert!(SpjNormalForm::checked_new(&no_input).is_none());
}

#[test]
fn equalities_of_different_types_fail() {
    let fields = vec![("a", DataType::Int64), ("b", DataType::Utf8)];
    let query = scan("t", &fields, None, vec![eq(col("t", "a"), col("t", "b"))]);
    assert_eq!(
        SpjNormalForm::checked_new(&query).unwrap().unwrap_err(),
        Error::IntervalTypes
    );
}

#[test]
fn projections_are_looked_through() {
    let inner = project(
        vec![named(binary(col("t1", "column2"), Operator::Plus, number(1)), "x")],
        schema(None, &[("x", DataType::Int64)]),
        t1(None, vec![]),
    );
    let outer = project(
        vec![binary(out("x"), Operator::Multiply, number(2))],
        schema(None, &[("y", DataType::Int64)]),
        inner,
    );
    let plus = binary(col("t1", "column2"), Operator::Plus, number(1));
    assert_eq!(
        form(&outer).output_exprs(),
        &vec![binary(plus, Operator::Multiply, number(2))]
    );
}

#[test]
fn views_that_bound_an_equal_column_are_not_used() {
    let fields = vec![("a", DataType::Int64), ("b", DataType::Int64)];
    let at_least = |name: &str, v: i64| binary(col("t", name), Operator::GtEq, number(v));
    let at_most = |name: &str, v: i64| binary(col("t", name), Operator::LtEq, number(v));
    let base = scan(
        "t",
        &fields,
        None,
        vec![at_least("a", 5), at_most("a", 10), at_least("b", 20)],
    );
    let query = project(
        vec![col("t", "a")],
        schema(Some("t"), &fields[..1]),
        scan(
            "t",
            &fields,
            None,
            vec![eq(col("t", "a"), col("t", "b")), at_least("a", 5), at_most("a", 10)],
        ),
    );
    assert_eq!(form(&query).rewrite_from(&form(&base)), Ok(None));
    // Without the bound on the other column, its equality is what is left to test.
    let base = scan("t", &fields, None, vec![at_least("a", 5), at_most("a", 10)]);
    let r = answered(&base, &query);
    let equal = and(eq(out("a"), out("b")), eq(out("b"), out("a")));
    assert_eq!(r.filter, Some(equal));
}

#[test]
fn a_plan_answers_itself() {
    let plan = project(
        vec![col("t1", "column3"), col("t1", "column1"), col("t1", "column2")],
        schema(
            None,
            &[("x", DataType::Utf8), ("y", DataType::Utf8), ("z", DataType::Int64)],
        ),
        filter(
            and(
                eq(col("t1", "column1"), col("t1", "column3")),
                and(
                    binary(col("t1", "column2"), Operator::Gt, number(5)),
                    other(LIKE_ABC, vec![col("t1", "column3")]),
                ),
            ),
            t1(None, vec![]),
        ),
    );
    let r = answered(&plan, &plan);
    assert_eq!(r.filter, None);
    // Columns that are equal are read from the first output that has them.
    assert_eq!(
        r.projection,
        vec![named(out("x"), "x"), named(out("x"), "y"), named(out("z"), "z")]
    );
}

#[test]
fn equal_columns_have_one_normal_form() {
    let of = |name: &str, at: usize| {
        project(
            vec![col("t1", name)],
            schema(Some("t1"), &t1_fields()[at..at + 1]),
            filter(
                and(
                    binary(col("t1", "column2"), Operator::Gt, number(1)),
                    eq(col("t1", "column1"), col("t1", "column3")),
                ),
                t1(None, vec![]),
            ),
        )
    };
    let (first, second) = (form(&of("column1", 0)), form(&of("column3", 2)));
    assert_eq!(first.output_exprs(), second.output_exprs());
    assert_eq!(first.output_exprs().len(), 1);
    assert_ne!(first.output_schema(), second.output_schema());
}

#[test]
fn filters_speak_of_the_table_through_projections() {
    let renamed = project(
        vec![named(col("t1", "column2"), "x"), named(col("t1", "column1"), "column2")],
        schema(None, &[("x", DataType::Int64), ("column2", DataType::Utf8)]),
        t1(None, vec![]),
    );
    let query = filter(
        and(
            binary(out("x"), Operator::GtEq, number(5)),
            eq(out("column2"), text("abc")),
        ),
        renamed,
    );
    let r = answered(&t1(None, vec![]), &query);
    assert_eq!(
        r.filter,
        Some(and(
            eq(out("column1"), text("abc")),
            binary(out("column2"), Operator::GtEq, number(5)),
        ))
    );
    assert_eq!(
        r.projection,
        vec![named(out("column2"), "x"), named(out("column1"), "column2")]
    );
    // A name that the input does not have stands for nothing.
    let bad = filter(eq(out("column3"), text("abc")), query);
    assert_eq!(
        SpjNormalForm::checked_new(&bad).unwrap().unwrap_err(),
        Error::FieldNotFound(Column { relation: None, name: "column3".to_string() })
    );
}

#[test]
fn literals_on_the_left_are_swapped() {
    let base = t1(None, vec![]);
    let query = t1(None, vec![binary(number(5), Operator::LtEq, col("t1", "column2"))]);
    let r = answered(&base, &query);
    assert_eq!(r.filter, Some(binary(out("column2"), Operator::GtEq, number(5))));
}

#[test]
fn negations_are_turned_round() {
    let base = t1(None, vec![]);
    let below = binary(col("t1", "column2"), Operator::Lt, number(5));
    let query = t1(None, vec![Expr::Not(Box::new(below))]);
    let r = answered(&base, &query);
    assert_eq!(r.filter, Some(binary(out("column2"), Operator::GtEq, number(5))));
}

#[test]
fn time_zones_of_literals_tell_filters_apart() {
    let at = |zone: Option<&str>| {
        let ts = ScalarValue::TimestampNanosecond(Some(1), zone.map(str::to_string));
        other(9, vec![col("t1", "column1"), lit(ts)])
    };
    let utc = || t1(None, vec![at(Some("UTC"))]);
    assert_eq!(rewrite(&utc(), &t1(None, vec![at(None)])), None);
    assert_eq!(rewrite(&utc(), &t1(None, vec![at(Some("+01:00"))])), None);
    assert_eq!(answered(&utc(), &utc()).filter, None);
    // Both of two such filters are kept.
    let both = t1(None, vec![at(Some("UTC")), at(None)]);
    assert_eq!(rewrite(&both, &utc()), None);
    let outputs = vec![
        col("t1", "column1"),
        named(lit(ScalarValue::TimestampNanosecond(Some(1), None)), "at"),
    ];
    let fields = [
        ("column1", DataType::Utf8),
        ("at", DataType::Timestamp(TimeUnit::Nanosecond, None)),
    ];
    let view = project(outputs, schema(None, &fields), t1(None, vec![]));
    let zoned = lit(ScalarValue::TimestampNanosecond(Some(1), Some("UTC".to_string())));
    let fields = [(
        "at",
        DataType::Timestamp(TimeUnit::Nanosecond, Some("UTC".to_string())),
    )];
    let query = project(vec![named(zoned.clone(), "at")], schema(None, &fields), t1(None, vec![]));
    assert_eq!(answered(&view, &query).projection, vec![named(zoned, "at")]);
}

#[test]
fn columns_that_are_equal_over_others_have_one_normal_form() {
    let fields: Vec<(&str, DataType)> =
        ["a", "b", "c", "d"].into_iter().map(|name| (name, DataType::Int64)).collect();
    let differ = |x: &str, y: &str| {
        Expr::Not(Box::new(binary(col("t", x), Operator::NotEq, col("t", y))))
    };
    let of = |names: [&str; 2]| {
        project(
            names.into_iter().map(|name| col("t", name)).collect(),
            schema(None, &[("x", DataType::Int64), ("y", DataType::Int64)]),
            filter(
                and(eq(col("t", "c"), col("t", "b")), and(differ("b", "a"), differ("c", "d"))),
                scan("t", &fields, None, vec![]),
            ),
        )
    };
    let (first, second) = (form(&of(["a", "b"])), form(&of(["d", "b"])));
    assert_eq!(first.output_exprs(), second.output_exprs());
    assert_eq!(first.output_exprs(), &vec![col("t", "a"), col("t", "a")]);
}
