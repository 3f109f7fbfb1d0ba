use datafusion_materialized_views::error::Error;
use datafusion_materialized_views::expr::{Expr, Operator};
use datafusion_materialized_views::interval::{
    cast_to, satisfy_greater, Interval, DECIMAL_BYTES, FIRST_SECOND, FIXED_BYTES, LAST_SECOND,
};
use datafusion_materialized_views::names::{Column, TableReference};
use datafusion_materialized_views::plan::{LogicalPlan, PlanNode};
use datafusion_materialized_views::rewrite::predicate::Predicate;
use datafusion_materialized_views::scalar::{
    DataType, DayTime, Int256, KeyType, MonthDayNano, ScalarValue, TimeUnit,
};
use datafusion_materialized_views::schema::{DFSchema, SourceField};

fn column(name: &str) -> Column {
    Column {
        relation: Some(TableReference::Bare { table: "t".to_string() }),
        name: name.to_string(),
    }
}

fn fields() -> Vec<(&'static str, DataType)> {
    vec![
        ("a", DataType::Int32),
        ("b", DataType::Int32),
        ("c", DataType::Int32),
        ("u", DataType::UInt8),
        ("s", DataType::Utf8),
        ("f", DataType::Boolean),
        ("d", DataType::Other("Float64".to_string())),
    ]
}

fn predicate(filters: Vec<Expr>) -> Predicate {
    let source: Vec<SourceField> = fields()
        .into_iter()
        .map(|(name, data_type)| SourceField { name: name.to_string(), data_type })
        .collect();
    let plan = LogicalPlan {
        node: PlanNode::TableScan {
            table_name: TableReference::Bare { table: "t".to_string() },
            source,
            projection: None,
            filters,
        },
        inputs: vec![],
        schema: DFSchema { fields: vec![] },
        using_columns: vec![],
        display: String::new(),
    };
    Predicate::new(&plan).unwrap().unwrap()
}

fn compare(name: &str, op: Operator, value: ScalarValue) -> Expr {
    Expr::BinaryExpr {
        left: Box::new(Expr::Column(column(name))),
        op,
        right: Box::new(Expr::Literal(value, None)),
    }
}

fn same(a: &str, b: &str) -> Expr {
    Expr::BinaryExpr {
        left: Box::new(Expr::Column(column(a))),
        op: Operator::Eq,
        right: Box::new(Expr::Column(column(b))),
    }
}

fn i64v(v: i64) -> ScalarValue {
    ScalarValue::Int64(Some(v))
}

fn i32v(v: i32) -> ScalarValue {
    ScalarValue::Int32(Some(v))
}

fn range(lower: Option<i32>, upper: Option<i32>) -> Option<Interval> {
    Some(Interval { lower: ScalarValue::Int32(lower), upper: ScalarValue::Int32(upper) })
}

/// The range of a column.
fn range_of<'a>(p: &'a Predicate, name: &str) -> &'a Option<Interval> {
    &p.ranges_by_equivalence_class[p.class_for_column(&column(name)).unwrap()]
}

#[test]
fn literals_are_cast_to_the_type_of_the_column() {
    let p = predicate(vec![compare("a", Operator::GtEq, i64v(5))]);
    assert_eq!(range_of(&p, "a"), &range(Some(5), None));
    let p = predicate(vec![compare("a", Operator::Eq, ScalarValue::Utf8(Some("7".to_string())))]);
    assert_eq!(range_of(&p, "a"), &range(Some(7), Some(7)));
    // What cannot be cast stays as it is.
    let filter = || compare("a", Operator::Eq, ScalarValue::Utf8(Some("x".to_string())));
    let p = predicate(vec![filter()]);
    assert_eq!(range_of(&p, "a"), &range(None, None));
    assert_eq!(p.residuals, vec![filter()]);
    assert_eq!(
        cast_to(&ScalarValue::Utf8(Some("x".to_string())), &DataType::Int32),
        Err(Error::Cast)
    );
    assert_eq!(cast_to(&i64v(i64::MAX), &DataType::Int32), Err(Error::Cast));
    assert_eq!(cast_to(&i64v(3), &DataType::Int32), Ok(i32v(3)));
    let other = ScalarValue::Other("Float64".to_string(), Some(1));
    assert_eq!(cast_to(&other, &DataType::Int32), Err(Error::Cast));
    let seconds = ScalarValue::TimestampSecond(Some(2), Some("UTC".to_string()));
    let millis = DataType::Timestamp(TimeUnit::Millisecond, Some("UTC".to_string()));
    assert_eq!(
        cast_to(&seconds, &millis),
        Ok(ScalarValue::TimestampMillisecond(Some(2000), Some("UTC".to_string())))
    );
}

#[test]
fn every_known_type_survives_a_cast_to_itself() {
    let s = || Some("x".to_string());
    let values = vec![
        ScalarValue::Null,
        ScalarValue::Boolean(Some(true)),
        ScalarValue::Int8(Some(-1)),
        ScalarValue::Int16(Some(-2)),
        ScalarValue::Int32(Some(-3)),
        ScalarValue::Int64(Some(-4)),
        ScalarValue::UInt8(Some(1)),
        ScalarValue::UInt16(Some(2)),
        ScalarValue::UInt32(Some(3)),
        ScalarValue::UInt64(None),
        ScalarValue::Utf8(s()),
        ScalarValue::Utf8View(s()),
        ScalarValue::LargeUtf8(None),
        ScalarValue::Date32(Some(5)),
        ScalarValue::Date64(Some(6)),
        ScalarValue::Time32Second(Some(7)),
        ScalarValue::Time32Millisecond(Some(8)),
        ScalarValue::Time64Microsecond(Some(9)),
        ScalarValue::Time64Nanosecond(Some(10)),
        ScalarValue::DurationSecond(Some(11)),
        ScalarValue::DurationMillisecond(Some(12)),
        ScalarValue::DurationMicrosecond(Some(13)),
        ScalarValue::DurationNanosecond(Some(14)),
        ScalarValue::TimestampSecond(Some(15), None),
        ScalarValue::TimestampMillisecond(Some(16), Some("UTC".to_string())),
        ScalarValue::TimestampMicrosecond(Some(17), Some("+02:00".to_string())),
        ScalarValue::TimestampNanosecond(None, None),
        ScalarValue::Decimal32(Some(-12), 5, 2),
        ScalarValue::Decimal64(Some(12), 12, 2),
        ScalarValue::Decimal128(Some(123), 5, 2),
        ScalarValue::Decimal256(Some(Int256 { high: -3, low: 7 }), 76, 2),
        ScalarValue::Binary(Some(vec![1, 255])),
        ScalarValue::LargeBinary(Some(vec![])),
        ScalarValue::BinaryView(Some(vec![0; 20])),
        ScalarValue::FixedSizeBinary(2, Some(vec![3, 4])),
        ScalarValue::IntervalYearMonth(Some(14)),
        ScalarValue::IntervalDayTime(Some(DayTime { days: -1, milliseconds: 2 })),
        ScalarValue::IntervalMonthDayNano(Some(MonthDayNano {
            months: 1,
            days: -2,
            nanoseconds: 3,
        })),
        ScalarValue::Dictionary(KeyType::UInt16, Box::new(ScalarValue::Utf8(s()))),
        ScalarValue::Dictionary(KeyType::Int8, Box::new(ScalarValue::UInt8(None))),
    ];
    for v in values {
        assert_eq!(cast_to(&v, &v.data_type()), Ok(v.clone()));
        let all = Interval::make_unbounded(&v.data_type());
        let point = Interval::try_new(&v, &v).unwrap();
        assert_eq!(all.intersect(&point), Ok(Some(point.clone())));
        assert_eq!(all.contains(&point), Ok(true));
    }
}

#[test]
fn intervals_keep_their_form() {
    let all = Interval::make_unbounded(&DataType::Boolean);
    assert_eq!(all.lower, ScalarValue::Boolean(Some(false)));
    assert_eq!(all.upper, ScalarValue::Boolean(Some(true)));
    let all = Interval::make_unbounded(&DataType::UInt8);
    assert_eq!(all.lower, ScalarValue::UInt8(Some(0)));
    assert_eq!(all.upper, ScalarValue::UInt8(None));
    let other = Interval::make_unbounded(&DataType::Other("Float64".to_string()));
    assert_eq!(other.lower, ScalarValue::Other("Float64".to_string(), None));
    assert_eq!(Interval::try_new(&i32v(5), &i32v(3)), Err(Error::IntervalBounds));
    assert_eq!(Interval::try_new(&i32v(3), &i64v(5)), Err(Error::IntervalTypes));
}

#[test]
fn intervals_are_intersected() {
    let of = |lower, upper| {
        Interval::try_new(&ScalarValue::Int32(lower), &ScalarValue::Int32(upper)).unwrap()
    };
    let a = of(Some(1), Some(5));
    let b = of(Some(3), None);
    assert_eq!(a.intersect(&b), Ok(Some(of(Some(3), Some(5)))));
    assert_eq!(a.intersect(&of(Some(6), None)), Ok(None));
    assert_eq!(a.intersect(&Interval::make_unbounded(&DataType::Utf8)), Err(Error::IntervalTypes));
    assert_eq!(a.contains(&of(Some(2), Some(3))), Ok(true));
    assert_eq!(a.contains(&b), Ok(false));
    assert_eq!(a.contains(&of(Some(9), Some(9))), Ok(false));
    assert_eq!(a.contains(&Interval::make_unbounded(&DataType::Utf8)), Err(Error::IntervalTypes));
    let (left, right) = satisfy_greater(&of(None, None), &a).unwrap().unwrap();
    assert_eq!(left, of(Some(2), None));
    assert_eq!(right, a);
    assert_eq!(satisfy_greater(&a, &of(Some(5), None)), Ok(None));
    let text = Interval::make_unbounded(&DataType::Utf8);
    assert_eq!(satisfy_greater(&a, &text), Err(Error::IntervalTypes));
}

#[test]
fn ranges_are_narrowed() {
    let p = predicate(vec![
        compare("a", Operator::Gt, i64v(3)),
        compare("a", Operator::Lt, i64v(10)),
        compare("a", Operator::LtEq, i64v(8)),
    ]);
    assert_eq!(range_of(&p, "a"), &range(Some(4), Some(8)));
    assert!(p.residuals.is_empty());
}

#[test]
fn a_range_without_values_stays_so() {
    let p = predicate(vec![
        compare("a", Operator::Gt, i64v(5)),
        compare("a", Operator::Lt, i64v(3)),
    ]);
    assert_eq!(range_of(&p, "a"), &None);
    let p = predicate(vec![
        compare("a", Operator::Gt, i64v(5)),
        compare("a", Operator::Lt, i64v(3)),
        compare("a", Operator::Eq, i64v(1)),
    ]);
    assert_eq!(range_of(&p, "a"), &None);
    assert!(p.residuals.is_empty());
    let mut p = predicate(vec![]);
    assert_eq!(p.add_range(&column("a"), Operator::Gt, &i32v(5)), Ok(()));
    assert_eq!(p.add_range(&column("a"), Operator::Lt, &i32v(3)), Ok(()));
    assert_eq!(p.add_range(&column("a"), Operator::Eq, &i32v(10)), Ok(()));
    assert_eq!(range_of(&p, "a"), &None);
}

#[test]
fn nothing_is_below_the_least_unsigned_value() {
    let p = predicate(vec![compare("u", Operator::Lt, i64v(0))]);
    assert_eq!(range_of(&p, "u"), &None);
    // The least signed value has nothing below it either, nor the greatest above it.
    let p = predicate(vec![compare("a", Operator::Lt, i64v(i32::MIN as i64))]);
    assert_eq!(range_of(&p, "a"), &None);
    let p = predicate(vec![compare("a", Operator::Gt, i64v(i32::MAX as i64))]);
    assert_eq!(range_of(&p, "a"), &None);
    assert!(p.residuals.is_empty());
}

#[test]
fn nothing_compares_with_a_null() {
    for op in [Operator::Eq, Operator::Lt, Operator::LtEq, Operator::Gt, Operator::GtEq] {
        let p = predicate(vec![compare("a", op, ScalarValue::Int32(None))]);
        assert_eq!(range_of(&p, "a"), &None);
        assert!(p.residuals.is_empty());
    }
}

#[test]
fn comparisons_that_only_a_null_fails_stay_as_they_are() {
    let filter = || compare("u", Operator::GtEq, ScalarValue::UInt8(Some(0)));
    let p = predicate(vec![filter()]);
    assert_eq!(range_of(&p, "u"), &Some(Interval::make_unbounded(&DataType::UInt8)));
    assert_eq!(p.residuals, vec![filter()]);
    let filter = || compare("f", Operator::LtEq, ScalarValue::Boolean(Some(true)));
    let p = predicate(vec![filter()]);
    assert_eq!(p.residuals, vec![filter()]);
    let mut p = predicate(vec![]);
    assert_eq!(
        p.add_range(&column("u"), Operator::GtEq, &ScalarValue::UInt8(Some(0))),
        Err(Error::NoBound)
    );
    // A column that is equal to itself is not null.
    let p = predicate(vec![same("a", "a")]);
    assert_eq!(p.residuals, vec![same("a", "a")]);
    assert_eq!(p.eq_classes.len(), 7);
}

#[test]
fn ranges_are_compared_with_every_class_of_the_other() {
    let one = predicate(vec![
        same("a", "b"),
        compare("a", Operator::GtEq, i64v(5)),
        compare("a", Operator::LtEq, i64v(10)),
    ]);
    let bounds = |a: i64, b: i64| {
        predicate(vec![
            compare("a", Operator::GtEq, i64v(a)),
            compare("b", Operator::GtEq, i64v(b)),
        ])
    };
    assert_eq!(one.range_subsumption_test(&bounds(5, 20)), Ok(None));
    assert_eq!(one.range_subsumption_test(&bounds(20, 5)), Ok(None));
    assert_eq!(
        one.range_subsumption_test(&bounds(5, 4)),
        Ok(Some(vec![
            compare("a", Operator::GtEq, i32v(5)),
            compare("a", Operator::LtEq, i32v(10)),
        ]))
    );
}

#[test]
fn strict_bounds_need_a_next_value() {
    let mut p = predicate(vec![]);
    let s = ScalarValue::Utf8(Some("x".to_string()));
    assert_eq!(p.add_range(&column("s"), Operator::Lt, &s), Err(Error::StrictBound));
    assert_eq!(p.add_range(&column("s"), Operator::Gt, &s), Err(Error::StrictBound));
    assert_eq!(p.add_range(&column("s"), Operator::LtEq, &s), Ok(()));
    let t = ScalarValue::Boolean(Some(true));
    assert_eq!(p.add_range(&column("f"), Operator::Lt, &t), Err(Error::StrictBound));
    assert_eq!(
        p.add_range(&column("a"), Operator::NotEq, &i32v(1)),
        Err(Error::UnsupportedOperator)
    );
    assert_eq!(
        p.add_range(&column("x"), Operator::Eq, &i32v(1)),
        Err(Error::FieldNotFound(column("x")))
    );
    let bare = Column { relation: None, name: "a".to_string() };
    assert_eq!(
        p.add_range(&bare, Operator::Eq, &i32v(1)),
        Err(Error::NoEquivalenceClass(Column { relation: None, name: "a".to_string() }))
    );
}

#[test]
fn types_that_are_not_looked_into_keep_their_filters() {
    let filter = || {
        compare("d", Operator::GtEq, ScalarValue::Other("Float64".to_string(), Some(3)))
    };
    let p = predicate(vec![filter(), filter()]);
    assert_eq!(p.residuals, vec![filter()]);
    assert_eq!(
        range_of(&p, "d"),
        &Some(Interval::make_unbounded(&DataType::Other("Float64".to_string())))
    );
}

#[test]
fn equalities_merge_classes_and_ranges() {
    let p = predicate(vec![
        compare("a", Operator::GtEq, i64v(1)),
        compare("c", Operator::LtEq, i64v(9)),
        same("c", "b"),
        same("a", "b"),
    ]);
    let class = p.class_for_column(&column("c")).unwrap();
    assert_eq!(p.class_for_column(&column("a")), Some(class));
    assert_eq!(p.eq_classes[class].columns, vec![column("a"), column("b"), column("c")]);
    assert_eq!(range_of(&p, "b"), &range(Some(1), Some(9)));
    assert_eq!(p.eq_classes.len(), 5);
    assert_eq!(p.ranges_by_equivalence_class.len(), 5);
}

#[test]
fn equalities_take_in_new_columns() {
    let bare = |name: &str| Column { relation: None, name: name.to_string() };
    let p = predicate(vec![]).add_equivalence(&bare("x"), &column("a")).unwrap().unwrap();
    assert_eq!(p.eq_classes[0].columns, vec![bare("x"), column("a")]);
    let p = p.add_equivalence(&column("b"), &bare("y")).unwrap().unwrap();
    assert_eq!(p.eq_classes[1].columns, vec![bare("y"), column("b")]);
    // Neither column is in a class: the first one must be a field.
    let p = p.add_equivalence(&bare("a"), &bare("z")).unwrap().unwrap();
    assert_eq!(p.eq_classes[7].columns, vec![bare("a"), bare("z")]);
    assert!(p.add_equivalence(&bare("p"), &bare("q")).is_none());
}

#[test]
fn expressions_are_normalized() {
    let p = predicate(vec![same("c", "a")]);
    let e = Expr::Not(Box::new(Expr::Alias {
        expr: Box::new(Expr::Other {
            id: 1,
            children: vec![Expr::Column(column("c")), Expr::Column(column("b"))],
        }),
        relation: None,
        name: "n".to_string(),
        metadata: None,
    }));
    let n = p.normalize_expr(&e);
    let expected = Expr::Not(Box::new(Expr::Other {
        id: 1,
        children: vec![Expr::Column(column("a")), Expr::Column(column("b"))],
    }));
    assert_eq!(n, expected);
    assert_eq!(p.normalize_expr(&n), expected);
}

#[test]
fn conjunctions_are_split() {
    let and = |a: Expr, b: Expr| Expr::BinaryExpr {
        left: Box::new(a),
        op: Operator::And,
        right: Box::new(b),
    };
    let x = |id: u64| Expr::Other { id, children: vec![] };
    let named = Expr::Alias {
        expr: Box::new(and(x(2), x(3))),
        relation: None,
        name: "n".to_string(),
        metadata: None,
    };
    assert_eq!(and(and(x(1), named), x(4)).split_conjunction(), vec![x(1), x(2), x(3), x(4)]);
    let p = predicate(vec![and(x(1), and(x(1), x(2)))]);
    assert_eq!(p.residuals, vec![x(1), x(2)]);
}

#[test]
fn subsumption_is_tested_part_by_part() {
    let narrow = predicate(vec![
        same("a", "b"),
        compare("a", Operator::Eq, i64v(5)),
        Expr::Other { id: 1, children: vec![Expr::Column(column("b"))] },
    ]);
    let wide = predicate(vec![compare("a", Operator::GtEq, i64v(1))]);
    assert_eq!(narrow.equijoin_subsumption_test(&wide), Some(vec![same("a", "b"), same("b", "a")]));
    assert_eq!(
        narrow.range_subsumption_test(&wide),
        Ok(Some(vec![compare("a", Operator::Eq, i32v(5))]))
    );
    assert_eq!(
        narrow.residual_subsumption_test(&wide),
        Some(vec![Expr::Other { id: 1, children: vec![Expr::Column(column("a"))] }])
    );
    assert_eq!(wide.equijoin_subsumption_test(&narrow), None);
    assert_eq!(wide.range_subsumption_test(&narrow), Ok(None));
    assert_eq!(wide.residual_subsumption_test(&narrow), None);
}

#[test]
fn equalities_over_one_table_are_compared() {
    let all = predicate(vec![same("a", "b"), same("b", "c")]);
    let some = predicate(vec![same("b", "c")]);
    let other = predicate(vec![same("a", "c")]);
    // Each equality that is added joins columns which are not equal yet.
    assert_eq!(
        all.equijoin_subsumption_test(&some),
        Some(vec![same("a", "b"), same("a", "c"), same("b", "a")])
    );
    assert_eq!(some.equijoin_subsumption_test(&all), None);
    assert_eq!(some.equijoin_subsumption_test(&other), None);
    assert_eq!(all.equijoin_subsumption_test(&all), Some(vec![]));
}

#[test]
fn operators_are_negated_and_swapped() {
    assert_eq!(Operator::Lt.negate(), Some(Operator::GtEq));
    assert_eq!(Operator::LikeMatch.negate(), Some(Operator::NotLikeMatch));
    assert_eq!(Operator::Plus.negate(), None);
    assert_eq!(Operator::Lt.swap(), Some(Operator::Gt));
    assert_eq!(Operator::AtArrow.swap(), Some(Operator::ArrowAt));
    assert_eq!(Operator::Minus.swap(), None);
}

#[test]
fn cast_values_narrow_ranges() {
    let mut p = predicate(vec![]);
    assert_eq!(p.add_cast_range(&column("a"), Operator::Gt, &i32v(3)), Ok(()));
    assert_eq!(p.add_cast_range(&column("a"), Operator::LtEq, &i32v(9)), Ok(()));
    assert_eq!(range_of(&p, "a"), &range(Some(4), Some(9)));
    assert_eq!(
        p.add_cast_range(&column("a"), Operator::Plus, &i32v(1)),
        Err(Error::UnsupportedOperator)
    );
    assert_eq!(
        p.add_cast_range(&column("x"), Operator::Eq, &i32v(1)),
        Err(Error::NoEquivalenceClass(column("x")))
    );
    // A range of another type cannot be intersected, and is left as it was.
    assert_eq!(
        p.add_cast_range(&column("a"), Operator::Eq, &i64v(5)),
        Err(Error::IntervalTypes)
    );
    assert_eq!(range_of(&p, "a"), &range(Some(4), Some(9)));
}

#[test]
fn times_of_day_are_cast_where_they_stay_in_their_type() {
    let seconds = |v: i32| cast_to(&ScalarValue::Time32Second(Some(v)), &DataType::Time32Millisecond);
    assert_eq!(seconds(86_399), Ok(ScalarValue::Time32Millisecond(Some(86_399_000))));
    assert_eq!(seconds(2_147_483), Ok(ScalarValue::Time32Millisecond(Some(2_147_483_000))));
    assert_eq!(seconds(2_147_484), Err(Error::Cast));
    let micros =
        |v: i64| cast_to(&ScalarValue::Time64Microsecond(Some(v)), &DataType::Time64Nanosecond);
    assert_eq!(micros(5), Ok(ScalarValue::Time64Nanosecond(Some(5_000))));
    assert_eq!(micros(i64::MIN), Err(Error::Cast));
    // A value that keeps its unit keeps its type.
    let same = ScalarValue::Time32Second(Some(i32::MAX));
    assert_eq!(cast_to(&same, &DataType::Time32Second), Ok(same.clone()));
}

#[test]
fn values_of_a_type_are_cast_to_it_unchanged() {
    let coded = |v: ScalarValue| ScalarValue::Dictionary(KeyType::Int8, Box::new(v));
    let zone = || Some("Europe/Paris".to_string());
    let span = MonthDayNano { months: -1, days: 2, nanoseconds: i64::MIN };
    for value in [
        ScalarValue::Null,
        ScalarValue::Boolean(None),
        ScalarValue::Int8(Some(-128)),
        ScalarValue::UInt64(Some(u64::MAX)),
        ScalarValue::LargeUtf8(Some(String::new())),
        ScalarValue::Utf8View(Some("a text of more than twelve bytes".to_string())),
        ScalarValue::BinaryView(None),
        ScalarValue::FixedSizeBinary(3, Some(vec![1, 0, 255])),
        ScalarValue::FixedSizeBinary(3, None),
        ScalarValue::Date64(Some(i64::MAX)),
        ScalarValue::Time64Nanosecond(Some(-1)),
        ScalarValue::TimestampNanosecond(Some(i64::MIN), zone()),
        ScalarValue::TimestampSecond(None, zone()),
        ScalarValue::DurationMillisecond(Some(7)),
        ScalarValue::IntervalMonthDayNano(Some(span)),
        ScalarValue::Decimal32(Some(i32::MIN), 5, -20),
        ScalarValue::Decimal256(Some(Int256 { high: 1, low: 0 }), 5, 1),
        ScalarValue::Decimal128(None, 38, 0),
        coded(ScalarValue::Utf8(Some("x".to_string()))),
        coded(ScalarValue::Utf8(None)),
        coded(ScalarValue::Null),
        coded(coded(ScalarValue::TimestampMicrosecond(Some(1), zone()))),
        coded(coded(ScalarValue::Decimal64(None, 18, 3))),
    ] {
        assert_eq!(cast_to(&value, &value.data_type()), Ok(value));
    }
}

#[test]
fn times_are_brought_into_zones_within_the_calendar() {
    let first = FIRST_SECOND as i64;
    let last = LAST_SECOND as i64;
    let into = |v: i64, zone: &str| {
        let target = DataType::Timestamp(TimeUnit::Second, Some(zone.to_string()));
        cast_to(&ScalarValue::TimestampSecond(Some(v), None), &target)
    };
    let zoned = |v: i64, zone: &str| {
        Ok(ScalarValue::TimestampSecond(Some(v), Some(zone.to_string())))
    };
    assert_eq!(into(0, "+01:00"), zoned(-3_600, "+01:00"));
    let (early, late) = (first + 86_402, last - 86_402);
    assert_eq!(into(early, "+23:59"), zoned(early - 86_340, "+23:59"));
    assert_eq!(into(late, "-23:59"), zoned(late + 86_340, "-23:59"));
    for v in [first - 1, first, first + 3_599, last + 1, i64::MIN] {
        assert_eq!(into(v, "+01:00"), Err(Error::Cast));
    }
    assert_eq!(into(first + 3_600, "+01:00"), zoned(first, "+01:00"));
    assert_eq!(into(last, "+01:00"), zoned(last - 3_600, "+01:00"));
    assert_eq!(into(last, "-01:00"), Err(Error::Cast));
    assert_eq!(into(first, "-0100"), zoned(first + 3_600, "-0100"));
    // What is left over of a second is dropped before the zone is looked at.
    let coarse = |zone: &str| {
        let target = DataType::Timestamp(TimeUnit::Second, Some(zone.to_string()));
        cast_to(&ScalarValue::TimestampMillisecond(Some(first * 1_000 - 500), None), &target)
    };
    assert_eq!(coarse("+01"), Err(Error::Cast));
    assert_eq!(coarse("-01"), zoned(first + 3_600, "-01"));
    // The offset of a zone that is known by its name counts in the same way. At the
    // start of the calendar Paris is ahead by 561 seconds, at its end by an hour.
    assert_eq!(into(0, "Europe/Paris"), zoned(-3_600, "Europe/Paris"));
    assert_eq!(into(last - 86_401, "Europe/Paris"), zoned(last - 90_001, "Europe/Paris"));
    assert_eq!(into(last, "Europe/Paris"), zoned(last - 3_600, "Europe/Paris"));
    assert_eq!(into(first + 560, "Europe/Paris"), Err(Error::Cast));
    assert_eq!(into(first + 561, "Europe/Paris"), zoned(first, "Europe/Paris"));
    assert_eq!(into(0, "Nowhere/Land"), Err(Error::Cast));
    // A zone skips an hour in spring, and tells one twice in autumn.
    assert_eq!(into(1_711_852_199, "Europe/Paris"), Err(Error::Cast));
    assert_eq!(into(1_729_996_200, "Europe/Paris"), Err(Error::Cast));
    let out_of = |v: i64| {
        let value = ScalarValue::TimestampSecond(Some(v), Some("+23:59".to_string()));
        cast_to(&value, &DataType::Date32)
    };
    assert_eq!(out_of(0), Ok(ScalarValue::Date32(Some(0))));
    assert_eq!(out_of(60), Ok(ScalarValue::Date32(Some(1))));
    assert!(out_of(late).is_ok());
    assert!(out_of(first).is_ok());
    assert_eq!(out_of(last), Err(Error::Cast));
    let told = |v: i64, zone: &str, target: DataType| {
        cast_to(&ScalarValue::TimestampSecond(Some(v), Some(zone.to_string())), &target)
    };
    for target in [DataType::Utf8, DataType::Utf8View, DataType::LargeUtf8] {
        assert_eq!(told(last, "+01:00", target.clone()), Err(Error::Cast));
        assert_eq!(told(last - 3_599, "+01:00", target.clone()), Err(Error::Cast));
        assert!(told(last - 3_600, "+01:00", target.clone()).is_ok());
        assert!(told(last, "-01:00", target.clone()).is_ok());
        assert_eq!(told(first, "-01:00", target.clone()), Err(Error::Cast));
        assert_eq!(told(last - 3_599, "Europe/Paris", target.clone()), Err(Error::Cast));
        assert!(told(last - 3_600, "Europe/Paris", target.clone()).is_ok());
        assert!(told(first, "Europe/Paris", target.clone()).is_ok());
        assert_eq!(told(0, "Nowhere/Land", target), Err(Error::Cast));
    }
    // The calendar itself is told in this zone, to its ends.
    assert!(told(last, "UTC", DataType::Utf8).is_ok());
    assert!(told(first, "+00:00", DataType::Date32).is_ok());
    assert_eq!(into(last, "UTC"), zoned(last, "UTC"));
    let date = |v: i32| {
        let target = DataType::Timestamp(TimeUnit::Millisecond, Some("+00:00".to_string()));
        cast_to(&ScalarValue::Date32(Some(v)), &target)
    };
    assert_eq!(
        date(1),
        Ok(ScalarValue::TimestampMillisecond(Some(86_400_000), Some("+00:00".to_string())))
    );
    assert!(date((last / 86_400) as i32).is_ok());
    // Without a zone the calendar sets no bounds.
    assert_eq!(
        cast_to(
            &ScalarValue::TimestampSecond(Some(last), None),
            &DataType::Timestamp(TimeUnit::Millisecond, None)
        ),
        Ok(ScalarValue::TimestampMillisecond(Some(last * 1_000), None))
    );
}

/// A predicate over one column of a type.
fn predicate_over(data_type: DataType, filters: Vec<Expr>) -> Predicate {
    let plan = LogicalPlan {
        node: PlanNode::TableScan {
            table_name: TableReference::Bare { table: "t".to_string() },
            source: vec![SourceField { name: "x".to_string(), data_type }],
            projection: None,
            filters,
        },
        inputs: vec![],
        schema: DFSchema { fields: vec![] },
        using_columns: vec![],
        display: String::new(),
    };
    Predicate::new(&plan).unwrap().unwrap()
}

/// The range of the values of a type that compare with a value as an operator says.
fn bounds(data_type: DataType, op: Operator, value: ScalarValue) -> Option<Interval> {
    let p = predicate_over(data_type, vec![compare("x", op, value)]);
    assert!(p.residuals.is_empty());
    range_of(&p, "x").clone()
}

#[test]
fn bytes_are_ordered_byte_by_byte() {
    let b = |v: &[u8]| ScalarValue::Binary(Some(v.to_vec()));
    let between = |lower: &[u8], upper: &[u8]| Interval::try_new(&b(lower), &b(upper));
    assert!(between(&[1], &[1, 0]).is_ok());
    assert!(between(&[1, 255], &[2]).is_ok());
    assert_eq!(between(&[2], &[1, 255]), Err(Error::IntervalBounds));
    assert_eq!(
        bounds(DataType::Binary, Operator::GtEq, b(&[7])),
        Some(Interval { lower: b(&[7]), upper: ScalarValue::Binary(None) })
    );
    // A text is its bytes, and bytes of a fixed size have that size.
    let text = ScalarValue::Utf8(Some("ab".to_string()));
    assert_eq!(cast_to(&text, &DataType::Binary), Ok(b(b"ab")));
    let two = DataType::FixedSizeBinary(2);
    assert_eq!(
        cast_to(&b(b"ab"), &two),
        Ok(ScalarValue::FixedSizeBinary(2, Some(b"ab".to_vec())))
    );
    assert_eq!(cast_to(&b(b"abc"), &two), Err(Error::Cast));
    let wrong = ScalarValue::FixedSizeBinary(2, Some(b"abc".to_vec()));
    assert_eq!(cast_to(&wrong, &DataType::Binary), Err(Error::Cast));
    assert_eq!(cast_to(&b(&[255]), &DataType::Utf8), Err(Error::Cast));
    // No bytes come next after others, so a strict bound stays as it is.
    let filter = || compare("x", Operator::Gt, b(&[7]));
    assert_eq!(predicate_over(DataType::Binary, vec![filter()]).residuals, vec![filter()]);
}

#[test]
fn decimals_of_every_width_have_ranges() {
    let narrow = |v: i32| ScalarValue::Decimal32(Some(v), 5, 2);
    assert_eq!(
        bounds(DataType::Decimal32(5, 2), Operator::LtEq, i64v(3)),
        Some(Interval { lower: ScalarValue::Decimal32(None, 5, 2), upper: narrow(300) })
    );
    let wide = |high: i128, low: u128| ScalarValue::Decimal256(Some(Int256 { high, low }), 76, 0);
    assert!(Interval::try_new(&wide(-1, 0), &wide(0, 0)).is_ok());
    assert!(Interval::try_new(&wide(0, u128::MAX), &wide(1, 0)).is_ok());
    assert_eq!(Interval::try_new(&wide(0, 0), &wide(-1, u128::MAX)), Err(Error::IntervalBounds));
    assert_eq!(
        cast_to(&ScalarValue::Decimal128(Some(-5), 38, 0), &DataType::Decimal256(76, 0)),
        Ok(wide(-1, u128::MAX - 4))
    );
    assert_eq!(
        cast_to(&wide(-1, u128::MAX - 4), &DataType::Decimal64(18, 1)),
        Ok(ScalarValue::Decimal64(Some(-50), 18, 1))
    );
    // A narrower type takes what it can hold at its scale.
    let tenths = ScalarValue::Decimal128(Some(1_000_000_000_000), 20, 4);
    assert_eq!(
        cast_to(&tenths, &DataType::Decimal32(9, 0)),
        Ok(ScalarValue::Decimal32(Some(100_000_000), 9, 0))
    );
    let fine = ScalarValue::Decimal128(Some(10_000_000_000_000_000_000), 20, 15);
    assert_eq!(
        cast_to(&fine, &DataType::Decimal32(9, 0)),
        Ok(ScalarValue::Decimal32(Some(10_000), 9, 0))
    );
    // A decimal with more digits than its type says may not be cast to one.
    let too_long = ScalarValue::Decimal128(Some(1_000_000_000_000), 5, 4);
    assert_eq!(cast_to(&too_long, &DataType::Decimal32(9, 0)), Err(Error::Cast));
    // A scale may lie far below zero.
    let huge = ScalarValue::Decimal32(Some(7), 5, -20);
    assert_eq!(
        bounds(DataType::Decimal32(5, -20), Operator::GtEq, huge.clone()),
        Some(Interval { lower: huge, upper: ScalarValue::Decimal32(None, 5, -20) })
    );
    // Zeros in front of a number do not count. A number with more digits than any
    // type has room for is not read.
    let read = |t: String| cast_to(&ScalarValue::Utf8(Some(t)), &DataType::Decimal256(76, 2));
    let hundredths = |n: u128| {
        Ok(ScalarValue::Decimal256(Some(Int256 { high: 0, low: n }), 76, 2))
    };
    assert_eq!(read("0".repeat(20_000)), hundredths(0));
    assert_eq!(read(format!("{}7", "0".repeat(20_000))), hundredths(700));
    assert_eq!(read(format!(" {}1.255 ", "0".repeat(20_000))), hundredths(126));
    assert!(read("9".repeat(74)).is_ok());
    for n in [77, DECIMAL_BYTES, DECIMAL_BYTES + 1, 20_000, 1_000_000] {
        assert_eq!(read("9".repeat(n)), Err(Error::Cast));
        assert_eq!(read(format!("1.{}", "0".repeat(n + 2))), Err(Error::Cast));
    }
    assert_eq!(read(format!("1{}", "x".repeat(20_000))), Err(Error::Cast));
    // What the narrower type cannot hold, and scales too far apart, are not cast.
    assert_eq!(cast_to(&wide(1, 0), &DataType::Decimal128(38, 0)), Err(Error::Cast));
    let overfull = ScalarValue::Decimal256(Some(Int256 { high: 5, low: 0 }), 5, 0);
    assert_eq!(cast_to(&overfull, &DataType::Decimal128(38, 0)), Err(Error::Cast));
    let small = ScalarValue::Decimal256(Some(Int256 { high: 0, low: 1 }), 76, 0);
    assert_eq!(cast_to(&small, &DataType::Decimal256(76, 60)), Err(Error::Cast));
    assert_eq!(
        cast_to(&narrow(125), &DataType::Utf8),
        Ok(ScalarValue::Utf8(Some("1.25".to_string())))
    );
}

#[test]
fn bounds_out_of_order_are_told_whatever_they_are() {
    let date = |v: i64| ScalarValue::Date64(Some(v));
    let entry = |v: i64| ScalarValue::Dictionary(KeyType::Int32, Box::new(date(v)));
    assert_eq!(Interval::try_new(&date(0), &date(i64::MIN)), Err(Error::IntervalBounds));
    assert_eq!(Interval::try_new(&entry(0), &entry(i64::MIN)), Err(Error::IntervalBounds));
    assert_eq!(
        Interval::try_new(&date(i64::MIN), &date(0)),
        Ok(Interval { lower: date(i64::MIN), upper: date(0) })
    );
    let flag = |v: Option<bool>| ScalarValue::Boolean(v);
    assert_eq!(
        Interval::try_new(&flag(Some(true)), &flag(Some(false))),
        Err(Error::IntervalBounds)
    );
    assert_eq!(
        Interval::try_new(&flag(None), &flag(Some(false))),
        Ok(Interval { lower: flag(Some(false)), upper: flag(Some(false)) })
    );
    let byte = |v: Option<u8>| ScalarValue::UInt8(v);
    assert_eq!(
        Interval::try_new(&byte(None), &byte(None)),
        Ok(Interval { lower: byte(Some(0)), upper: byte(None) })
    );
}

#[test]
fn dates_of_dictionaries_become_instants_that_fit() {
    let entry =
        |v: ScalarValue| ScalarValue::Dictionary(KeyType::Int32, Box::new(v));
    let instant = |unit: TimeUnit| DataType::Timestamp(unit, None);
    let days = |v: i32| entry(ScalarValue::Date32(Some(v)));
    assert_eq!(
        cast_to(&days(1), &instant(TimeUnit::Nanosecond)),
        Ok(ScalarValue::TimestampNanosecond(Some(86_400_000_000_000), None))
    );
    assert_eq!(cast_to(&days(200_000), &instant(TimeUnit::Nanosecond)), Err(Error::Cast));
    assert!(cast_to(&days(200_000), &instant(TimeUnit::Microsecond)).is_ok());
    let within = DataType::Dictionary(KeyType::Int8, Box::new(instant(TimeUnit::Nanosecond)));
    assert_eq!(cast_to(&days(200_000), &within), Err(Error::Cast));
    assert_eq!(
        cast_to(&days(1), &within),
        Ok(ScalarValue::Dictionary(
            KeyType::Int8,
            Box::new(ScalarValue::TimestampNanosecond(Some(86_400_000_000_000), None))
        ))
    );
    let millis = |v: i64| entry(ScalarValue::Date64(Some(v)));
    assert_eq!(cast_to(&millis(i64::MAX), &instant(TimeUnit::Microsecond)), Err(Error::Cast));
    assert_eq!(
        cast_to(&millis(i64::MAX), &instant(TimeUnit::Millisecond)),
        Ok(ScalarValue::TimestampMillisecond(Some(i64::MAX), None))
    );
    // A date that is not in a dictionary is held to the same limits.
    assert_eq!(
        cast_to(&ScalarValue::Date32(Some(200_000)), &instant(TimeUnit::Nanosecond)),
        Err(Error::Cast)
    );
    // Bytes of a fixed size are put into a dictionary where they are few.
    let bytes = |n: i32| {
        DataType::Dictionary(KeyType::Int8, Box::new(DataType::FixedSizeBinary(n)))
    };
    assert_eq!(
        cast_to(&ScalarValue::Binary(Some(b"ab".to_vec())), &bytes(2)),
        Ok(ScalarValue::Dictionary(
            KeyType::Int8,
            Box::new(ScalarValue::FixedSizeBinary(2, Some(b"ab".to_vec())))
        ))
    );
    assert_eq!(
        cast_to(&ScalarValue::Binary(None), &bytes(FIXED_BYTES + 1)),
        Err(Error::Cast)
    );
    let none = |n: i32| cast_to(&ScalarValue::FixedSizeBinary(n, None), &DataType::Binary);
    assert_eq!(none(2), Ok(ScalarValue::Binary(None)));
    assert_eq!(none(FIXED_BYTES + 1), Err(Error::Cast));
}

#[test]
fn spans_of_time_have_ranges() {
    let months = |v: Option<i32>| ScalarValue::IntervalYearMonth(v);
    assert_eq!(
        bounds(DataType::IntervalYearMonth, Operator::Gt, months(Some(11))),
        Some(Interval { lower: months(Some(12)), upper: months(None) })
    );
    let day_time = |days: i32, milliseconds: i32| {
        ScalarValue::IntervalDayTime(Some(DayTime { days, milliseconds }))
    };
    let none = ScalarValue::IntervalDayTime(None);
    assert_eq!(
        bounds(DataType::IntervalDayTime, Operator::Lt, day_time(2, 5)),
        Some(Interval { lower: none.clone(), upper: day_time(2, 4) })
    );
    assert!(Interval::try_new(&day_time(1, 90_000_000), &day_time(2, -5)).is_ok());
    // The last part is at its end: the bound stays as it is.
    let filter = || compare("x", Operator::Gt, day_time(2, i32::MAX));
    let p = predicate_over(DataType::IntervalDayTime, vec![filter()]);
    assert_eq!(p.residuals, vec![filter()]);
    // Nothing is above the greatest span.
    let most = day_time(i32::MAX, i32::MAX);
    assert_eq!(bounds(DataType::IntervalDayTime, Operator::Gt, most), None);
    let nano = |months: i32, days: i32, nanoseconds: i64| {
        ScalarValue::IntervalMonthDayNano(Some(MonthDayNano { months, days, nanoseconds }))
    };
    assert_eq!(
        bounds(DataType::IntervalMonthDayNano, Operator::Gt, day_time(3, 7)),
        Some(Interval {
            lower: nano(0, 3, 7_000_001),
            upper: ScalarValue::IntervalMonthDayNano(None),
        })
    );
    let text = ScalarValue::Utf8(Some("1 month 2 days".to_string()));
    assert_eq!(cast_to(&text, &DataType::IntervalMonthDayNano), Ok(nano(1, 2, 0)));
}

#[test]
fn values_of_dictionaries_are_those_that_they_stand_for() {
    let utf8 = || DataType::Dictionary(KeyType::UInt16, Box::new(DataType::Utf8));
    let text = |v: Option<&str>| ScalarValue::Utf8(v.map(str::to_string));
    let entry = |v: Option<&str>| ScalarValue::Dictionary(KeyType::UInt16, Box::new(text(v)));
    assert_eq!(
        bounds(utf8(), Operator::GtEq, text(Some("b"))),
        Some(Interval { lower: entry(Some("b")), upper: entry(None) })
    );
    assert_eq!(
        bounds(utf8(), Operator::Eq, entry(Some("b"))),
        Some(Interval { lower: entry(Some("b")), upper: entry(Some("b")) })
    );
    assert_eq!(
        Interval::try_new(&entry(Some("b")), &entry(Some("a"))),
        Err(Error::IntervalBounds)
    );
    assert_eq!(bounds(utf8(), Operator::Eq, entry(None)), None);
    assert_eq!(cast_to(&entry(Some("7")), &DataType::Int32), Ok(i32v(7)));
    let bytes = DataType::Dictionary(KeyType::Int8, Box::new(DataType::UInt8));
    let seven = ScalarValue::Dictionary(KeyType::Int8, Box::new(ScalarValue::UInt8(Some(7))));
    assert_eq!(cast_to(&entry(Some("7")), &bytes), Ok(seven.clone()));
    // A dictionary has no least value of its own, and no next one.
    assert_eq!(
        Interval::make_unbounded(&bytes),
        Interval { lower: ScalarValue::null(&bytes), upper: ScalarValue::null(&bytes) }
    );
    let filter = || compare("x", Operator::Lt, seven.clone());
    assert_eq!(predicate_over(bytes, vec![filter()]).residuals, vec![filter()]);
    // Instants in a dictionary are told in zones within the calendar too.
    let last = ScalarValue::Dictionary(
        KeyType::Int32,
        Box::new(ScalarValue::TimestampSecond(
            Some(LAST_SECOND as i64),
            Some("+01:00".to_string()),
        )),
    );
    assert_eq!(cast_to(&last, &DataType::Date32), Err(Error::Cast));
    assert!(!DataType::Dictionary(
        KeyType::Int8,
        Box::new(DataType::Other("Float64".to_string()))
    )
    .known());
}

#[test]
fn added_equalities_join_the_classes_of_the_other() {
    let one = predicate(vec![same("a", "b"), same("b", "c")]);
    let other = predicate(vec![same("a", "b")]);
    assert_eq!(
        one.equijoin_subsumption_test(&other),
        Some(vec![same("a", "c"), same("c", "a"), same("c", "b")])
    );
    assert_eq!(one.equijoin_subsumption_test(&one), Some(vec![]));
    assert_eq!(other.equijoin_subsumption_test(&one), None);
    assert_eq!(one.range_subsumption_test(&one), Ok(Some(vec![])));
    assert_eq!(one.residual_subsumption_test(&one), Some(vec![]));
}
