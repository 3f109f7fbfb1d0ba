use std::collections::BTreeSet;

use arrow::array::{Array, StringArray, TimestampNanosecondArray, UInt64Array};
use arrow::datatypes::TimeUnit as ArrowTimeUnit;
use datafusion_materialized_views::error::Error;
use datafusion_materialized_views::expr::Operator;
use datafusion_materialized_views::materialized::file_metadata::{
    gather, keeps_file, listing, timestamp_nanos_opt, DefaultFileMetadataProvider, FileBatch,
    FileMeta, FileMetadata, FileMetadataBuilder, FileMetadataExec, Listing, PhysicalExpr, Scope,
    Step, TableProviderFilterPushDown,
};
use datafusion_materialized_views::scalar::{DataType, ScalarValue, TimeUnit};

/// The tables of the catalog list, each with the directories of its files.
const TABLES: [(&str, &str, &str, [&str; 4]); 3] = [
    (
        "datafusion",
        "private",
        "t1",
        [
            "private/t1/year=2021/month=01/",
            "private/t1/year=2022/month=02/",
            "private/t1/year=2023/month=03/",
            "private/t1/year=2024/month=04/",
        ],
    ),
    (
        "datafusion",
        "public",
        "t1",
        ["t1/year=2021/", "t1/year=2022/", "t1/year=2023/", "t1/year=2024/"],
    ),
    (
        "datafusion_mv",
        "public",
        "t3",
        [
            "datafusion_mv/public/t3/date=2021-01-01/",
            "datafusion_mv/public/t3/date=2022-02-02/",
            "datafusion_mv/public/t3/date=2023-03-03/",
            "datafusion_mv/public/t3/date=2024-04-04/",
        ],
    ),
];

type Row = (String, String, String, u64, String);

fn column_is(column: usize, value: &str) -> PhysicalExpr {
    PhysicalExpr::BinaryExpr {
        left: Box::new(PhysicalExpr::Column(column)),
        op: Operator::Eq,
        right: Box::new(PhysicalExpr::Literal(ScalarValue::Utf8(Some(value.to_string())))),
    }
}

fn meta(location: &str) -> FileMeta {
    FileMeta {
        location: location.to_string(),
        modified_seconds: 1_700_000_000,
        modified_nanos: 5,
        size: 6,
    }
}

/// The files of one table.
fn list_table(catalog: &str, schema: &str, table: &str, dirs: &[&str]) -> FileBatch {
    let mut builder = FileMetadataBuilder::new();
    for dir in dirs {
        let file = meta(&format!("{dir}data.csv"));
        builder = builder.append(catalog, schema, table, "file:///", &file);
    }
    assert!(builder.fits());
    builder.finish().unwrap()
}

/// The batches of the tables that a query lists.
fn answer(scope: &Scope) -> Vec<FileBatch> {
    let mut step = scope.first_step();
    loop {
        let found = match &step {
            Step::LookUpCatalog(c) => TABLES.iter().any(|t| t.0 == c),
            Step::LookUpSchema(c, s) => TABLES.iter().any(|t| t.0 == c && t.1 == s),
            Step::LookUpTable(c, s, t) => {
                TABLES.iter().any(|x| x.0 == c && x.1 == s && x.2 == t)
            }
            _ => break,
        };
        step = scope.next_step(step, found);
    }
    let listed = |c: &str, s: &str, t: &str| match &step {
        Step::ListAll => true,
        Step::ListCatalog(x) => x == c,
        Step::ListSchema(x, y) => x == c && y == s,
        Step::ListTable(x, y, z) => x == c && y == s && z == t,
        _ => false,
    };
    let results: Vec<Result<Vec<FileBatch>, Error>> = TABLES
        .iter()
        .filter(|t| listed(t.0, t.1, t.2))
        .map(|t| Ok(vec![list_table(t.0, t.1, t.2, &t.3)]))
        .collect();
    gather(results).unwrap()
}

fn texts(batch: &FileBatch, column: usize) -> &StringArray {
    batch.batch.column(column).as_any().downcast_ref::<StringArray>().unwrap()
}

/// The rows of a query, with the file names cut off.
fn rows(conditions: &[(usize, &str)]) -> BTreeSet<Row> {
    let filters = || conditions.iter().map(|(c, text)| column_is(*c, text)).collect();
    let scan = FileMetadata::new().scan(None, filters(), None).unwrap();
    let scope = scan.requested_scope().unwrap();
    let filters: Vec<PhysicalExpr> = filters();
    let mut rows = BTreeSet::new();
    for batch in scan.project_batches(answer(&scope)) {
        let batch = batch.unwrap();
        let sizes = batch.batch.column(5).as_any().downcast_ref::<UInt64Array>().unwrap();
        for i in 0..batch.batch.num_rows() {
            let values = [0, 1, 2].map(|c| texts(&batch, c).value(i).to_string());
            // The engine applies the filters again to the rows that are listed.
            let kept = filters.iter().all(|f| {
                (0..3).all(|c| {
                    FileMetadataExec::get_column_literal(c, f)
                        .map_or(true, |text| values[c] == text)
                })
            });
            if kept {
                let path = texts(&batch, 3).value(i);
                let dir = &path[..path.rfind('/').unwrap() + 1];
                let [catalog, schema, table] = values;
                rows.insert((catalog, schema, table, sizes.value(i), dir.to_string()));
            }
        }
    }
    rows
}

/// The rows of some of the tables.
fn expected(tables: &[usize]) -> BTreeSet<Row> {
    let mut rows = BTreeSet::new();
    for i in tables {
        let (catalog, schema, table, dirs) = &TABLES[*i];
        for dir in dirs {
            rows.insert((
                catalog.to_string(),
                schema.to_string(),
                table.to_string(),
                6,
                format!("file:///{dir}"),
            ));
        }
    }
    rows
}

#[test]
fn test_list_all_files() {
    assert_eq!(rows(&[]), expected(&[0, 1, 2]));
}

#[test]
fn test_list_catalog() {
    assert_eq!(rows(&[(0, "datafusion_mv")]), expected(&[2]));
}

#[test]
fn test_list_catalog_and_schema() {
    assert_eq!(
        rows(&[(0, "datafusion"), (1, "private")]),
        expected(&[0])
    );
}

#[test]
fn test_list_schema_only() {
    assert_eq!(rows(&[(1, "public")]), expected(&[1, 2]));
}

#[test]
fn test_list_catalog_schema_and_table() {
    assert_eq!(
        rows(&[(0, "datafusion"), (1, "public"), (2, "t1")]),
        expected(&[1])
    );
}

#[test]
fn test_list_table_only() {
    assert_eq!(rows(&[(2, "t1")]), expected(&[0, 1]));
}

#[test]
fn what_is_not_there_is_an_empty_result() {
    assert!(rows(&[(0, "nothing")]).is_empty());
    assert!(rows(&[(0, "datafusion"), (1, "nothing")]).is_empty());
    assert!(rows(&[
        (0, "datafusion"),
        (1, "public"),
        (2, "nothing"),
    ])
    .is_empty());
}

#[test]
fn the_schema_has_six_required_fields() {
    let table = FileMetadata::new();
    let fields = table.schema();
    let names: Vec<&str> = fields.iter().map(|f| f.name.as_str()).collect();
    assert_eq!(
        names,
        vec!["table_catalog", "table_schema", "table_name", "file_path", "last_modified", "size"]
    );
    assert!(fields.iter().all(|f| !f.nullable));
    assert_eq!(fields[3].data_type, DataType::Utf8);
    assert_eq!(
        fields[4].data_type,
        DataType::Timestamp(TimeUnit::Nanosecond, Some("UTC".to_string()))
    );
    assert_eq!(fields[5].data_type, DataType::UInt64);
}

#[test]
fn scans_output_the_projected_fields() {
    let table = FileMetadata::new();
    let fields = table.schema();
    let some = table.scan(Some(vec![5, 0]), vec![], Some(3)).unwrap();
    assert_eq!(some.schema(), &vec![fields[5].clone(), fields[0].clone()]);
    assert_eq!(some.limit(), Some(3));
    assert_eq!(some.name(), "FileMetadataExec");
    let all = table.scan(None, vec![], None).unwrap();
    assert_eq!(all.schema(), fields);
    assert_eq!(all.limit(), None);
    assert_eq!(
        table.scan(Some(vec![5, 6, 9]), vec![], None).unwrap_err(),
        Error::ProjectionOutOfBounds { index: 6, fields: 6 }
    );
}

#[test]
fn filters_only_narrow_the_listing() {
    let table = FileMetadata::new();
    assert!(table.supports_filters_pushdown(0).is_empty());
    assert_eq!(
        table.supports_filters_pushdown(2),
        vec![TableProviderFilterPushDown::Inexact, TableProviderFilterPushDown::Inexact]
    );
}

#[test]
fn columns_are_found_by_name() {
    let scan = FileMetadata::new().scan(Some(vec![]), vec![], None).unwrap();
    assert_eq!(scan.get_column_index("table_name"), Ok(2));
    assert_eq!(
        scan.get_column_index("nothing"),
        Err(Error::NoSuchColumn("nothing".to_string()))
    );
    let empty = FileMetadataExec::try_new(vec![], None, vec![], None).unwrap();
    assert_eq!(
        empty.requested_scope(),
        Err(Error::NoSuchColumn("table_catalog".to_string()))
    );
}

#[test]
fn literals_are_read_from_equalities() {
    let text = |s: &str| ScalarValue::Utf8(Some(s.to_string()));
    let with = |left: PhysicalExpr, op: Operator, right: PhysicalExpr| PhysicalExpr::BinaryExpr {
        left: Box::new(left),
        op,
        right: Box::new(right),
    };
    let column = || PhysicalExpr::Column(1);
    let literal = |v: ScalarValue| PhysicalExpr::Literal(v);
    let read = FileMetadataExec::get_column_literal;
    let a = Some("a".to_string());
    assert_eq!(read(1, &with(column(), Operator::Eq, literal(text("a")))), a);
    assert_eq!(read(1, &with(literal(text("a")), Operator::Eq, column())), a);
    let large = ScalarValue::LargeUtf8(Some("a".to_string()));
    assert_eq!(read(1, &with(column(), Operator::Eq, literal(large))), a);
    assert_eq!(read(0, &with(column(), Operator::Eq, literal(text("a")))), None);
    assert_eq!(read(1, &with(column(), Operator::NotEq, literal(text("a")))), None);
    assert_eq!(read(1, &with(column(), Operator::Eq, column())), None);
    let view = ScalarValue::Utf8View(Some("a".to_string()));
    assert_eq!(read(1, &with(column(), Operator::Eq, literal(view))), None);
    let null = ScalarValue::Utf8(None);
    assert_eq!(read(1, &with(column(), Operator::Eq, literal(null))), None);
    assert_eq!(read(1, &PhysicalExpr::Other), None);
}

#[test]
fn the_first_literal_of_a_column_is_taken() {
    let filters = vec![PhysicalExpr::Other, column_is(0, "a"), column_is(0, "b")];
    let scan = FileMetadata::new().scan(None, filters, None).unwrap();
    let scope = scan.requested_scope().unwrap();
    assert_eq!(scope, Scope { catalog: Some("a".to_string()), schema: None, table: None });
}

#[test]
fn locations_are_directories_or_files() {
    assert_eq!(listing("file:///t1/", true), Listing::Directory);
    assert_eq!(listing("file:///t1.csv", true), Listing::File);
    assert_eq!(listing("file:///t1/", false), Listing::Nothing);
    assert_eq!(listing("", true), Listing::File);
}

#[test]
fn files_belong_to_the_table_above_them() {
    let provider = DefaultFileMetadataProvider;
    let lists = |path: &str, glob: Option<&str>, ignore: bool| {
        let glob = glob.map(str::to_string);
        provider.lists_file("file:///t1/", &glob, path, ".csv", ignore)
    };
    assert_eq!(lists("t1/year=2021/a.csv", None, false), Ok(true));
    assert_eq!(lists("t1/year=2021/a.json", None, false), Ok(false));
    assert_eq!(lists("t2/a.csv", None, false), Ok(false));
    // Partition directories do not count as subdirectories.
    assert_eq!(lists("t1/year=2021/a.csv", None, true), Ok(true));
    assert_eq!(lists("t1/sub/a.csv", None, true), Ok(false));
    assert_eq!(lists("t1/sub/a.csv", None, false), Ok(true));
    assert_eq!(lists("t1/a.csv", Some("a*"), false), Ok(true));
    assert_eq!(lists("t1/b.csv", Some("a*"), false), Ok(false));
    let bad = provider.lists_file("no url", &None, "t1/a.csv", ".csv", false);
    assert_eq!(bad, Err(Error::Location));
    assert!(keeps_file("a.csv", "csv", true));
    assert!(!keeps_file("a.csv", "csv", false));
    assert!(!keeps_file("v", "csv", true));
}

#[test]
fn times_are_told_in_nanoseconds() {
    assert_eq!(timestamp_nanos_opt(1, 5), Some(1_000_000_005));
    assert_eq!(timestamp_nanos_opt(-1, 999_999_999), Some(-1));
    assert_eq!(timestamp_nanos_opt(9_223_372_036, 854_775_807), Some(i64::MAX));
    assert_eq!(timestamp_nanos_opt(9_223_372_036, 854_775_808), None);
    assert_eq!(timestamp_nanos_opt(i64::MIN, 0), None);
    assert_eq!(timestamp_nanos_opt(-9_223_372_037, 145_224_192), Some(i64::MIN));
    assert_eq!(timestamp_nanos_opt(-9_223_372_037, 145_224_191), None);
    // Leap seconds.
    assert_eq!(timestamp_nanos_opt(-1, 1_500_000_000), Some(500_000_000));
    assert_eq!(timestamp_nanos_opt(-9_223_372_038, 1_200_000_000), None);
}

#[test]
fn batches_have_the_values_of_the_files() {
    let batch = list_table("c", "s", "t", &["x/", "y/"]).batch;
    assert_eq!(batch.num_rows(), 2);
    let times = batch.column(4).as_any().downcast_ref::<TimestampNanosecondArray>().unwrap();
    assert_eq!(times.value(1), 1_700_000_000_000_000_005);
    assert_eq!(
        times.data_type(),
        &arrow::datatypes::DataType::Timestamp(ArrowTimeUnit::Nanosecond, Some("UTC".into()))
    );
    let paths = batch.column(3).as_any().downcast_ref::<StringArray>().unwrap();
    assert_eq!(paths.value(0), "file:///x/data.csv");
    let schema = batch.schema();
    assert_eq!(schema.field(3).name(), "file_path");
    assert!(!schema.field(3).is_nullable());
}

#[test]
fn a_table_without_files_is_an_empty_batch() {
    let batch = FileMetadataBuilder::new().finish().unwrap().batch;
    assert_eq!(batch.num_rows(), 0);
    assert_eq!(batch.num_columns(), 6);
}

#[test]
fn a_time_out_of_range_fails() {
    let mut file = meta("a.csv");
    file.modified_seconds = i64::MAX;
    let builder = FileMetadataBuilder::new().append("c", "s", "t", "file:///", &file);
    assert_eq!(builder.finish().unwrap_err(), Error::TimestampOutOfRange);
}

#[test]
fn batches_are_projected() {
    let project = |projection: Option<Vec<usize>>| {
        let batches = vec![list_table("c", "s", "t", &["x/"]), list_table("c", "s", "u", &["y/"])];
        let scan = FileMetadata::new().scan(projection, vec![], None).unwrap();
        scan.project_batches(batches)
    };
    let some = project(Some(vec![5, 2]));
    let second = some[1].as_ref().unwrap();
    assert_eq!(second.batch.num_columns(), 2);
    assert_eq!(texts(second, 1).value(0), "u");
    let none = project(Some(vec![]));
    assert_eq!(none[0].as_ref().unwrap().batch.num_columns(), 0);
    assert_eq!(none[0].as_ref().unwrap().batch.num_rows(), 1);
    let all = project(None);
    assert_eq!(all[0].as_ref().unwrap().batch.num_columns(), 6);
}

#[test]
fn batches_with_too_few_columns_are_not_projected() {
    let project = |place: usize, batches: Vec<FileBatch>| {
        let scan = FileMetadata::new().scan(Some(vec![place]), vec![], None).unwrap();
        scan.project_batches(batches)
    };
    let mut narrow = Vec::new();
    for batch in project(0, vec![list_table("c", "s", "t", &["x/"])]) {
        narrow.push(batch.unwrap());
    }
    let bad = project(5, narrow);
    assert_eq!(bad[0].as_ref().unwrap_err(), &Error::BatchProjection);
}

#[test]
fn results_are_gathered_in_order() {
    let good: Vec<Result<Vec<u8>, &str>> = vec![Ok(vec![1, 2]), Ok(vec![]), Ok(vec![3])];
    assert_eq!(gather(good), Ok(vec![1, 2, 3]));
    let bad: Vec<Result<Vec<u8>, &str>> = vec![Ok(vec![1]), Err("a"), Err("b")];
    assert_eq!(gather(bad), Err("a"));
}

#[test]
fn scans_describe_themselves() {
    assert_eq!(FileMetadataExec::display(&vec![], &None), "FileMetadataExec: filters=[]");
    assert_eq!(
        FileMetadataExec::display(
            &vec!["a = 1".to_string(), "b".to_string()],
            &Some("5".to_string())
        ),
        "FileMetadataExec: filters=[a = 1, b], limit=5"
    );
}
