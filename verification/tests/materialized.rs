use datafusion_materialized_views::error::Error;
use datafusion_materialized_views::materialized::{
    cast_to_listing_table, cast_to_materialized, register_decorator, register_listing_table,
    register_materialized, table_readiness, TableProvider, TableTypeRegistry, LISTING_TABLE,
    META_COLUMN,
};
use datafusion_materialized_views::rewrite::readiness::{RewriteReadiness, TableLookup};

const VIEW: u64 = 7;
const WRAPPER: u64 = 8;
const CUSTOM: u64 = 9;

fn strings(s: &[&str]) -> Vec<String> {
    s.iter().map(|x| x.to_string()).collect()
}

fn table(type_id: u64, statics: &[&str], all: &[&str]) -> TableProvider {
    TableProvider {
        type_id,
        base: None,
        partition_columns: strings(all),
        static_partition_columns: strings(statics),
        readiness: RewriteReadiness::Ready,
    }
}

fn wrapper(base: TableProvider) -> TableProvider {
    TableProvider {
        type_id: WRAPPER,
        base: Some(Box::new(base)),
        partition_columns: vec![],
        static_partition_columns: vec![],
        readiness: RewriteReadiness::NotReady,
    }
}

#[test]
fn listing_tables_are_known_from_the_start() {
    let registry = TableTypeRegistry::default();
    let listing = table(LISTING_TABLE, &[], &["year"]);
    assert_eq!(cast_to_listing_table(&registry, &listing), Some(&listing));
    assert_eq!(cast_to_materialized(&registry, &listing), Ok(None));
    let custom = table(CUSTOM, &[], &[]);
    assert_eq!(cast_to_listing_table(&registry, &custom), None);
    assert_eq!(cast_to_materialized(&registry, &custom), Ok(None));
}

#[test]
fn registered_listing_tables_are_known() {
    let mut registry = TableTypeRegistry::default();
    register_listing_table(&mut registry, CUSTOM, "Custom");
    let custom = table(CUSTOM, &[], &[]);
    assert_eq!(cast_to_listing_table(&registry, &custom), Some(&custom));
    assert_eq!(cast_to_materialized(&registry, &custom), Ok(None));
    assert!(registry.cast_to_decorator(&custom).is_none());
}

#[test]
fn materialized_views_are_listing_tables_too() {
    let mut registry = TableTypeRegistry::default();
    register_materialized(&mut registry, VIEW, "View");
    let view = table(VIEW, &["year"], &["year", "month"]);
    assert_eq!(cast_to_listing_table(&registry, &view), Some(&view));
    assert_eq!(cast_to_materialized(&registry, &view), Ok(Some(&view)));
}

#[test]
fn decorators_are_looked_through() {
    let mut registry = TableTypeRegistry::default();
    register_materialized(&mut registry, VIEW, "View");
    let view = table(VIEW, &[], &["year"]);
    let wrapped = wrapper(wrapper(table(VIEW, &[], &["year"])));
    assert_eq!(cast_to_listing_table(&registry, &wrapped), None);
    register_decorator(&mut registry, WRAPPER, "Wrapper");
    assert_eq!(cast_to_listing_table(&registry, &wrapped), Some(&view));
    assert_eq!(cast_to_materialized(&registry, &wrapped), Ok(Some(&view)));
    assert_eq!(cast_to_listing_table(&registry, &wrapper(table(CUSTOM, &[], &[]))), None);
}

#[test]
fn the_outermost_registered_table_is_taken() {
    let mut registry = TableTypeRegistry::default();
    register_decorator(&mut registry, WRAPPER, "Wrapper");
    register_listing_table(&mut registry, WRAPPER, "Wrapper");
    let wrapped = wrapper(table(LISTING_TABLE, &[], &["year"]));
    assert_eq!(cast_to_listing_table(&registry, &wrapped), Some(&wrapped));
}

#[test]
fn static_partition_columns_must_be_a_prefix() {
    let mut registry = TableTypeRegistry::default();
    register_materialized(&mut registry, VIEW, "View");
    register_decorator(&mut registry, WRAPPER, "Wrapper");
    let error = |statics: &[&str], all: &[&str]| {
        Err(Error::StaticPartitionColumns {
            static_columns: strings(statics),
            all_columns: strings(all),
        })
    };
    let swapped = table(VIEW, &["month"], &["year", "month"]);
    assert_eq!(cast_to_materialized(&registry, &swapped), error(&["month"], &["year", "month"]));
    let longer = wrapper(table(VIEW, &["year", "month"], &["year"]));
    assert_eq!(cast_to_materialized(&registry, &longer), error(&["year", "month"], &["year"]));
    let all = table(VIEW, &["year", "month"], &["year", "month"]);
    assert_eq!(cast_to_materialized(&registry, &all), Ok(Some(&all)));
}

#[test]
fn row_metadata_has_its_column() {
    assert_eq!(META_COLUMN, "__meta");
}

#[test]
fn only_valid_views_report_their_readiness() {
    let mut registry = TableTypeRegistry::default();
    register_materialized(&mut registry, VIEW, "View");
    register_decorator(&mut registry, WRAPPER, "Wrapper");
    let ready = TableLookup::Reported(RewriteReadiness::Ready);
    let view = || table(VIEW, &[], &["year"]);
    assert_eq!(table_readiness(&registry, &view()), ready);
    // A decorator speaks through the table below it.
    assert_eq!(table_readiness(&registry, &wrapper(view())), ready);
    let listing = table(LISTING_TABLE, &[], &[]);
    assert_eq!(table_readiness(&registry, &listing), TableLookup::NotMaterialized);
    let broken = table(VIEW, &["month"], &["year"]);
    assert_eq!(table_readiness(&registry, &broken), TableLookup::InvalidView);
}

#[test]
fn views_by_default_are_valid_and_of_unknown_readiness() {
    let mut registry = TableTypeRegistry::default();
    register_materialized(&mut registry, VIEW, "View");
    let view = TableProvider::new(VIEW, strings(&["year", "month"]));
    assert_eq!(view.static_partition_columns, strings(&["year", "month"]));
    assert_eq!(cast_to_materialized(&registry, &view), Ok(Some(&view)));
    assert_eq!(
        table_readiness(&registry, &view),
        TableLookup::Reported(RewriteReadiness::Unknown)
    );
}
