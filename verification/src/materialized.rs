//! Materialized views and the files behind them.
pub mod file_metadata;

use std::hash::RandomState;

use dashmap::DashMap;
use vstd::prelude::*;

use crate::error::{strings_view, Error, ErrorView};
use crate::rewrite::readiness::{RewriteReadiness, TableLookup};

verus! {

/// The identifier of the column that row metadata is stored in.
pub const META_COLUMN: &'static str = "__meta";

/// DashMap's map.
#[verifier::external_type_specification]
#[verifier::external_body]
#[verifier::reject_recursive_types(K)]
#[verifier::reject_recursive_types(V)]
#[verifier::reject_recursive_types(S)]
pub struct ExDashMap<K, V, S>(DashMap<K, V, S>);

/// What a map of names holds.
pub uninterp spec fn map_contents(map: DashMap<u64, String, RandomState>) -> Map<u64, Seq<char>>;

/// A map that holds nothing.
pub open spec fn no_names() -> Map<u64, Seq<char>> {
    Map::empty()
}

/// `DashMap::new`: a map that holds nothing.
#[verifier::external_body]
fn outside_new() -> (r: DashMap<u64, String, RandomState>)
    ensures
        map_contents(r) == no_names(),
{
    DashMap::new()
}

/// `DashMap::insert`: the map holds the value under the key, in place of what it
/// held there, and everything else as before.
#[verifier::external_body]
fn outside_insert(map: &mut DashMap<u64, String, RandomState>, key: u64, value: String)
    ensures
        map_contents(*final(map)) == map_contents(*old(map)).insert(key, value@),
{
    map.insert(key, value);
}

/// `DashMap::contains_key`: whether the map holds something under the key.
#[verifier::external_body]
fn outside_contains_key(map: &DashMap<u64, String, RandomState>, key: u64) -> (r: bool)
    ensures
        r == map_contents(*map).dom().contains(key),
{
    map.contains_key(&key)
}

/// A table, as the type that implements it and what it says of itself.
#[derive(Debug, PartialEq, Eq, Hash)]
pub struct TableProvider {
    /// The number of the type that implements the table.
    pub type_id: u64,
    /// The table that this one decorates, where its type is a decorator.
    pub base: Option<Box<TableProvider>>,
    /// Hive partition columns.
    pub partition_columns: Vec<String>,
    /// The partition columns that are used in incremental view maintenance.
    pub static_partition_columns: Vec<String>,
    /// Whether the table says that it is safe to route queries to it.
    pub readiness: RewriteReadiness,
}

/// The texts of a [`TableProvider`].
pub struct TableView {
    pub type_id: u64,
    pub base: Option<Box<TableView>>,
    pub partition_columns: Seq<Seq<char>>,
    pub static_partition_columns: Seq<Seq<char>>,
    pub readiness: RewriteReadiness,
}

impl TableProvider {
    pub open spec fn view(&self) -> TableView
        decreases self,
    {
        TableView {
            type_id: self.type_id,
            base: match self.base {
                Some(base) => Some(Box::new((*base).view())),
                None => None,
            },
            partition_columns: strings_view(self.partition_columns@),
            static_partition_columns: strings_view(self.static_partition_columns@),
            readiness: self.readiness,
        }
    }
}

/// The names of the types that are registered, by their numbers.
pub struct RegistryView {
    pub listing_tables: Map<u64, Seq<char>>,
    pub materialized: Map<u64, Seq<char>>,
    pub decorators: Map<u64, Seq<char>>,
}

impl RegistryView {
    /// Every type of materialized views is one of listing tables.
    pub open spec fn well_formed(self) -> bool {
        forall|id: u64| #[trigger]
            self.materialized.dom().contains(id) ==> self.listing_tables.dom().contains(id)
    }

    /// The registry with one more type of listing tables.
    pub open spec fn with_listing_table(self, id: u64, name: Seq<char>) -> RegistryView {
        RegistryView { listing_tables: self.listing_tables.insert(id, name), ..self }
    }

    /// The registry with one more type of materialized views, which is one of
    /// listing tables too.
    pub open spec fn with_materialized(self, id: u64, name: Seq<char>) -> RegistryView {
        RegistryView {
            listing_tables: self.listing_tables.insert(id, name),
            materialized: self.materialized.insert(id, name),
            ..self
        }
    }

    /// The registry with one more type of decorators.
    pub open spec fn with_decorator(self, id: u64, name: Seq<char>) -> RegistryView {
        RegistryView { decorators: self.decorators.insert(id, name), ..self }
    }
}

/// The number of the type of tables that is registered from the start.
pub const LISTING_TABLE: u64 = 0;

/// The registry from the start: listing tables are known, and nothing else.
pub open spec fn initial_registry() -> RegistryView {
    RegistryView {
        listing_tables: no_names().insert(LISTING_TABLE, "ListingTable"@),
        materialized: no_names(),
        decorators: no_names(),
    }
}

/// The table that a decorator of a registered type decorates.
pub open spec fn decorated(registry: RegistryView, table: TableView) -> Option<TableView> {
    match table.base {
        Some(base) => if registry.decorators.dom().contains(table.type_id) {
            Some(*base)
        } else {
            None
        },
        None => None,
    }
}

/// The table, or the nearest one that it decorates, whose type is one of listing
/// tables.
pub open spec fn as_listing_table(registry: RegistryView, table: TableView) -> Option<TableView>
    decreases table,
{
    if registry.listing_tables.dom().contains(table.type_id) {
        Some(table)
    } else {
        match table.base {
            Some(base) => if registry.decorators.dom().contains(table.type_id) {
                as_listing_table(registry, *base)
            } else {
                None
            },
            None => None,
        }
    }
}

/// The table, or the nearest one that it decorates, whose type is one of
/// materialized views.
pub open spec fn materialized_layer(registry: RegistryView, table: TableView) -> Option<TableView>
    decreases table,
{
    if registry.materialized.dom().contains(table.type_id) {
        Some(table)
    } else {
        match table.base {
            Some(base) => if registry.decorators.dom().contains(table.type_id) {
                materialized_layer(registry, *base)
            } else {
                None
            },
            None => None,
        }
    }
}

/// The static partition columns of a table are the first of its partition
/// columns.
pub open spec fn static_columns_lead(table: TableView) -> bool {
    table.static_partition_columns.is_prefix_of(table.partition_columns)
}

/// The materialized view that a table is. A view whose static partition columns
/// are not the first of its partition columns fails.
pub open spec fn as_materialized(registry: RegistryView, table: TableView) -> Result<
    Option<TableView>,
    ErrorView,
> {
    match materialized_layer(registry, table) {
        None => Ok(None),
        Some(view) => if static_columns_lead(view) {
            Ok(Some(view))
        } else {
            Err(
                ErrorView::StaticPartitionColumns {
                    static_columns: view.static_partition_columns,
                    all_columns: view.partition_columns,
                },
            )
        },
    }
}

/// Registering a type keeps every type of materialized views one of listing
/// tables.
pub proof fn registering_keeps_well_formed(registry: RegistryView, id: u64, name: Seq<char>)
    requires
        registry.well_formed(),
    ensures
        registry.with_listing_table(id, name).well_formed(),
        registry.with_materialized(id, name).well_formed(),
        registry.with_decorator(id, name).well_formed(),
{
    let a = registry.with_listing_table(id, name);
    let b = registry.with_materialized(id, name);
    assert forall|x: u64| #[trigger] a.materialized.dom().contains(x) implies a.listing_tables.dom().contains(
    x) by {
        assert(registry.materialized.dom().contains(x));
    }
    assert forall|x: u64| #[trigger] b.materialized.dom().contains(x) implies b.listing_tables.dom().contains(
    x) by {
        assert(x == id || registry.materialized.dom().contains(x));
    }
}

/// A registry of the types of tables that are listing tables, materialized
/// views or decorators of other tables.
pub struct TableTypeRegistry {
    listing_tables: DashMap<u64, String, RandomState>,
    materialized: DashMap<u64, String, RandomState>,
    decorators: DashMap<u64, String, RandomState>,
}

impl View for TableTypeRegistry {
    type V = RegistryView;

    closed spec fn view(&self) -> RegistryView {
        RegistryView {
            listing_tables: map_contents(self.listing_tables),
            materialized: map_contents(self.materialized),
            decorators: map_contents(self.decorators),
        }
    }
}

impl Default for TableTypeRegistry {
    fn default() -> (r: Self)
        ensures
            r@ == initial_registry(),
            r@.well_formed(),
    {
        let mut r = TableTypeRegistry {
            listing_tables: outside_new(),
            materialized: outside_new(),
            decorators: outside_new(),
        };
        r.register_listing_table(LISTING_TABLE, "ListingTable");
        r
    }
}

impl TableTypeRegistry {
    /// Registers a type of listing tables.
    pub fn register_listing_table(&mut self, type_id: u64, name: &str)
        ensures
            final(self)@ == old(self)@.with_listing_table(type_id, name@),
            old(self)@.well_formed() ==> final(self)@.well_formed(),
    {
        proof {
            if self@.well_formed() {
                registering_keeps_well_formed(self@, type_id, name@);
            }
        }
        outside_insert(&mut self.listing_tables, type_id, name.to_owned());
    }

    /// Registers a type of materialized views, as one of listing tables too.
    pub fn register_materialized(&mut self, type_id: u64, name: &str)
        ensures
            final(self)@ == old(self)@.with_materialized(type_id, name@),
            old(self)@.well_formed() ==> final(self)@.well_formed(),
    {
        proof {
            if self@.well_formed() {
                registering_keeps_well_formed(self@, type_id, name@);
            }
        }
        outside_insert(&mut self.materialized, type_id, name.to_owned());
        self.register_listing_table(type_id, name);
    }

    /// Registers a type of decorators.
    pub fn register_decorator(&mut self, type_id: u64, name: &str)
        ensures
            final(self)@ == old(self)@.with_decorator(type_id, name@),
            old(self)@.well_formed() ==> final(self)@.well_formed(),
    {
        proof {
            if self@.well_formed() {
                registering_keeps_well_formed(self@, type_id, name@);
            }
        }
        outside_insert(&mut self.decorators, type_id, name.to_owned());
    }

    /// The table, where its type is one of listing tables.
    pub fn cast_to_listing_table<'a>(&self, table: &'a TableProvider) -> (r: Option<
        &'a TableProvider,
    >)
        ensures
            r is Some <==> self@.listing_tables.dom().contains(table@.type_id),
            r is Some ==> r->0 == table,
    {
        if outside_contains_key(&self.listing_tables, table.type_id) {
            Some(table)
        } else {
            None
        }
    }

    /// The table, where its type is one of materialized views.
    pub fn cast_to_materialized<'a>(&self, table: &'a TableProvider) -> (r: Option<
        &'a TableProvider,
    >)
        ensures
            r is Some <==> self@.materialized.dom().contains(table@.type_id),
            r is Some ==> r->0 == table,
    {
        if outside_contains_key(&self.materialized, table.type_id) {
            Some(table)
        } else {
            None
        }
    }

    /// The table that a table decorates, where its type is one of decorators.
    pub fn cast_to_decorator<'a>(&self, table: &'a TableProvider) -> (r: Option<
        &'a TableProvider,
    >)
        ensures
            r is Some <==> decorated(self@, table@) is Some,
            r is Some ==> r->0@ == decorated(self@, table@)->0 && Some(*r->0) == (
            match table.base {
                Some(base) => Some(*base),
                None => None,
            }),
    {
        if !outside_contains_key(&self.decorators, table.type_id) {
            return None;
        }
        match &table.base {
            Some(base) => Some(&**base),
            None => None,
        }
    }
}

/// Registers a type of listing tables, so that [`cast_to_listing_table`] knows
/// tables of it.
pub fn register_listing_table(registry: &mut TableTypeRegistry, type_id: u64, name: &str)
    ensures
        final(registry)@ == old(registry)@.with_listing_table(type_id, name@),
        old(registry)@.well_formed() ==> final(registry)@.well_formed(),
{
    registry.register_listing_table(type_id, name);
}

/// Registers a type of materialized views, so that [`cast_to_materialized`]
/// knows tables of it. Registers it as one of listing tables too.
pub fn register_materialized(registry: &mut TableTypeRegistry, type_id: u64, name: &str)
    ensures
        final(registry)@ == old(registry)@.with_materialized(type_id, name@),
        old(registry)@.well_formed() ==> final(registry)@.well_formed(),
{
    registry.register_materialized(type_id, name);
}

/// Registers a type of decorators, so that tables of it are known by what they
/// decorate.
pub fn register_decorator(registry: &mut TableTypeRegistry, type_id: u64, name: &str)
    ensures
        final(registry)@ == old(registry)@.with_decorator(type_id, name@),
        old(registry)@.well_formed() ==> final(registry)@.well_formed(),
{
    registry.register_decorator(type_id, name);
}

/// Attempts to cast the given table into a listing table: itself, or the nearest
/// one that it decorates.
pub fn cast_to_listing_table<'a>(registry: &TableTypeRegistry, table: &'a TableProvider) -> (r:
    Option<&'a TableProvider>)
    ensures
        r is Some <==> as_listing_table(registry@, table@) is Some,
        r is Some ==> r->0@ == as_listing_table(registry@, table@)->0,
    decreases table,
{
    if let Some(found) = registry.cast_to_listing_table(table) {
        return Some(found);
    }
    match registry.cast_to_decorator(table) {
        Some(base) => cast_to_listing_table(registry, base),
        None => None,
    }
}

fn find_materialized<'a>(registry: &TableTypeRegistry, table: &'a TableProvider) -> (r: Option<
    &'a TableProvider,
>)
    ensures
        r is Some <==> materialized_layer(registry@, table@) is Some,
        r is Some ==> r->0@ == materialized_layer(registry@, table@)->0,
    decreases table,
{
    if let Some(found) = registry.cast_to_materialized(table) {
        return Some(found);
    }
    match registry.cast_to_decorator(table) {
        Some(base) => find_materialized(registry, base),
        None => None,
    }
}

/// Copies a list of strings.
fn clone_strings(v: &Vec<String>) -> (r: Vec<String>)
    ensures
        strings_view(r@) == strings_view(v@),
{
    let mut r: Vec<String> = Vec::new();
    for i in 0..v.len()
        invariant
            r@.len() == i,
            forall|j: int| 0 <= j < i ==> (#[trigger] r@[j])@ == v@[j]@,
    {
        r.push(v[i].clone());
    }
    assert(strings_view(r@) =~= strings_view(v@));
    r
}

/// Whether the first list is the front of the second.
fn leads(front: &Vec<String>, all: &Vec<String>) -> (r: bool)
    ensures
        r == strings_view(front@).is_prefix_of(strings_view(all@)),
{
    let ghost a = strings_view(front@);
    let ghost b = strings_view(all@);
    if front.len() > all.len() {
        return false;
    }
    for i in 0..front.len()
        invariant
            a == strings_view(front@),
            b == strings_view(all@),
            front@.len() <= all@.len(),
            forall|j: int| 0 <= j < i ==> a[j] == b[j],
    {
        if front[i] != all[i] {
            assert(a[i as int] != b[i as int]);
            assert(b.subrange(0, a.len() as int)[i as int] == b[i as int]);
            return false;
        }
    }
    assert(a =~= b.subrange(0, a.len() as int));
    true
}

/// Attempts to cast the given table into a materialized view: itself, or the
/// nearest one that it decorates.
///
/// Checks that the static partition columns of the view are a prefix of all its
/// partition columns, and returns an error if they are not.
pub fn cast_to_materialized<'a>(registry: &TableTypeRegistry, table: &'a TableProvider) -> (r:
    Result<Option<&'a TableProvider>, Error>)
    ensures
        match as_materialized(registry@, table@) {
            Ok(Some(view)) => r matches Ok(Some(x)) && x@ == view,
            Ok(None) => r matches Ok(None),
            Err(e) => r matches Err(x) && x@ == e,
        },
{
    let view = match find_materialized(registry, table) {
        None => return Ok(None),
        Some(view) => view,
    };
    if !leads(&view.static_partition_columns, &view.partition_columns) {
        return Err(
            Error::StaticPartitionColumns {
                static_columns: clone_strings(&view.static_partition_columns),
                all_columns: clone_strings(&view.partition_columns),
            },
        );
    }
    Ok(Some(view))
}

impl TableProvider {
    /// A table that says of itself what tables say by default: all of its
    /// partition columns are static, and its readiness is not known.
    pub fn new(type_id: u64, partition_columns: Vec<String>) -> (r: Self)
        ensures
            r@ == (TableView {
                type_id,
                base: None,
                partition_columns: strings_view(partition_columns@),
                static_partition_columns: strings_view(partition_columns@),
                readiness: RewriteReadiness::Unknown,
            }),
    {
        let static_partition_columns = clone_strings(&partition_columns);
        TableProvider {
            type_id,
            base: None,
            partition_columns,
            static_partition_columns,
            readiness: RewriteReadiness::Unknown,
        }
    }
}

/// What a table that was found in the catalog tells of its readiness: only a
/// materialized view tells, and one that breaks its own rules does not.
pub open spec fn lookup_of(registry: RegistryView, table: TableView) -> TableLookup {
    match as_materialized(registry, table) {
        Ok(Some(view)) => TableLookup::Reported(view.readiness),
        Ok(None) => TableLookup::NotMaterialized,
        Err(_) => TableLookup::InvalidView,
    }
}

/// What a table that was found in the catalog tells of its readiness.
pub fn table_readiness(registry: &TableTypeRegistry, table: &TableProvider) -> (r: TableLookup)
    ensures
        r == lookup_of(registry@, table@),
{
    match cast_to_materialized(registry, table) {
        Ok(Some(view)) => TableLookup::Reported(view.readiness),
        Ok(None) => TableLookup::NotMaterialized,
        Err(_) => TableLookup::InvalidView,
    }
}

// ---------------------------------------------------------------------------
// Laws
// ---------------------------------------------------------------------------

/// A materialized view that says of itself what tables say by default is one,
/// and its readiness is not known.
pub proof fn default_views_are_valid(registry: RegistryView, table: TableView)
    requires
        registry.materialized.dom().contains(table.type_id),
        table.static_partition_columns == table.partition_columns,
        table.readiness == RewriteReadiness::Unknown,
    ensures
        as_materialized(registry, table) == Ok::<Option<TableView>, ErrorView>(Some(table)),
        lookup_of(registry, table) == TableLookup::Reported(RewriteReadiness::Unknown),
{
    let columns = table.partition_columns;
    assert(columns =~= columns.subrange(0, columns.len() as int));
}

/// From the start, tables of the listing table type are listing tables, and no
/// table is anything else.
pub proof fn initial_registry_knows_listing_tables(table: TableView)
    ensures
        as_listing_table(initial_registry(), table) == (if table.type_id == LISTING_TABLE {
            Some(table)
        } else {
            None
        }),
        materialized_layer(initial_registry(), table) is None,
{
}

/// A table whose type is not registered is neither a listing table nor a
/// materialized view.
pub proof fn unregistered_types_are_unknown(registry: RegistryView, table: TableView)
    requires
        !registry.listing_tables.dom().contains(table.type_id),
        !registry.materialized.dom().contains(table.type_id),
        !registry.decorators.dom().contains(table.type_id),
    ensures
        as_listing_table(registry, table) is None,
        as_materialized(registry, table) == Ok::<Option<TableView>, ErrorView>(None),
{
}

/// A table whose type was registered is found as itself, whatever it decorates.
pub proof fn registered_types_are_known(
    registry: RegistryView,
    table: TableView,
    name: Seq<char>,
)
    ensures
        as_listing_table(registry.with_listing_table(table.type_id, name), table) == Some(table),
        as_listing_table(registry.with_materialized(table.type_id, name), table) == Some(table),
        materialized_layer(registry.with_materialized(table.type_id, name), table) == Some(table),
{
}

/// A decorator that is registered as nothing else is known by what it decorates.
pub proof fn decorators_are_looked_through(
    registry: RegistryView,
    table: TableView,
    base: TableView,
    name: Seq<char>,
)
    requires
        table.base == Some(Box::new(base)),
        !registry.listing_tables.dom().contains(table.type_id),
        !registry.materialized.dom().contains(table.type_id),
    ensures
        ({
            let after = registry.with_decorator(table.type_id, name);
            &&& as_listing_table(after, table) == as_listing_table(after, base)
            &&& as_materialized(after, table) == as_materialized(after, base)
        }),
{
    assert(*(table.base->0) == base);
}

/// Registering a type never hides a table that was known.
pub proof fn registering_hides_no_table(
    registry: RegistryView,
    table: TableView,
    id: u64,
    name: Seq<char>,
)
    ensures
        as_listing_table(registry, table) is Some ==> {
            &&& as_listing_table(registry.with_listing_table(id, name), table) is Some
            &&& as_listing_table(registry.with_materialized(id, name), table) is Some
            &&& as_listing_table(registry.with_decorator(id, name), table) is Some
        },
        materialized_layer(registry, table) is Some ==> {
            &&& materialized_layer(registry.with_listing_table(id, name), table) is Some
            &&& materialized_layer(registry.with_materialized(id, name), table) is Some
            &&& materialized_layer(registry.with_decorator(id, name), table) is Some
        },
    decreases table,
{
    if let Some(base) = table.base {
        registering_hides_no_table(registry, *base, id, name);
    }
}

/// Every materialized view is a listing table, and its static partition columns
/// are a prefix of its partition columns.
pub proof fn materialized_views_are_listing_tables(registry: RegistryView, table: TableView)
    requires
        registry.well_formed(),
    ensures
        materialized_layer(registry, table) is Some ==> as_listing_table(registry, table) is Some,
        as_materialized(registry, table) matches Ok(Some(view)) ==> {
            &&& registry.materialized.dom().contains(view.type_id)
            &&& as_listing_table(registry, view) == Some(view)
            &&& static_columns_lead(view)
        },
    decreases table,
{
    if let Some(base) = table.base {
        materialized_views_are_listing_tables(registry, *base);
    }
}

/// A type that is registered as one of listing tables is one under its new name, and
/// nothing else changes.
pub proof fn registering_adds_one_listing_table(
    registry: RegistryView,
    id: u64,
    name: Seq<char>,
    other: u64,
)
    ensures
        ({
            let after = registry.with_listing_table(id, name);
            &&& after.listing_tables.dom().contains(id) && after.listing_tables[id] == name
            &&& other != id ==> (after.listing_tables.dom().contains(other)
                <==> registry.listing_tables.dom().contains(other)) && after.listing_tables[other]
                == registry.listing_tables[other]
            &&& after.materialized == registry.materialized
            &&& after.decorators == registry.decorators
        }),
{
}

/// A type that is registered as one of materialized views is one, and one of listing
/// tables, under its new name, and nothing else changes.
pub proof fn registering_adds_one_materialized_view(
    registry: RegistryView,
    id: u64,
    name: Seq<char>,
    other: u64,
)
    ensures
        ({
            let after = registry.with_materialized(id, name);
            &&& after.listing_tables.dom().contains(id) && after.listing_tables[id] == name
            &&& after.materialized.dom().contains(id) && after.materialized[id] == name
            &&& other != id ==> (after.listing_tables.dom().contains(other)
                <==> registry.listing_tables.dom().contains(other)) && after.listing_tables[other]
                == registry.listing_tables[other]
            &&& other != id ==> (after.materialized.dom().contains(other)
                <==> registry.materialized.dom().contains(other)) && after.materialized[other]
                == registry.materialized[other]
            &&& after.decorators == registry.decorators
        }),
{
}

/// A type that is registered as one of decorators is one under its new name, and
/// nothing else changes.
pub proof fn registering_adds_one_decorator(
    registry: RegistryView,
    id: u64,
    name: Seq<char>,
    other: u64,
)
    ensures
        ({
            let after = registry.with_decorator(id, name);
            &&& after.decorators.dom().contains(id) && after.decorators[id] == name
            &&& other != id ==> (after.decorators.dom().contains(other)
                <==> registry.decorators.dom().contains(other)) && after.decorators[other]
                == registry.decorators[other]
            &&& after.listing_tables == registry.listing_tables
            &&& after.materialized == registry.materialized
        }),
{
}

/// The table so many steps below a table, from each decorator to what it decorates.
pub open spec fn below(table: TableView, steps: nat) -> Option<TableView>
    decreases steps,
{
    if steps == 0 {
        Some(table)
    } else {
        match table.base {
            Some(base) => below(*base, (steps - 1) as nat),
            None => None,
        }
    }
}

/// The table so many steps below is the nearest one of a kind of types: those
/// above it are decorators, of registered types, and not of the kind.
pub open spec fn nearest(
    registry: RegistryView,
    kind: Map<u64, Seq<char>>,
    table: TableView,
    found: TableView,
    steps: nat,
) -> bool {
    &&& below(table, steps) == Some(found)
    &&& kind.dom().contains(found.type_id)
    &&& forall|n: nat|
        n < steps ==> (#[trigger] below(table, n) matches Some(t) && registry.decorators.dom().contains(
            t.type_id,
        ) && !kind.dom().contains(t.type_id))
}

proof fn lemma_nearest_step(
    registry: RegistryView,
    kind: Map<u64, Seq<char>>,
    table: TableView,
    base: TableView,
    found: TableView,
    steps: nat,
)
    requires
        table.base == Some(Box::new(base)),
        registry.decorators.dom().contains(table.type_id),
        !kind.dom().contains(table.type_id),
        nearest(registry, kind, base, found, steps),
    ensures
        nearest(registry, kind, table, found, steps + 1),
{
    assert(*(table.base->0) == base);
    assert forall|n: nat| n < steps + 1 implies (#[trigger] below(table, n) matches Some(t)
        && registry.decorators.dom().contains(t.type_id) && !kind.dom().contains(t.type_id)) by {
        if n > 0 {
            assert(below(table, n) == below(base, (n - 1) as nat));
        }
    }
    assert(below(table, steps + 1) == below(base, steps));
}

proof fn lemma_nearest_below(
    registry: RegistryView,
    kind: Map<u64, Seq<char>>,
    table: TableView,
    found: TableView,
    steps: nat,
)
    requires
        steps > 0,
        nearest(registry, kind, table, found, steps),
    ensures
        registry.decorators.dom().contains(table.type_id),
        !kind.dom().contains(table.type_id),
        table.base is Some,
        nearest(registry, kind, *(table.base->0), found, (steps - 1) as nat),
{
    assert(below(table, 0) == Some(table));
    let base = *(table.base->0);
    assert forall|n: nat| n < steps - 1 implies (#[trigger] below(base, n) matches Some(t)
        && registry.decorators.dom().contains(t.type_id) && !kind.dom().contains(t.type_id)) by {
        assert(below(table, n + 1) == below(base, n));
    }
}

/// A table is the listing table that is found nearest below it through decorators.
pub proof fn listing_tables_are_the_nearest(
    registry: RegistryView,
    table: TableView,
    found: TableView,
)
    ensures
        as_listing_table(registry, table) == Some(found) <==> exists|steps: nat|
            nearest(registry, registry.listing_tables, table, found, steps),
    decreases table,
{
    let kind = registry.listing_tables;
    if let Some(base) = table.base {
        listing_tables_are_the_nearest(registry, *base, found);
    }
    if as_listing_table(registry, table) == Some(found) {
        if kind.dom().contains(table.type_id) {
            assert(nearest(registry, kind, table, found, 0));
        } else {
            let base = *(table.base->0);
            let steps = choose|steps: nat| nearest(registry, kind, base, found, steps);
            lemma_nearest_step(registry, kind, table, base, found, steps);
        }
    }
    if exists|steps: nat| nearest(registry, kind, table, found, steps) {
        let steps = choose|steps: nat| nearest(registry, kind, table, found, steps);
        if steps > 0 {
            lemma_nearest_below(registry, kind, table, found, steps);
        }
    }
}

/// A table is the materialized view that is found nearest below it through
/// decorators.
pub proof fn materialized_views_are_the_nearest(
    registry: RegistryView,
    table: TableView,
    found: TableView,
)
    ensures
        materialized_layer(registry, table) == Some(found) <==> exists|steps: nat|
            nearest(registry, registry.materialized, table, found, steps),
    decreases table,
{
    let kind = registry.materialized;
    if let Some(base) = table.base {
        materialized_views_are_the_nearest(registry, *base, found);
    }
    if materialized_layer(registry, table) == Some(found) {
        if kind.dom().contains(table.type_id) {
            assert(nearest(registry, kind, table, found, 0));
        } else {
            let base = *(table.base->0);
            let steps = choose|steps: nat| nearest(registry, kind, base, found, steps);
            lemma_nearest_step(registry, kind, table, base, found, steps);
        }
    }
    if exists|steps: nat| nearest(registry, kind, table, found, steps) {
        let steps = choose|steps: nat| nearest(registry, kind, table, found, steps);
        if steps > 0 {
            lemma_nearest_below(registry, kind, table, found, steps);
        }
    }
}

/// The static partition columns of a view, followed by some others, are all its
/// partition columns.
pub open spec fn continues(view: TableView, rest: Seq<Seq<char>>) -> bool {
    view.partition_columns == view.static_partition_columns + rest
}

/// A table that is a materialized view tells the readiness of the view, whatever it
/// is, where the static partition columns of the view, followed by the others, are
/// all its partition columns; else it fails with both lists of columns, and tells
/// that the view is not valid. A table that is none tells that.
pub proof fn views_tell_their_readiness(registry: RegistryView, table: TableView, view: TableView)
    ensures
        materialized_layer(registry, table) == Some(view) && (exists|rest: Seq<Seq<char>>|
            continues(view, rest)) ==> {
            &&& as_materialized(registry, table) == Ok::<Option<TableView>, ErrorView>(Some(view))
            &&& lookup_of(registry, table) == TableLookup::Reported(view.readiness)
        },
        materialized_layer(registry, table) == Some(view) && !(exists|rest: Seq<Seq<char>>|
            continues(view, rest)) ==> {
            &&& as_materialized(registry, table) == Err::<Option<TableView>, ErrorView>(
                ErrorView::StaticPartitionColumns {
                    static_columns: view.static_partition_columns,
                    all_columns: view.partition_columns,
                },
            )
            &&& lookup_of(registry, table) == TableLookup::InvalidView
        },
        materialized_layer(registry, table) is None ==> {
            &&& as_materialized(registry, table) == Ok::<Option<TableView>, ErrorView>(None)
            &&& lookup_of(registry, table) == TableLookup::NotMaterialized
        },
{
    let (a, b) = (view.static_partition_columns, view.partition_columns);
    if static_columns_lead(view) {
        let rest = b.subrange(a.len() as int, b.len() as int);
        assert(b =~= a + rest);
        assert(continues(view, rest));
    }
    if exists|rest: Seq<Seq<char>>| continues(view, rest) {
        let rest = choose|rest: Seq<Seq<char>>| continues(view, rest);
        assert(a =~= b.subrange(0, a.len() as int));
    }
}

/// From the start one type is registered: that of listing tables, under its name.
pub proof fn initial_registry_has_one_type(id: u64)
    ensures
        ({
            let registry = initial_registry();
            &&& registry.listing_tables.dom().contains(id) <==> id == LISTING_TABLE
            &&& registry.listing_tables[LISTING_TABLE] == "ListingTable"@
            &&& !registry.materialized.dom().contains(id)
            &&& !registry.decorators.dom().contains(id)
            &&& registry.well_formed()
        }),
{
}

/// A decorator of a registered type gives the table one step below it, and no other
/// table gives one.
pub proof fn decorators_give_what_they_decorate(registry: RegistryView, table: TableView)
    ensures
        registry.decorators.dom().contains(table.type_id) ==> decorated(registry, table) == below(
            table,
            1,
        ),
        !registry.decorators.dom().contains(table.type_id) ==> decorated(registry, table) is None,
{
    if let Some(base) = table.base {
        assert(below(*base, 0) == Some(*base));
        assert(below(table, 1) == below(*base, 0));
    }
}

} // verus!
